//! What the desktop shell exchanges with its web view.

use albumplayer::desktop::{
    event_name, needs_webkit_workaround, queued, repeat_mode, repeat_name, state_name, status, AlbumRequest,
    TrackRequest,
};
use albumplayer::player::{PlayState, PlayerEvent, PlayerStatus};
use albumplayer::queue::{Repeat, Source};

#[test]
fn requested_albums_stream_from_their_urls() {
    let album = queued(AlbumRequest {
        id: 1,
        title: "T".into(),
        artist: "A".into(),
        gain_db: None,
        peak: None,
        tracks: vec![TrackRequest {
            id: 10,
            url: "https://home.lan/x?token=a%20b".into(),
            title: "t".into(),
            disc_no: 1,
            track_no: 2,
            duration_ms: 3,
        }],
    });
    assert_eq!(album.tracks.len(), 1);
    assert_eq!(album.tracks[0].source, Source::Url("https://home.lan/x?token=a%20b".into()));
    assert_eq!(album.tracks[0].track_no, 2);
}

#[test]
fn ways_of_looping_are_known_by_name() {
    for repeat in [Repeat::Off, Repeat::Album, Repeat::Queue] {
        assert_eq!(repeat_mode(repeat_name(repeat)), Ok(repeat));
    }
    assert_eq!(repeat_mode("ever").unwrap_err(), "unknown repeat mode 'ever'");
}

#[test]
fn the_transport_bar_shows_the_player() {
    let shown = status(PlayerStatus {
        state: PlayState::Paused,
        album: Some((1, "T".into(), "A".into())),
        track: Some((10, "t".into())),
        position_ms: 5,
        duration_ms: 9,
        shuffle: true,
        repeat: Repeat::Album,
        queued_albums: 4,
    });
    assert_eq!((shown.state, shown.repeat), ("paused", "album"));
    assert_eq!((shown.album_id, shown.track_id), (Some(1), Some(10)));
    assert_eq!(shown.artist.as_deref(), Some("A"));
    assert_eq!((shown.position_ms, shown.duration_ms, shown.queued_albums), (5, 9, 4));
    assert_eq!(state_name(PlayState::Stopped), "stopped");
}

#[test]
fn events_have_names() {
    assert_eq!(event_name(&PlayerEvent::QueueFinished), "queue-finished");
    assert_eq!(event_name(&PlayerEvent::StateChanged(PlayState::Playing)), "state-changed");
    assert_eq!(event_name(&PlayerEvent::Error("x".into())), "player-error");
}

#[test]
fn the_users_choice_of_renderer_is_respected() {
    assert!(needs_webkit_workaround(true, false, None));
    assert!(needs_webkit_workaround(true, false, Some("0")));
    assert!(!needs_webkit_workaround(true, false, Some("1")));
    assert!(!needs_webkit_workaround(true, false, Some("true")));
    assert!(!needs_webkit_workaround(true, true, None));
    assert!(!needs_webkit_workaround(false, false, None));
}

#[test]
fn before_anything_plays_the_player_is_stopped() {
    let shown = status(PlayerStatus::default());
    assert_eq!(shown.state, "stopped");
    assert_eq!(shown.repeat, "off");
    assert_eq!((shown.album_id, shown.track_id), (None, None));
    assert_eq!((shown.position_ms, shown.duration_ms, shown.queued_albums), (0, 0, 0));
    assert!(!shown.shuffle);
}
