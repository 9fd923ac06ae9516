//! The playback engine, driven by a pipeline that hands the next file over just
//! before the current one ends.

use albumplayer::model::{AlbumRow, Real, TrackRow};
use albumplayer::path::FilePath;
use albumplayer::player::{
    album_from_library, Command, Effect, Engine, Message, Pipeline, PlayState, PlayerEvent,
};
use albumplayer::queue::{AlbumQueue, QueuedAlbum, QueuedTrack, Repeat, Source};

/// An album of `count` one-second tracks.
fn album(id: i64, count: usize) -> QueuedAlbum {
    QueuedAlbum {
        id,
        title: format!("Album {id}"),
        artist: "Test Artist".into(),
        album_gain_db: None,
        album_peak: None,
        tracks: (0..count)
            .map(|i| QueuedTrack {
                id: id * 100 + i as i64,
                source: Source::File(FilePath::parse(&format!("/m/album{id}/{:02}.opus", i + 1))),
                title: format!("Track {}", i + 1),
                disc_no: 1,
                track_no: i as i64 + 1,
                duration_ms: 1000,
            })
            .collect(),
    }
}

/// A player whose files last a second each.
struct Player {
    engine: Engine,
    seen: Vec<PlayerEvent>,
}

impl Player {
    fn new() -> Player {
        Player { engine: Engine::new(AlbumQueue::new()), seen: Vec::new() }
    }

    fn note(&mut self, effects: Vec<Effect>) {
        for effect in effects {
            if let Effect::Emit(event) = effect {
                self.seen.push(event);
            }
        }
    }

    fn send(&mut self, command: Command) {
        let effects = self.engine.handle_command(command);
        self.note(effects);
    }

    /// Let the current file play to its end.
    fn play_out(&mut self) {
        self.engine.tick(1000, 1000);
        let message = if self.engine.next_up().is_some() {
            self.engine.handed_over();
            Message::StreamStart
        } else {
            Message::EndOfStream
        };
        let effects = self.engine.handle_message(message);
        self.note(effects);
    }

    /// Play until the queue is finished, or for so many files.
    fn run(&mut self, files: usize) {
        for _ in 0..files {
            if self.finished() {
                break;
            }
            self.play_out();
        }
    }

    fn finished(&self) -> bool {
        self.seen.iter().any(|e| matches!(e, PlayerEvent::QueueFinished))
    }

    fn started(&self) -> Vec<i64> {
        self.seen
            .iter()
            .filter_map(|e| match e {
                PlayerEvent::TrackStarted { track_id, .. } => Some(*track_id),
                _ => None,
            })
            .collect()
    }
}

#[test]
fn an_album_plays_all_the_way_through_in_order() {
    let mut player = Player::new();
    player.send(Command::PlayAlbum(album(1, 4)));
    player.run(30);

    // The point of the test: every track, once, in album order, with no gaps.
    assert_eq!(player.started(), vec![100, 101, 102, 103], "tracks played in order");
    assert!(player.finished(), "the queue reported finishing");
}

#[test]
fn playback_rolls_from_one_album_into_the_next() {
    let mut player = Player::new();
    player.send(Command::PlayAlbum(album(1, 2)));
    player.send(Command::Enqueue(album(2, 2)));
    player.run(30);

    assert_eq!(player.started(), vec![100, 101, 200, 201]);

    // Both albums announced themselves, in order.
    let albums: Vec<i64> = player
        .seen
        .iter()
        .filter_map(|e| match e {
            PlayerEvent::AlbumStarted { album_id, .. } => Some(*album_id),
            _ => None,
        })
        .collect();
    assert_eq!(albums, vec![1, 2], "each album announced once, in order");
}

#[test]
fn every_played_track_reports_how_much_was_heard() {
    let mut player = Player::new();
    player.send(Command::PlayAlbum(album(1, 3)));
    player.run(30);

    let finished: Vec<(i64, i64)> = player
        .seen
        .iter()
        .filter_map(|e| match e {
            PlayerEvent::TrackFinished { track_id, ms_played, .. } => Some((*track_id, *ms_played)),
            _ => None,
        })
        .collect();

    assert_eq!(finished.len(), 3, "one report per track: {finished:?}");
    // Each report carries a duration; the play log needs it to decide whether the
    // listen counted.
    for (track_id, ms) in &finished {
        assert!(*ms > 0, "track {track_id} reported {ms}ms played");
    }
}

#[test]
fn skipping_to_the_next_album_abandons_the_rest_of_this_one() {
    let mut player = Player::new();
    player.send(Command::PlayAlbum(album(1, 5)));
    player.send(Command::Enqueue(album(2, 1)));
    player.send(Command::NextAlbum);
    player.run(30);

    let started = player.started();
    assert!(started.contains(&200), "reached the second album: {started:?}");
    assert!(!started.contains(&104), "did not keep playing the abandoned album: {started:?}");
}

#[test]
fn a_missing_file_does_not_end_the_session() {
    let mut player = Player::new();
    player.send(Command::PlayAlbum(album(1, 3)));
    // The middle track was deleted out from under the player.
    player.play_out();
    let effects = player.engine.handle_message(Message::Failed("missing.opus".into()));
    player.note(effects);
    player.run(30);

    let started = player.started();
    assert!(started.contains(&100), "played before the gap: {started:?}");
    assert!(started.contains(&102), "recovered and played past the gap: {started:?}");
    assert!(player.seen.contains(&PlayerEvent::Error("missing.opus".into())));
}

#[test]
fn pausing_reports_the_paused_state() {
    let mut player = Player::new();
    player.send(Command::PlayAlbum(album(1, 2)));
    player.send(Command::Pause);
    assert!(
        player.seen.iter().any(|e| matches!(e, PlayerEvent::StateChanged(PlayState::Paused))),
        "paused state was reported"
    );

    // And the published snapshot agrees.
    assert_eq!(player.engine.tick(10, 1000).state, PlayState::Paused);
}

#[test]
fn repeat_album_keeps_going_round() {
    let mut player = Player::new();
    player.send(Command::SetRepeat(Repeat::Album));
    player.send(Command::PlayAlbum(album(1, 2)));

    // Five starts means it wrapped past the two-track album at least twice.
    player.run(5);
    let started = player.started();
    assert!(started.len() >= 5, "kept looping: {started:?}");
    assert!(!player.finished(), "never reported the queue as finished");
}

#[test]
fn paused_time_is_not_heard() {
    let mut player = Player::new();
    player.send(Command::PlayAlbum(album(1, 1)));
    player.engine.tick(400, 1000);
    player.send(Command::Pause);
    player.engine.tick(900, 1000);
    player.send(Command::Stop);
    assert!(player.seen.contains(&PlayerEvent::TrackFinished { album_id: 1, track_id: 100, ms_played: 400 }));
}

#[test]
fn a_jump_does_not_move_on_twice() {
    let mut player = Player::new();
    player.send(Command::PlayAlbum(album(1, 3)));
    player.engine.handed_over();
    player.send(Command::NextTrack);
    // The pipeline announces the file that the jump loaded.
    let effects = player.engine.handle_message(Message::StreamStart);
    assert!(effects.is_empty());
    assert_eq!(player.engine.tick(0, 1000).track.unwrap().0, 101);
}

#[test]
fn starting_an_album_drives_the_pipeline_in_order() {
    let mut engine = Engine::new(AlbumQueue::with_seed(1));
    let mut one = album(1, 1);
    one.album_gain_db = Some(Real { bits: (-6.0f64).to_bits() });
    let effects = engine.handle_command(Command::PlayAlbum(one));
    assert_eq!(effects[0], Effect::SetPipeline(Pipeline::Ready));
    assert_eq!(effects[1], Effect::LoadCurrent);
    assert_eq!(
        effects[2],
        Effect::ApplyVolume { gain_db: Some(Real { bits: (-6.0f64).to_bits() }), peak: None }
    );
    assert_eq!(effects[3], Effect::SetPipeline(Pipeline::Playing));
    assert_eq!(engine.handle_command(Command::SeekTo(250)), vec![Effect::Seek(250)]);
}

#[test]
fn library_rows_become_a_queue_album() {
    let row = AlbumRow {
        id: 3,
        title: "T".into(),
        album_artist: "A".into(),
        year: None,
        track_count: 1,
        disc_count: 1,
        duration_ms: 5,
        is_compilation: false,
        dir_path: "/m".into(),
        source_dirs: 1,
        play_count: 0,
        last_played: None,
    };
    let tracks = vec![TrackRow {
        id: 30,
        disc_no: 2,
        track_no: 4,
        title: "x".into(),
        artist: "A".into(),
        duration_ms: 5,
        codec: None,
        path: "/m/x.mp3".into(),
        play_count: 0,
    }];
    let queued = album_from_library(&row, &tracks, None, None);
    assert_eq!((queued.id, queued.artist.as_str()), (3, "A"));
    assert_eq!(queued.tracks[0].track_no, 4);
    assert!(matches!(&queued.tracks[0].source, Source::File(p) if p.to_text() == "/m/x.mp3"));
}

/// What the events say of finished tracks, new albums and started tracks.
fn told(seen: &[PlayerEvent]) -> Vec<String> {
    seen.iter()
        .filter_map(|e| match e {
            PlayerEvent::TrackFinished { track_id, .. } => Some(format!("finished {track_id}")),
            PlayerEvent::AlbumStarted { album_id, title } => Some(format!("album {album_id} {title}")),
            PlayerEvent::TrackStarted { track_id, .. } => Some(format!("started {track_id}")),
            _ => None,
        })
        .collect()
}

#[test]
fn stepping_into_another_album_announces_it() {
    let mut player = Player::new();
    player.send(Command::PlayAlbum(album(1, 2)));
    player.send(Command::Enqueue(album(2, 2)));

    // From track to track of one album nothing is announced.
    player.seen.clear();
    player.send(Command::NextTrack);
    assert_eq!(told(&player.seen), vec!["finished 100", "started 101"]);

    player.seen.clear();
    player.send(Command::NextTrack);
    assert_eq!(told(&player.seen), vec!["finished 101", "album 2 Album 2", "started 200"]);

    player.seen.clear();
    player.send(Command::PrevTrack);
    assert_eq!(told(&player.seen), vec!["finished 200", "album 1 Album 1", "started 101"]);

    // A file that cannot be played is skipped, here into the next album.
    player.seen.clear();
    let effects = player.engine.handle_message(Message::Failed("unreadable".into()));
    player.note(effects);
    assert_eq!(player.seen[0], PlayerEvent::Error("unreadable".into()));
    assert_eq!(told(&player.seen), vec!["finished 101", "album 2 Album 2", "started 200"]);
}

#[test]
fn resuming_the_album_that_was_stopped_announces_nothing() {
    let mut player = Player::new();
    player.send(Command::PlayAlbum(album(1, 3)));
    player.send(Command::Stop);
    player.seen.clear();
    player.send(Command::NextTrack);
    assert_eq!(told(&player.seen), vec!["started 101"]);
}
