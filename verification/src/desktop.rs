//! The desktop shell: what the web view sends to the engine, and what it is shown.
//!
//! The shell owns the queue and the pipeline and streams from the server. The
//! library, the login and the play history stay with the web view, so that there is
//! one listening history across the desktop, a browser and a phone.

use vstd::prelude::*;

use crate::model::Real;
use crate::player::{PlayState, PlayerEvent, PlayerStatus};
use crate::queue::{QueuedAlbum, QueuedTrack, Repeat, Source};
use crate::text::{append_text, chars_of, same_text, text_of};

verus! {

/// An album handed over from the web view, with stream URLs already signed.
#[derive(Debug)]
pub struct AlbumRequest {
    pub id: i64,
    pub title: String,
    pub artist: String,
    pub gain_db: Option<Real>,
    pub peak: Option<Real>,
    pub tracks: Vec<TrackRequest>,
}

#[derive(Debug)]
pub struct TrackRequest {
    pub id: i64,
    /// Full stream URL including its access token. Built by the web view so the
    /// shell never needs to know how the server authenticates.
    pub url: String,
    pub title: String,
    pub disc_no: i64,
    pub track_no: i64,
    pub duration_ms: i64,
}

/// The queue's track for a requested one.
pub open spec fn queued_track(t: TrackRequest) -> QueuedTrack {
    QueuedTrack {
        id: t.id,
        source: Source::Url(t.url),
        title: t.title,
        disc_no: t.disc_no,
        track_no: t.track_no,
        duration_ms: t.duration_ms,
    }
}

/// The queue's album for a requested one.
pub fn queued(album: AlbumRequest) -> (r: QueuedAlbum)
    ensures
        r.id == album.id,
        r.title == album.title,
        r.artist == album.artist,
        r.album_gain_db == album.gain_db,
        r.album_peak == album.peak,
        r.tracks@ == album.tracks@.map_values(|t: TrackRequest| queued_track(t)),
{
    let ghost all = album.tracks@;
    let mut tracks: Vec<QueuedTrack> = Vec::new();
    for t in it: album.tracks.into_iter()
        invariant
            it.seq() == all,
            tracks@ =~= all.take(it.index() as int).map_values(|t: TrackRequest| queued_track(t)),
    {
        tracks.push(
            QueuedTrack {
                id: t.id,
                source: Source::Url(t.url),
                title: t.title,
                disc_no: t.disc_no,
                track_no: t.track_no,
                duration_ms: t.duration_ms,
            },
        );
    }
    assert(all.take(all.len() as int) =~= all);
    QueuedAlbum {
        id: album.id,
        title: album.title,
        artist: album.artist,
        album_gain_db: album.gain_db,
        album_peak: album.peak,
        tracks,
    }
}

/// The name of a playback state.
pub open spec fn state_text(state: PlayState) -> Seq<char> {
    match state {
        PlayState::Playing => "playing"@,
        PlayState::Paused => "paused"@,
        PlayState::Stopped => "stopped"@,
    }
}

pub fn state_name(state: PlayState) -> (r: &'static str)
    ensures
        r@ == state_text(state),
{
    match state {
        PlayState::Playing => "playing",
        PlayState::Paused => "paused",
        PlayState::Stopped => "stopped",
    }
}

/// The name of a way of looping.
pub open spec fn repeat_text(repeat: Repeat) -> Seq<char> {
    match repeat {
        Repeat::Off => "off"@,
        Repeat::Album => "album"@,
        Repeat::Queue => "queue"@,
    }
}

pub fn repeat_name(repeat: Repeat) -> (r: &'static str)
    ensures
        r@ == repeat_text(repeat),
{
    match repeat {
        Repeat::Off => "off",
        Repeat::Album => "album",
        Repeat::Queue => "queue",
    }
}

/// The way of looping of a given name.
pub fn repeat_mode(mode: &str) -> (r: Result<Repeat, String>)
    ensures
        match r {
            Ok(repeat) => mode@ == repeat_text(repeat),
            Err(m) => (forall|repeat: Repeat| mode@ != repeat_text(repeat)) && m@
                == "unknown repeat mode '"@ + mode@ + "'"@,
        },
{
    if same_text(mode, "album") {
        Ok(Repeat::Album)
    } else if same_text(mode, "queue") {
        Ok(Repeat::Queue)
    } else if same_text(mode, "off") {
        Ok(Repeat::Off)
    } else {
        let mut out = chars_of("unknown repeat mode '");
        append_text(&mut out, mode);
        append_text(&mut out, "'");
        Err(text_of(&out))
    }
}

/// Every way of looping is known by its name, and no two share one.
pub proof fn repeat_names_read_back(a: Repeat, b: Repeat)
    ensures
        repeat_text(a) == repeat_text(b) <==> a == b,
{
    reveal_strlit("off");
    reveal_strlit("album");
    reveal_strlit("queue");
    assert("off"@.len() == 3);
    assert("album"@[0] == 'a');
    assert("queue"@[0] == 'q');
    assert("off"@[0] == 'o');
}

/// What the web view renders in the transport bar.
#[derive(Debug)]
pub struct Status {
    pub state: &'static str,
    pub album_id: Option<i64>,
    pub track_id: Option<i64>,
    pub track_title: Option<String>,
    pub album_title: Option<String>,
    pub artist: Option<String>,
    pub position_ms: i64,
    pub duration_ms: i64,
    pub shuffle: bool,
    pub repeat: &'static str,
    pub queued_albums: usize,
}

/// What the transport bar shows of the player.
pub fn status(s: PlayerStatus) -> (r: Status)
    ensures
        r.state@ == state_text(s.state),
        r.repeat@ == repeat_text(s.repeat),
        match s.album {
            Some((id, title, artist)) => r.album_id == Some(id) && r.album_title == Some(title)
                && r.artist == Some(artist),
            None => r.album_id is None && r.album_title is None && r.artist is None,
        },
        match s.track {
            Some((id, title)) => r.track_id == Some(id) && r.track_title == Some(title),
            None => r.track_id is None && r.track_title is None,
        },
        r.position_ms == s.position_ms,
        r.duration_ms == s.duration_ms,
        r.shuffle == s.shuffle,
        r.queued_albums == s.queued_albums,
{
    let (album_id, album_title, artist) = match s.album {
        Some((id, title, artist)) => (Some(id), Some(title), Some(artist)),
        None => (None, None, None),
    };
    let (track_id, track_title) = match s.track {
        Some((id, title)) => (Some(id), Some(title)),
        None => (None, None),
    };
    Status {
        state: state_name(s.state),
        album_id,
        track_id,
        track_title,
        album_title,
        artist,
        position_ms: s.position_ms,
        duration_ms: s.duration_ms,
        shuffle: s.shuffle,
        repeat: repeat_name(s.repeat),
        queued_albums: s.queued_albums,
    }
}

/// The name that an event is sent under.
pub open spec fn event_text(event: PlayerEvent) -> Seq<char> {
    match event {
        PlayerEvent::TrackStarted { .. } => "track-started"@,
        PlayerEvent::TrackFinished { .. } => "track-finished"@,
        PlayerEvent::AlbumStarted { .. } => "album-started"@,
        PlayerEvent::StateChanged(_) => "state-changed"@,
        PlayerEvent::QueueFinished => "queue-finished"@,
        PlayerEvent::Error(_) => "player-error"@,
    }
}

/// The name under which the web view hears of an event. It needs these to write
/// the play log: a finished track carries how much was actually heard, which is
/// what decides whether a listen counted.
pub fn event_name(event: &PlayerEvent) -> (r: &'static str)
    ensures
        r@ == event_text(*event),
{
    match event {
        PlayerEvent::TrackStarted { .. } => "track-started",
        PlayerEvent::TrackFinished { .. } => "track-finished",
        PlayerEvent::AlbumStarted { .. } => "album-started",
        PlayerEvent::StateChanged(_) => "state-changed",
        PlayerEvent::QueueFinished => "queue-finished",
        PlayerEvent::Error(_) => "player-error",
    }
}

/// Environment variable that disables WebKit's DMABUF renderer.
pub const DMABUF_ENV: &'static str = "WEBKIT_DISABLE_DMABUF_RENDERER";

/// Escape hatch for anyone whose drivers are fine and wants the faster path.
pub const KEEP_DMABUF_ENV: &'static str = "ALBUMPLAYER_ENABLE_DMABUF";

/// Whether the faster renderer is given up for one that always works.
pub open spec fn slow_path(linux: bool, already_set: bool, keep: Option<Seq<char>>) -> bool {
    linux && !already_set && !(keep == Some("1"@) || keep == Some("true"@))
}

/// Whether the DMABUF renderer is to be disabled.
///
/// On a good many Linux systems WebKitGTK cannot create its render buffers and the
/// window comes up blank. Disabling the DMABUF renderer fixes it at a small cost in
/// compositing performance. Anything already set by the user is left alone, and the
/// escape hatch opts back into the faster path.
pub fn needs_webkit_workaround(linux: bool, already_set: bool, keep: Option<&str>) -> (r: bool)
    ensures
        r == slow_path(linux, already_set, match keep {
            Some(v) => Some(v@),
            None => None,
        }),
{
    if !linux || already_set {
        return false;
    }
    match keep {
        Some(v) => !(same_text(v, "1") || same_text(v, "true")),
        None => true,
    }
}

/// The web view is told of each event under a name of its own, and of states and
/// ways of looping under theirs.
pub proof fn events_have_names(e: PlayerEvent, state: PlayState, repeat: Repeat)
    ensures
        e is TrackStarted <==> event_text(e) == "track-started"@,
        e is TrackFinished <==> event_text(e) == "track-finished"@,
        e is AlbumStarted <==> event_text(e) == "album-started"@,
        e is StateChanged <==> event_text(e) == "state-changed"@,
        e is QueueFinished <==> event_text(e) == "queue-finished"@,
        e is Error <==> event_text(e) == "player-error"@,
        state is Playing <==> state_text(state) == "playing"@,
        state is Paused <==> state_text(state) == "paused"@,
        state is Stopped <==> state_text(state) == "stopped"@,
        repeat is Off <==> repeat_text(repeat) == "off"@,
        repeat is Album <==> repeat_text(repeat) == "album"@,
        repeat is Queue <==> repeat_text(repeat) == "queue"@,
{
    reveal_strlit("track-started");
    reveal_strlit("track-finished");
    reveal_strlit("album-started");
    reveal_strlit("state-changed");
    reveal_strlit("queue-finished");
    reveal_strlit("player-error");
    assert("track-started"@[0] == 't' && "album-started"@[0] == 'a' && "state-changed"@[0] == 's'
        && "queue-finished"@[0] == 'q' && "player-error"@[0] == 'p');
    assert("track-started"@.len() == 13 && "track-finished"@.len() == 14 && "queue-finished"@.len()
        == 14);
    assert("track-finished"@[0] == 't');
    reveal_strlit("playing");
    reveal_strlit("paused");
    reveal_strlit("stopped");
    assert("playing"@.len() == 7 && "paused"@.len() == 6 && "stopped"@.len() == 7);
    assert("playing"@[0] == 'p' && "stopped"@[0] == 's');
    reveal_strlit("off");
    reveal_strlit("album");
    reveal_strlit("queue");
    assert("album"@[0] == 'a' && "queue"@[0] == 'q' && "off"@[0] == 'o');
}

/// The faster renderer is given up on Linux only, where nothing was set and nobody
/// asked to keep it.
pub proof fn settings_of_the_user_stand(linux: bool, already_set: bool, keep: Seq<char>)
    ensures
        !slow_path(false, already_set, Some(keep)) && !slow_path(false, already_set, None),
        !slow_path(linux, true, Some(keep)) && !slow_path(linux, true, None),
        slow_path(true, false, None),
        slow_path(true, false, Some(keep)) <==> keep != "1"@ && keep != "true"@,
{
}

/// A requested track is queued as it was asked for, to be streamed.
pub proof fn requested_tracks_are_streamed(t: TrackRequest)
    ensures
        queued_track(t).source == Source::Url(t.url),
        queued_track(t).id == t.id,
        queued_track(t).title == t.title,
        queued_track(t).disc_no == t.disc_no,
        queued_track(t).track_no == t.track_no,
        queued_track(t).duration_ms == t.duration_ms,
{
}

} // verus!
