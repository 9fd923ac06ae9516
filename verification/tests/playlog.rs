//! From playback events to the play log.

use albumplayer::player::PlayerEvent;
use albumplayer::playlog::{LogAction, PlayLogger};
use albumplayer::plays::{is_album_play, record_play, start_album_session, PlayRecord, PlaySession};

/// A library holding one album of `n` tracks, and what was logged of it.
struct Library {
    tracks: Vec<i64>,
    events: Vec<PlayRecord>,
    sessions: i64,
    album_plays: i64,
}

impl Library {
    fn new(n: i64) -> Library {
        Library { tracks: (1..=n).collect(), events: Vec::new(), sessions: 0, album_plays: 0 }
    }

    fn end(&mut self, session: PlaySession) -> bool {
        let completed = self.events.iter().filter(|e| e.counts_toward() == Some(session.id)).count();
        let counted = is_album_play(completed as i64, self.tracks.len() as i64);
        if counted {
            self.album_plays += 1;
        }
        counted
    }

    fn track_plays(&self) -> usize {
        self.events.iter().filter(|e| e.completed).count()
    }

    /// Write down what an event asks for, and tell the logger how it went.
    fn feed(&mut self, logger: &mut PlayLogger, event: &PlayerEvent) {
        for action in logger.handle(event, 0) {
            match action {
                LogAction::End(session) => {
                    let counted = self.end(session);
                    logger.session_ended(Ok(counted));
                }
                LogAction::Start(album_id) => {
                    let result = start_album_session(album_id, if album_id == 1 { 1 } else { 0 });
                    self.sessions += 1;
                    let id = self.sessions;
                    logger.session_started(
                        result.map(|()| PlaySession { id, album_id }).map_err(|e| e.to_text()),
                    );
                }
                LogAction::Record { session, track_id, started_at, ms_played } => {
                    let row = if self.tracks.contains(&track_id) { Some((1, 200_000)) } else { None };
                    let result = record_play(session, track_id, row, started_at, ms_played);
                    if let Ok(record) = &result {
                        self.events.push(*record);
                    }
                    logger.play_recorded(result.map(|r| r.completed).map_err(|e| e.to_text()));
                }
            }
        }
    }
}

fn started(album_id: i64) -> PlayerEvent {
    PlayerEvent::AlbumStarted { album_id, title: "T".into() }
}

fn track_started(track_id: i64) -> PlayerEvent {
    PlayerEvent::TrackStarted { album_id: 1, track_id, title: "t".into() }
}

fn track_finished(track_id: i64, ms_played: i64) -> PlayerEvent {
    PlayerEvent::TrackFinished { album_id: 1, track_id, ms_played }
}

#[test]
fn a_full_listen_is_recorded_as_an_album_play() {
    let mut lib = Library::new(4);
    let mut logger = PlayLogger::new(0);

    lib.feed(&mut logger, &started(1));
    for id in lib.tracks.clone() {
        lib.feed(&mut logger, &track_started(id));
        lib.feed(&mut logger, &track_finished(id, 200_000));
    }
    lib.feed(&mut logger, &PlayerEvent::QueueFinished);

    assert_eq!(lib.album_plays, 1);
    assert_eq!(lib.track_plays(), 4);
    assert!(logger.errors().is_empty(), "{:?}", logger.errors());
}

#[test]
fn skipping_through_an_album_does_not_count_it() {
    let mut lib = Library::new(10);
    let mut logger = PlayLogger::new(0);

    lib.feed(&mut logger, &started(1));
    for id in lib.tracks.clone().into_iter().take(2) {
        lib.feed(&mut logger, &track_started(id));
        lib.feed(&mut logger, &track_finished(id, 200_000));
    }
    // Barely touched the rest.
    for id in lib.tracks.clone().into_iter().skip(2) {
        lib.feed(&mut logger, &track_started(id));
        lib.feed(&mut logger, &track_finished(id, 500));
    }
    lib.feed(&mut logger, &PlayerEvent::QueueFinished);

    assert_eq!(lib.album_plays, 0, "not a full listen");
    assert_eq!(lib.track_plays(), 2, "only the two that were really heard");
}

#[test]
fn moving_to_another_album_settles_the_previous_session() {
    let mut lib = Library::new(2);
    let mut logger = PlayLogger::new(0);

    lib.feed(&mut logger, &started(1));
    for id in lib.tracks.clone() {
        lib.feed(&mut logger, &track_started(id));
        lib.feed(&mut logger, &track_finished(id, 200_000));
    }
    // A second AlbumStarted arrives without an explicit end.
    lib.feed(&mut logger, &started(1));

    assert_eq!(lib.album_plays, 1, "the first sitting closed");
}

#[test]
fn an_abrupt_exit_still_settles_the_session() {
    let mut lib = Library::new(2);
    let mut logger = PlayLogger::new(0);
    lib.feed(&mut logger, &started(1));
    for id in lib.tracks.clone() {
        lib.feed(&mut logger, &track_started(id));
        lib.feed(&mut logger, &track_finished(id, 200_000));
    }
    // Closed without QueueFinished, as on Ctrl-C.
    let open = logger.close_session().expect("a session was open");
    lib.end(open);
    assert_eq!(lib.album_plays, 1);
    assert_eq!(logger.close_session(), None, "it is settled once");
}

#[test]
fn logging_failures_are_reported_but_never_fatal() {
    let mut lib = Library::new(1);
    let mut logger = PlayLogger::new(0);

    lib.feed(&mut logger, &started(999)); // no such album
    lib.feed(&mut logger, &track_finished(999, 1000)); // no such track

    assert_eq!(logger.errors().len(), 2, "{:?}", logger.errors());
    assert_eq!(lib.track_plays(), 0);
}

#[test]
fn listens_are_timed_from_when_they_began() {
    let mut logger = PlayLogger::new(5);
    assert!(logger.handle(&track_started(1), 70).is_empty());
    assert_eq!(
        logger.handle(&track_finished(1, 10), 90),
        vec![LogAction::Record { session: None, track_id: 1, started_at: 70, ms_played: 10 }]
    );
}
