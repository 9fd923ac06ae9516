//! When a listen counts, and what is written down of it.

use albumplayer::error::Error;
use albumplayer::plays::{is_album_play, is_completed, record_play, start_album_session, PlayRecord, PlaySession};

/// An album of `n` tracks of the same length, and what was recorded of it.
struct Shelf {
    duration_ms: i64,
    tracks: Vec<i64>,
    events: Vec<PlayRecord>,
    sessions: i64,
    album_plays: i64,
}

impl Shelf {
    fn new(n: i64, duration_ms: i64) -> Shelf {
        Shelf { duration_ms, tracks: (1..=n).collect(), events: Vec::new(), sessions: 0, album_plays: 0 }
    }

    fn start(&mut self, album_id: i64) -> Result<PlaySession, Error> {
        start_album_session(album_id, if album_id == 1 { 1 } else { 0 })?;
        self.sessions += 1;
        Ok(PlaySession { id: self.sessions, album_id })
    }

    fn record(&mut self, session: Option<PlaySession>, track_id: i64, ms: i64) -> Result<bool, Error> {
        let row = if self.tracks.contains(&track_id) { Some((1, self.duration_ms)) } else { None };
        let record = record_play(session, track_id, row, 0, ms)?;
        self.events.push(record);
        Ok(record.completed)
    }

    fn end(&mut self, session: PlaySession) -> bool {
        let completed = self.events.iter().filter(|e| e.counts_toward() == Some(session.id)).count() as i64;
        let counted = is_album_play(completed, self.tracks.len() as i64);
        if counted {
            self.album_plays += 1;
        }
        counted
    }

    fn track_plays(&self) -> usize {
        self.events.iter().filter(|e| e.completed).count()
    }
}

#[test]
fn completion_uses_half_the_track() {
    assert!(!is_completed(40_000, 100_000));
    assert!(is_completed(50_000, 100_000));
}

#[test]
fn completion_caps_at_four_minutes_for_long_tracks() {
    let twenty_min = 20 * 60 * 1000;
    assert!(is_completed(4 * 60 * 1000, twenty_min));
    assert!(!is_completed(3 * 60 * 1000, twenty_min));
}

#[test]
fn zero_playtime_never_counts() {
    assert!(!is_completed(0, 100_000));
    assert!(!is_completed(-5, 100_000));
}

#[test]
fn half_of_an_odd_length_is_rounded_down() {
    assert!(!is_completed(49, 101));
    assert!(is_completed(50, 101));
}

#[test]
fn a_track_of_unknown_length_needs_four_minutes() {
    assert!(!is_completed(239_999, 0));
    assert!(is_completed(240_000, 0));
}

#[test]
fn a_full_listen_counts_as_an_album_play() {
    let mut lib = Shelf::new(10, 200_000);
    let session = lib.start(1).unwrap();
    for id in lib.tracks.clone() {
        assert!(lib.record(Some(session), id, 200_000).unwrap());
    }
    assert!(lib.end(session));
    assert_eq!(lib.album_plays, 1);
    assert_eq!(lib.track_plays(), 10);
}

#[test]
fn bailing_out_early_does_not_count_as_an_album_play() {
    let mut lib = Shelf::new(10, 200_000);
    let session = lib.start(1).unwrap();
    for id in lib.tracks.clone().into_iter().take(3) {
        lib.record(Some(session), id, 200_000).unwrap();
    }
    assert!(!lib.end(session));
    assert_eq!(lib.album_plays, 0);
    // The individual track listens are still recorded.
    assert_eq!(lib.track_plays(), 3);
}

#[test]
fn skipping_one_track_still_counts_the_album() {
    let mut lib = Shelf::new(10, 200_000);
    let session = lib.start(1).unwrap();
    for id in lib.tracks.clone().into_iter().take(9) {
        lib.record(Some(session), id, 200_000).unwrap();
    }
    assert!(lib.end(session));
}

#[test]
fn unknown_ids_are_rejected() {
    let mut lib = Shelf::new(0, 0);
    assert_eq!(lib.start(99), Err(Error::NotFound { kind: "album", id: 99 }));
    assert_eq!(lib.record(None, 99, 1000), Err(Error::NotFound { kind: "track", id: 99 }));
}

#[test]
fn three_quarters_of_an_album_is_enough() {
    assert!(is_album_play(3, 4));
    assert!(!is_album_play(2, 4));
    assert!(!is_album_play(7, 10));
    assert!(is_album_play(8, 10));
    assert!(!is_album_play(0, 0));
    // More listening never counts for less.
    for done in 0..10 {
        assert!(!is_album_play(done, 10) || is_album_play(done + 1, 10));
    }
}
