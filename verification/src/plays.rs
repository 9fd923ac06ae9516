//! The play-history log.
//!
//! Listening is recorded as immutable events. A [`PlaySession`] tracks one
//! sitting with one album; individual tracks append play events as they finish,
//! and the session is settled when you move on. Nothing here increments a
//! counter that is not derived from an event, so any statistic can be recomputed
//! later from history alone.

use vstd::prelude::*;

use crate::error::Error;

verus! {

/// How much of a track counts as having heard it, in per cent.
pub const COMPLETION_PERCENT: i64 = 50;

/// How long a listen is always long enough: four minutes.
pub const COMPLETION_CAP_MS: i64 = 240_000;

/// How many of an album's tracks must complete for the sitting to count as a
/// full album play, in per cent. Slightly forgiving, so skipping the last hidden
/// track or a run-out groove does not disqualify an otherwise complete listen.
pub const ALBUM_COMPLETION_PERCENT: i64 = 75;

/// The time after which a track counts as played: half of it, or four minutes of
/// it, whichever comes first. Four minutes when the length is not known.
pub open spec fn completion_threshold(duration_ms: int) -> int {
    let share = duration_ms * COMPLETION_PERCENT / 100;
    if duration_ms > 0 && share < COMPLETION_CAP_MS {
        share
    } else {
        COMPLETION_CAP_MS as int
    }
}

/// A listen long enough to call the track played. Silence never is.
pub open spec fn counts_as_played(ms_played: int, duration_ms: int) -> bool {
    ms_played > 0 && ms_played >= completion_threshold(duration_ms)
}

/// Whether `ms_played` is enough to call a track of `duration_ms` played.
///
/// A track counts as played once you have heard half of it, or four minutes of
/// it, whichever comes first. This is the long-standing scrobbling convention
/// and it behaves sensibly for both 90-second interludes and 20-minute prog
/// epics.
pub fn is_completed(ms_played: i64, duration_ms: i64) -> (r: bool)
    ensures
        r == counts_as_played(ms_played as int, duration_ms as int),
{
    if ms_played <= 0 {
        return false;
    }
    let threshold: i64 = if duration_ms > 0 && duration_ms / 2 < COMPLETION_CAP_MS {
        duration_ms / 2
    } else {
        COMPLETION_CAP_MS
    };
    assert(duration_ms > 0 ==> duration_ms * COMPLETION_PERCENT / 100 == duration_ms as int / 2);
    ms_played >= threshold
}

/// An open listening session for one album.
#[derive(Debug, Clone, Copy, PartialEq, Eq, Structural)]
pub struct PlaySession {
    pub id: i64,
    pub album_id: i64,
}

/// How many tracks of an album must complete for a full album play: three
/// quarters of them, rounded up. An album without tracks is never played
/// through.
pub open spec fn tracks_needed(track_count: int) -> int {
    (track_count * ALBUM_COMPLETION_PERCENT + 99) / 100
}

/// A sitting that heard enough of the album.
pub open spec fn counts_as_album_play(completed: int, track_count: int) -> bool {
    track_count > 0 && completed >= tracks_needed(track_count)
}

/// Whether a session that completed so many tracks of an album of so many counts
/// as a full album play.
pub fn is_album_play(completed: i64, track_count: i64) -> (r: bool)
    ensures
        r == counts_as_album_play(completed as int, track_count as int),
{
    if track_count <= 0 {
        return false;
    }
    let needed: i64 = track_count - track_count / 4;
    assert(needed == tracks_needed(track_count as int));
    completed >= needed
}

/// A listen, as the log keeps it.
#[derive(Debug, Clone, Copy, PartialEq, Eq, Structural)]
pub struct PlayRecord {
    pub track_id: i64,
    pub album_id: i64,
    pub session_id: Option<i64>,
    pub started_at: i64,
    pub ms_played: i64,
    pub completed: bool,
}

/// The identifier of a session, where there is one.
pub open spec fn session_id(session: Option<PlaySession>) -> Option<i64> {
    match session {
        Some(s) => Some(s.id),
        None => None,
    }
}

impl PlayRecord {
    /// The session that the listen counts toward.
    pub open spec fn counted_for(self) -> Option<i64> {
        if self.completed {
            self.session_id
        } else {
            None
        }
    }

    /// The session whose tally of completed tracks this listen raises.
    pub fn counts_toward(&self) -> (r: Option<i64>)
        ensures
            r == self.counted_for(),
    {
        if self.completed {
            self.session_id
        } else {
            None
        }
    }
}

/// The listen that is recorded of a track, given its album and its length.
pub open spec fn recorded(
    session: Option<PlaySession>,
    track_id: i64,
    track: (i64, i64),
    started_at: i64,
    ms_played: i64,
) -> PlayRecord {
    PlayRecord {
        track_id,
        album_id: track.0,
        session_id: session_id(session),
        started_at,
        ms_played,
        completed: counts_as_played(ms_played as int, track.1 as int),
    }
}

/// The event for one track listen. `track` is the album and duration of the
/// track, when there is such a track; `ms_played` is actual audible time, so
/// pausing or seeking backwards should not inflate it.
pub fn record_play(
    session: Option<PlaySession>,
    track_id: i64,
    track: Option<(i64, i64)>,
    started_at: i64,
    ms_played: i64,
) -> (r: Result<PlayRecord, Error>)
    ensures
        match track {
            Some(track) => r == Ok::<PlayRecord, Error>(
                recorded(session, track_id, track, started_at, ms_played),
            ),
            None => r matches Err(Error::NotFound { kind, id }) && kind@ == "track"@ && id
                == track_id,
        },
{
    match track {
        Some((album_id, duration_ms)) => Ok(
            PlayRecord {
                track_id,
                album_id,
                session_id: match session {
                    Some(s) => Some(s.id),
                    None => None,
                },
                started_at,
                ms_played,
                completed: is_completed(ms_played, duration_ms),
            },
        ),
        None => Err(Error::NotFound { kind: "track", id: track_id }),
    }
}

/// Whether a session may be opened for an album, of which so many rows exist.
pub fn start_album_session(album_id: i64, rows: i64) -> (r: Result<(), Error>)
    ensures
        rows != 0 ==> r is Ok,
        rows == 0 ==> (r matches Err(Error::NotFound { kind, id }) && kind@ == "album"@ && id
            == album_id),
{
    if rows == 0 {
        Err(Error::NotFound { kind: "album", id: album_id })
    } else {
        Ok(())
    }
}

/// Hearing every track counts as an album play, hearing fewer than three
/// quarters of them never does, and a longer sitting never counts for less.
pub proof fn album_plays_are_near_complete_listens(completed: int, more: int, track_count: int)
    requires
        completed <= more,
    ensures
        track_count > 0 ==> counts_as_album_play(track_count, track_count),
        4 * completed < 3 * track_count ==> !counts_as_album_play(completed, track_count),
        counts_as_album_play(completed, track_count) ==> counts_as_album_play(more, track_count),
        0 < track_count && 3 * track_count <= 4 * completed ==> counts_as_album_play(
            completed,
            track_count,
        ),
{
}

/// A longer listen never counts for less, hearing a whole track of known length
/// counts, and four minutes of any track do.
pub proof fn longer_listens_count_for_no_less(ms: int, more: int, duration_ms: int)
    requires
        ms <= more,
    ensures
        counts_as_played(ms, duration_ms) ==> counts_as_played(more, duration_ms),
        duration_ms > 0 ==> counts_as_played(duration_ms, duration_ms),
        more >= COMPLETION_CAP_MS ==> counts_as_played(more, duration_ms),
{
}

/// A track of known length counts as played from half of it on, or from four
/// minutes of it, whichever comes first, and not before. A track of unknown length
/// counts from four minutes on. Nothing heard never counts.
pub proof fn half_a_track_or_four_minutes_count(ms: int, duration_ms: int)
    ensures
        ms <= 0 ==> !counts_as_played(ms, duration_ms),
        0 < ms && 0 < duration_ms && 2 * ms >= duration_ms ==> counts_as_played(ms, duration_ms),
        0 < ms && 4 * 60 * 1000 <= ms ==> counts_as_played(ms, duration_ms),
        0 < duration_ms && 2 * ms < duration_ms - 1 && ms < 4 * 60 * 1000 ==> !counts_as_played(
            ms,
            duration_ms,
        ),
        duration_ms <= 0 && ms < 4 * 60 * 1000 ==> !counts_as_played(ms, duration_ms),
{
}

/// Silent seconds aside, the length of a track matters only through its half: of
/// two tracks the longer never counts before the shorter.
pub proof fn longer_tracks_take_no_less(ms: int, short_ms: int, long_ms: int)
    requires
        0 < short_ms <= long_ms,
    ensures
        counts_as_played(ms, long_ms) ==> counts_as_played(ms, short_ms),
{
}

/// An album sitting counts exactly when at least three quarters of the tracks
/// completed, and never for an album without tracks.
pub proof fn three_quarters_of_an_album_count(completed: int, track_count: int)
    ensures
        counts_as_album_play(completed, track_count) <==> track_count > 0 && 4 * completed >= 3
            * track_count,
{
}

/// A listen is recorded as it was: of that track and its album, in the session
/// that is open, from when it began, and complete exactly if enough was heard. Only
/// a complete one counts toward its session.
pub proof fn listens_are_recorded_as_they_were(
    session: PlaySession,
    track_id: i64,
    album_id: i64,
    duration_ms: i64,
    started_at: i64,
    ms_played: i64,
)
    ensures
        ({
            let r = recorded(
                Some(session),
                track_id,
                (album_id, duration_ms),
                started_at,
                ms_played,
            );
            let loose = recorded(None, track_id, (album_id, duration_ms), started_at, ms_played);
            &&& r.track_id == track_id && r.album_id == album_id
            &&& r.started_at == started_at && r.ms_played == ms_played
            &&& r.session_id == Some(session.id)
            &&& r.completed == counts_as_played(ms_played as int, duration_ms as int)
            &&& r.completed ==> r.counted_for() == Some(session.id)
            &&& !r.completed ==> r.counted_for() is None
            &&& loose.session_id is None && loose.counted_for() is None
            &&& loose.completed == r.completed
        }),
{
}

} // verus!
