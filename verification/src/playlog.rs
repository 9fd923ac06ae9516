//! Bridge from playback events to the library's play history.
//!
//! The engine reports what happened; the library records it. Sessions follow
//! albums, which is the whole point: one session per sitting with a record, and
//! a play event per track heard within it.
//!
//! The logger says what to write, in order, and is told how each write went.
//! Losing history should be visible, but must never stop the music.

use vstd::prelude::*;

use crate::path;
use crate::player::PlayerEvent;
use crate::plays::PlaySession;
use crate::text::{append_text, chars_of, text_of};

verus! {

/// What is to be written to the play log.
#[derive(Debug, Clone, Copy, PartialEq, Eq)]
pub enum LogAction {
    /// Settle a session.
    End(PlaySession),
    /// Open a session for an album.
    Start(i64),
    /// Record one listen.
    Record { session: Option<PlaySession>, track_id: i64, started_at: i64, ms_played: i64 },
}

/// Turns [`PlayerEvent`]s into writes to the play log.
pub struct PlayLogger {
    session: Option<PlaySession>,
    /// When the track now playing started, so partial listens are timestamped
    /// from when they began rather than when they were abandoned.
    track_started_at: i64,
    /// Non-fatal logging failures, surfaced rather than silently swallowed.
    errors: Vec<String>,
}

/// What a [`PlayLogger`] holds.
#[verifier::ext_equal]
pub struct LoggerView {
    pub session: Option<PlaySession>,
    pub track_started_at: i64,
    pub errors: Seq<Seq<char>>,
}

impl View for PlayLogger {
    type V = LoggerView;

    closed spec fn view(&self) -> LoggerView {
        LoggerView {
            session: self.session,
            track_started_at: self.track_started_at,
            errors: path::texts(self.errors@),
        }
    }
}

/// The write that settles a session, where there is one.
pub open spec fn ending(session: Option<PlaySession>) -> Seq<LogAction> {
    match session {
        Some(s) => seq![LogAction::End(s)],
        None => Seq::empty(),
    }
}

impl LoggerView {
    /// The writes that an event asks for.
    pub open spec fn actions(self, event: PlayerEvent) -> Seq<LogAction> {
        match event {
            PlayerEvent::AlbumStarted { album_id, .. } => ending(self.session).push(
                LogAction::Start(album_id),
            ),
            PlayerEvent::TrackFinished { track_id, ms_played, .. } => seq![
                LogAction::Record {
                    session: self.session,
                    track_id,
                    started_at: self.track_started_at,
                    ms_played,
                },
            ],
            PlayerEvent::QueueFinished => ending(self.session),
            _ => Seq::empty(),
        }
    }

    /// The logger after an event that came at `now`.
    pub open spec fn after(self, event: PlayerEvent, now: i64) -> LoggerView {
        match event {
            PlayerEvent::AlbumStarted { .. } => LoggerView { session: None, ..self },
            PlayerEvent::TrackStarted { .. } => LoggerView { track_started_at: now, ..self },
            PlayerEvent::QueueFinished => LoggerView { session: None, ..self },
            _ => self,
        }
    }

    /// The logger with one more failure noted.
    pub open spec fn failed(self, what: Seq<char>, why: Seq<char>) -> LoggerView {
        LoggerView { errors: self.errors.push(what + why), ..self }
    }
}

impl PlayLogger {
    pub fn new(now: i64) -> (r: PlayLogger)
        ensures
            r@ == (LoggerView { session: None, track_started_at: now, errors: Seq::empty() }),
    {
        let r = PlayLogger { session: None, track_started_at: now, errors: Vec::new() };
        assert(r@.errors =~= Seq::empty());
        r
    }

    /// Feed one event in. Never fails: playback outranks bookkeeping.
    pub fn handle(&mut self, event: &PlayerEvent, now: i64) -> (r: Vec<LogAction>)
        ensures
            r@ == old(self)@.actions(*event),
            final(self)@ == old(self)@.after(*event, now),
    {
        let ghost start = self@;
        let mut out: Vec<LogAction> = Vec::new();
        match event {
            PlayerEvent::AlbumStarted { album_id, .. } => {
                if let Some(s) = self.close_session() {
                    out.push(LogAction::End(s));
                }
                out.push(LogAction::Start(*album_id));
            },
            PlayerEvent::TrackStarted { .. } => {
                self.track_started_at = now;
            },
            PlayerEvent::TrackFinished { track_id, ms_played, .. } => {
                // The library decides whether this counts as a listen; the
                // engine only reports how much was actually audible.
                out.push(
                    LogAction::Record {
                        session: self.session,
                        track_id: *track_id,
                        started_at: self.track_started_at,
                        ms_played: *ms_played,
                    },
                );
            },
            PlayerEvent::QueueFinished => {
                if let Some(s) = self.close_session() {
                    out.push(LogAction::End(s));
                }
            },
            _ => {},
        }
        assert(out@ =~= start.actions(*event));
        out
    }

    /// End the current sitting: the session to settle, if one is open. Also to be
    /// called on an abrupt exit, so that a session left open still gets settled.
    pub fn close_session(&mut self) -> (r: Option<PlaySession>)
        ensures
            r == old(self)@.session,
            final(self)@ == (LoggerView { session: None, ..old(self)@ }),
    {
        let s = self.session;
        self.session = None;
        s
    }

    fn note(&mut self, what: &str, why: &str)
        ensures
            final(self)@ == old(self)@.failed(what@, why@),
    {
        let mut text = chars_of(what);
        append_text(&mut text, why);
        let ghost before = self.errors@;
        let line = text_of(&text);
        self.errors.push(line);
        assert(path::texts(self.errors@) =~= path::texts(before).push(line@));
    }

    /// A session was opened, or could not be.
    pub fn session_started(&mut self, result: Result<PlaySession, String>)
        ensures
            match result {
                Ok(s) => final(self)@ == (LoggerView { session: Some(s), ..old(self)@ }),
                Err(e) => final(self)@ == old(self)@.failed("starting session: "@, e@),
            },
    {
        match result {
            Ok(s) => {
                self.session = Some(s);
            },
            Err(e) => self.note("starting session: ", &e),
        }
    }

    /// A listen was recorded, or could not be.
    pub fn play_recorded(&mut self, result: Result<bool, String>)
        ensures
            match result {
                Ok(_) => final(self)@ == old(self)@,
                Err(e) => final(self)@ == old(self)@.failed("recording play: "@, e@),
            },
    {
        match result {
            Ok(_) => {},
            Err(e) => self.note("recording play: ", &e),
        }
    }

    /// A session was settled, or could not be. Returns true if it counted as a
    /// full album play.
    pub fn session_ended(&mut self, result: Result<bool, String>) -> (r: bool)
        ensures
            match result {
                Ok(finished) => r == finished && final(self)@ == old(self)@,
                Err(e) => !r && final(self)@ == old(self)@.failed("ending session: "@, e@),
            },
    {
        match result {
            Ok(finished) => finished,
            Err(e) => {
                self.note("ending session: ", &e);
                false
            },
        }
    }

    /// Problems encountered while writing history, if any.
    pub fn errors(&self) -> (r: &Vec<String>)
        ensures
            path::texts(r@) == self@.errors,
    {
        &self.errors
    }
}

/// A session is open when a new one is asked for only if it is settled first:
/// sittings never overlap, and moving to another album settles the previous one.
pub proof fn sittings_never_overlap(l: LoggerView, event: PlayerEvent, now: i64, album_id: i64)
    requires
        l.actions(event).contains(LogAction::Start(album_id)),
    ensures
        l.session matches Some(s) ==> l.actions(event)[0] == LogAction::End(s),
        l.session is None ==> l.actions(event)[0] == LogAction::Start(album_id),
        l.after(event, now).session is None,
{
    let i = choose|i: int|
        0 <= i < l.actions(event).len() && l.actions(event)[i] == LogAction::Start(album_id);
}

} // verus!
