//! The player's decisions, wrapped around the album queue.
//!
//! The audio pipeline runs outside. The engine is told what happened (a command
//! from the user, a message from the pipeline, a tick of the clock) and answers
//! with what to do about it, in order.
//!
//! # How gapless works
//!
//! The pipeline announces shortly *before* the current file runs out that it is
//! about to finish, while there is still audio buffered. Handing it the next
//! file then lets that file be prepared and spliced on with no silence between,
//! which is the whole point for an album whose tracks segue.
//!
//! The switch itself is announced later, when the new stream starts. That is the
//! moment the queue cursor advances and the finished track is reported, so the
//! two stay in step even though the file was handed over early.

use vstd::prelude::*;

use crate::model::{AlbumRow, Real, TrackRow};
use crate::path;
use crate::path::FilePath;
use crate::queue::{AlbumQueue, QueueView, QueuedAlbum, QueuedTrack, Repeat, Source};

verus! {

#[derive(Debug, Clone, Copy, PartialEq, Eq, Structural)]
pub enum PlayState {
    Stopped,
    Playing,
    Paused,
}

impl Default for PlayState {
    fn default() -> (r: Self)
        ensures
            r == PlayState::Stopped,
    {
        PlayState::Stopped
    }
}

/// Things the player tells the outside world.
#[derive(Debug, PartialEq)]
pub enum PlayerEvent {
    /// A new track actually started coming out of the speakers.
    TrackStarted { album_id: i64, track_id: i64, title: String },
    /// A track stopped, with how much of it was actually heard. This is what
    /// the play log records.
    TrackFinished { album_id: i64, track_id: i64, ms_played: i64 },
    /// Playback moved on to a different album.
    AlbumStarted { album_id: i64, title: String },
    StateChanged(PlayState),
    /// The queue ran out.
    QueueFinished,
    Error(String),
}

/// What the user can ask of the player.
pub enum Command {
    PlayAlbum(QueuedAlbum),
    Enqueue(QueuedAlbum),
    Play,
    Pause,
    TogglePause,
    Stop,
    NextTrack,
    PrevTrack,
    NextAlbum,
    PrevAlbum,
    /// Go to a position of the current track, in milliseconds.
    SeekTo(u64),
    SetShuffle(bool),
    SetRepeat(Repeat),
    SetVolume(Real),
    Clear,
}

/// What the pipeline reports.
pub enum Message {
    /// A new stream reached the speakers.
    StreamStart,
    /// The stream ended with nothing behind it.
    EndOfStream,
    /// A file could not be played.
    Failed(String),
}

/// The states the pipeline can be put in.
#[derive(Debug, Clone, Copy, PartialEq, Eq, Structural)]
pub enum Pipeline {
    Null,
    Ready,
    Paused,
    Playing,
}

/// What is to be done outside, in order.
#[derive(Debug, PartialEq)]
pub enum Effect {
    SetPipeline(Pipeline),
    /// Hand the pipeline the source of the track under the cursor.
    LoadCurrent,
    /// Set the pipeline's volume from the user's volume and this gain and peak.
    ApplyVolume { gain_db: Option<Real>, peak: Option<Real> },
    /// Take over the volume that the user asked for.
    UserVolume(Real),
    /// Seek within the current track, in milliseconds.
    Seek(u64),
    Emit(PlayerEvent),
}

/// The track the pipeline is currently rendering, and how much of it has been
/// audible. Kept apart from the queue cursor because the next file is handed
/// over ahead of the speakers.
#[derive(Debug, Clone, Copy, PartialEq, Eq, Structural)]
pub struct PlayingTrack {
    pub album_id: i64,
    pub track_id: i64,
    pub ms_played: i64,
}

/// A snapshot of what the player is doing.
#[derive(Debug, Clone)]
pub struct PlayerStatus {
    pub state: PlayState,
    pub album: Option<(i64, String, String)>,
    pub track: Option<(i64, String)>,
    pub position_ms: i64,
    pub duration_ms: i64,
    pub shuffle: bool,
    pub repeat: Repeat,
    pub queued_albums: usize,
}

impl Default for PlayerStatus {
    /// A stopped player with nothing queued.
    fn default() -> (r: Self)
        ensures
            r.state == PlayState::Stopped,
            r.album is None,
            r.track is None,
            r.position_ms == 0,
            r.duration_ms == 0,
            !r.shuffle,
            r.repeat == Repeat::Off,
            r.queued_albums == 0,
    {
        PlayerStatus {
            state: PlayState::Stopped,
            album: None,
            track: None,
            position_ms: 0,
            duration_ms: 0,
            shuffle: false,
            repeat: Repeat::Off,
            queued_albums: 0,
        }
    }
}

/// The player's state.
pub struct Engine {
    pub queue: AlbumQueue,
    pub state: PlayState,
    pub playing: Option<PlayingTrack>,
    /// The album that playback was last on. Kept apart from the queue cursor
    /// because shuffling can put another album under it.
    pub last_album: Option<i64>,
    /// Set when a file is handed over early, so the stream start that follows is
    /// known to be that splice rather than a seek or a deliberate jump.
    pub gapless: bool,
}

/// What an [`Engine`] holds.
#[verifier::ext_equal]
pub struct EngineView {
    pub queue: QueueView,
    pub state: PlayState,
    pub playing: Option<PlayingTrack>,
    pub last_album: Option<i64>,
    pub gapless: bool,
}

impl View for Engine {
    type V = EngineView;

    open spec fn view(&self) -> EngineView {
        EngineView {
            queue: self.queue@,
            state: self.state,
            playing: self.playing,
            last_album: self.last_album,
            gapless: self.gapless,
        }
    }
}

/// A step of the engine: the state after it and what is to be done.
pub struct Step {
    pub after: EngineView,
    pub effects: Seq<Effect>,
}

/// A step that follows another.
pub open spec fn followed(s: Step, next: Step) -> Step {
    Step { after: next.after, effects: s.effects + next.effects }
}

/// The effect that sets the volume for the current album. Album gain,
/// deliberately: track gain would even out the loud and quiet moments the record
/// was sequenced around.
pub open spec fn volume_effect(q: QueueView) -> Effect {
    match q.current_album() {
        Some(a) => Effect::ApplyVolume { gain_db: a.album_gain_db, peak: a.album_peak },
        None => Effect::ApplyVolume { gain_db: None, peak: None },
    }
}

impl EngineView {
    /// Whatever was playing is closed out, reporting how much of it was heard.
    pub open spec fn finish_current(self) -> Step {
        Step {
            after: EngineView { playing: None, ..self },
            effects: match self.playing {
                Some(p) => seq![
                    Effect::Emit(
                        PlayerEvent::TrackFinished {
                            album_id: p.album_id,
                            track_id: p.track_id,
                            ms_played: p.ms_played,
                        },
                    ),
                ],
                None => Seq::empty(),
            },
        }
    }

    /// The queue has run out.
    pub open spec fn finish_queue(self) -> Step {
        let s = self.finish_current();
        Step {
            after: EngineView { state: PlayState::Stopped, ..s.after },
            effects: s.effects.push(Effect::SetPipeline(Pipeline::Null)) + if self.state
                != PlayState::Stopped {
                seq![
                    Effect::Emit(PlayerEvent::QueueFinished),
                    Effect::Emit(PlayerEvent::StateChanged(PlayState::Stopped)),
                ]
            } else {
                Seq::empty()
            },
        }
    }

    /// Playback is stopped at once; the queue stays as it is.
    pub open spec fn halted(self) -> Step {
        let s = self.finish_current();
        Step {
            after: EngineView { state: PlayState::Stopped, ..s.after },
            effects: s.effects + seq![
                Effect::SetPipeline(Pipeline::Null),
                Effect::Emit(PlayerEvent::StateChanged(PlayState::Stopped)),
            ],
        }
    }

    /// The track under the cursor begins, and anything in flight is discarded. A
    /// deliberate jump is not a gapless splice; the stream start that follows
    /// must not advance the cursor a second time.
    pub open spec fn start_current(self, announce_album: bool) -> Step {
        let s = self.finish_current();
        match (self.queue.current_album(), self.queue.current_track()) {
            (Some(album), Some(track)) => Step {
                after: EngineView {
                    queue: self.queue,
                    state: PlayState::Playing,
                    playing: Some(
                        PlayingTrack { album_id: album.id, track_id: track.id, ms_played: 0 },
                    ),
                    last_album: Some(album.id),
                    gapless: false,
                },
                effects: s.effects + seq![
                    Effect::SetPipeline(Pipeline::Ready),
                    Effect::LoadCurrent,
                    volume_effect(self.queue),
                    Effect::SetPipeline(Pipeline::Playing),
                ] + if announce_album {
                    seq![
                        Effect::Emit(
                            PlayerEvent::AlbumStarted { album_id: album.id, title: album.title },
                        ),
                    ]
                } else {
                    Seq::empty()
                } + seq![
                    Effect::Emit(
                        PlayerEvent::TrackStarted {
                            album_id: album.id,
                            track_id: track.id,
                            title: track.title,
                        },
                    ),
                    Effect::Emit(PlayerEvent::StateChanged(PlayState::Playing)),
                ],
            },
            _ => followed(s, s.after.finish_queue()),
        }
    }

    /// The pipeline is put in a state; nothing happens while the queue is empty.
    pub open spec fn set_state(self, state: PlayState) -> Step {
        if self.queue.current_track() is None {
            Step { after: self, effects: Seq::empty() }
        } else {
            Step {
                after: EngineView { state, ..self },
                effects: seq![
                    Effect::SetPipeline(
                        match state {
                            PlayState::Playing => Pipeline::Playing,
                            PlayState::Paused => Pipeline::Paused,
                            PlayState::Stopped => Pipeline::Null,
                        },
                    ),
                    Effect::Emit(PlayerEvent::StateChanged(state)),
                ],
            }
        }
    }

    /// The queue is replaced; nothing else happens.
    pub open spec fn with_queue(self, queue: QueueView) -> EngineView {
        EngineView { queue, ..self }
    }

    /// What is playing belongs to the album that playback is on.
    pub open spec fn consistent(self) -> bool {
        self.playing matches Some(p) ==> self.last_album == Some(p.album_id)
    }

    /// The album that is playing, or else the one that playback was last on.
    pub open spec fn heard_album(self) -> Option<i64> {
        match self.playing {
            Some(p) => Some(p.album_id),
            None => self.last_album,
        }
    }

    /// Whether a place of the queue lies in another album than playback was on.
    pub open spec fn crosses(self, to: Option<crate::queue::Cursor>) -> bool {
        match self.queue.moved(to).current_album() {
            Some(a) => self.heard_album() != Some(a.id),
            None => false,
        }
    }

    /// A jump to another place of the queue; without one the queue is finished.
    pub open spec fn jump(self, to: Option<crate::queue::Cursor>, announce_album: bool) -> Step {
        if to is Some {
            self.with_queue(self.queue.moved(to)).start_current(announce_album)
        } else {
            self.finish_queue()
        }
    }

    /// A jump back; without a place to go to nothing happens.
    pub open spec fn jump_back(
        self,
        to: Option<crate::queue::Cursor>,
        announce_album: bool,
    ) -> Step {
        if to is Some {
            self.with_queue(self.queue.moved(to)).start_current(announce_album)
        } else {
            Step { after: self, effects: Seq::empty() }
        }
    }

    /// What a command does.
    pub open spec fn commanded(self, command: Command) -> Step {
        match command {
            Command::PlayAlbum(album) => self.with_queue(
                self.queue.cleared().enqueued(album),
            ).start_current(true),
            Command::Enqueue(album) => {
                let e = self.with_queue(self.queue.enqueued(album));
                if self.queue.order.len() == 0 {
                    e.start_current(true)
                } else {
                    Step { after: e, effects: Seq::empty() }
                }
            },
            Command::Play => self.set_state(PlayState::Playing),
            Command::Pause => self.set_state(PlayState::Paused),
            Command::TogglePause => self.set_state(
                if self.state == PlayState::Playing {
                    PlayState::Paused
                } else {
                    PlayState::Playing
                },
            ),
            Command::Stop => self.halted(),
            Command::NextTrack => self.jump(
                self.queue.skip_cursor(),
                self.crosses(self.queue.skip_cursor()),
            ),
            Command::PrevTrack => self.jump_back(
                self.queue.back_cursor(),
                self.crosses(self.queue.back_cursor()),
            ),
            Command::NextAlbum => self.jump(self.queue.next_album_cursor(), true),
            Command::PrevAlbum => self.jump_back(self.queue.prev_album_cursor(), true),
            Command::SeekTo(ms) => Step { after: self, effects: seq![Effect::Seek(ms)] },
            Command::SetShuffle(on) => Step {
                after: self.with_queue(self.queue.shuffled(on)),
                effects: Seq::empty(),
            },
            Command::SetRepeat(repeat) => Step {
                after: self.with_queue(QueueView { repeat, ..self.queue }),
                effects: Seq::empty(),
            },
            Command::SetVolume(volume) => Step {
                after: self,
                effects: seq![Effect::UserVolume(volume), volume_effect(self.queue)],
            },
            Command::Clear => {
                let s = self.halted();
                Step { after: s.after.with_queue(self.queue.cleared()), effects: s.effects }
            },
        }
    }

    /// The gapless splice reached the speakers: the cursor moves now, not when
    /// the file was handed over.
    pub open spec fn spliced(self) -> Step {
        let e = EngineView { gapless: false, ..self };
        let s = e.finish_current();
        if self.queue.next_cursor() is None {
            followed(s, s.after.finish_queue())
        } else {
            let q = self.queue.moved(self.queue.next_cursor());
            let album = q.current_album().unwrap();
            let track = q.current_track().unwrap();
            let same_album = self.playing is Some && self.playing.unwrap().album_id == album.id;
            Step {
                after: EngineView {
                    queue: q,
                    state: self.state,
                    playing: Some(
                        PlayingTrack { album_id: album.id, track_id: track.id, ms_played: 0 },
                    ),
                    last_album: Some(album.id),
                    gapless: false,
                },
                effects: s.effects + if same_album {
                    Seq::empty()
                } else {
                    seq![
                        volume_effect(q),
                        Effect::Emit(
                            PlayerEvent::AlbumStarted { album_id: album.id, title: album.title },
                        ),
                    ]
                } + seq![
                    Effect::Emit(
                        PlayerEvent::TrackStarted {
                            album_id: album.id,
                            track_id: track.id,
                            title: track.title,
                        },
                    ),
                ],
            }
        }
    }

    /// What a message from the pipeline does. One unreadable file does not end
    /// the listening session.
    pub open spec fn messaged(self, message: Message) -> Step {
        match message {
            Message::StreamStart => if self.gapless {
                self.spliced()
            } else {
                Step { after: self, effects: Seq::empty() }
            },
            Message::EndOfStream => self.finish_queue(),
            Message::Failed(text) => {
                let s = self.jump(
                    self.queue.skip_cursor(),
                    self.crosses(self.queue.skip_cursor()),
                );
                Step {
                    after: s.after,
                    effects: seq![Effect::Emit(PlayerEvent::Error(text))] + s.effects,
                }
            },
        }
    }

    /// The position clock moved. Only audible time counts, so pausing does not
    /// inflate the play log.
    pub open spec fn ticked(self, position_ms: i64) -> EngineView {
        match self.playing {
            Some(p) if self.state == PlayState::Playing && position_ms > p.ms_played => EngineView {
                playing: Some(PlayingTrack { ms_played: position_ms, ..p }),
                ..self
            },
            _ => self,
        }
    }
}

impl Engine {
    /// A stopped player with an empty queue.
    pub fn new(queue: AlbumQueue) -> (r: Engine)
        ensures
            r@ == (EngineView {
                queue: queue@,
                state: PlayState::Stopped,
                playing: None,
                last_album: None,
                gapless: false,
            }),
    {
        Engine { queue, state: PlayState::Stopped, playing: None, last_album: None, gapless: false }
    }

    /// Close out whatever was playing, reporting how much of it was heard.
    fn finish_current(&mut self) -> (fx: Vec<Effect>)
        ensures
            final(self)@ == old(self)@.finish_current().after,
            fx@ == old(self)@.finish_current().effects,
    {
        let mut fx: Vec<Effect> = Vec::new();
        if let Some(p) = self.playing {
            fx.push(
                Effect::Emit(
                    PlayerEvent::TrackFinished {
                        album_id: p.album_id,
                        track_id: p.track_id,
                        ms_played: p.ms_played,
                    },
                ),
            );
        }
        self.playing = None;
        fx
    }

    fn finish_queue(&mut self) -> (fx: Vec<Effect>)
        ensures
            final(self)@ == old(self)@.finish_queue().after,
            fx@ == old(self)@.finish_queue().effects,
    {
        let mut fx = self.finish_current();
        fx.push(Effect::SetPipeline(Pipeline::Null));
        if self.state != PlayState::Stopped {
            self.state = PlayState::Stopped;
            fx.push(Effect::Emit(PlayerEvent::QueueFinished));
            fx.push(Effect::Emit(PlayerEvent::StateChanged(PlayState::Stopped)));
        }
        fx
    }

    fn halt(&mut self) -> (fx: Vec<Effect>)
        ensures
            final(self)@ == old(self)@.halted().after,
            fx@ == old(self)@.halted().effects,
    {
        let mut fx = self.finish_current();
        fx.push(Effect::SetPipeline(Pipeline::Null));
        self.state = PlayState::Stopped;
        fx.push(Effect::Emit(PlayerEvent::StateChanged(PlayState::Stopped)));
        fx
    }

    fn volume(&self) -> (r: Effect)
        requires
            self@.queue.well_formed(),
        ensures
            r == volume_effect(self@.queue),
    {
        match self.queue.current_album() {
            Some(a) => Effect::ApplyVolume { gain_db: a.album_gain_db, peak: a.album_peak },
            None => Effect::ApplyVolume { gain_db: None, peak: None },
        }
    }

    /// Begin the track the cursor has moved to, announcing its album when playback
    /// was on another.
    fn start_moved(&mut self) -> (fx: Vec<Effect>)
        requires
            old(self)@.queue.well_formed(),
        ensures
            ({
                let crossed = match old(self)@.queue.current_album() {
                    Some(a) => old(self)@.heard_album() != Some(a.id),
                    None => false,
                };
                &&& final(self)@ == old(self)@.start_current(crossed).after
                &&& fx@ == old(self)@.start_current(crossed).effects
                &&& final(self)@.queue == old(self)@.queue
            }),
    {
        let heard = match self.playing {
            Some(p) => Some(p.album_id),
            None => self.last_album,
        };
        let crossed = match self.queue.current_album() {
            Some(a) => match heard {
                Some(id) => id != a.id,
                None => true,
            },
            None => false,
        };
        self.start_current(crossed)
    }

    /// Begin the track the cursor points at, discarding anything in flight.
    fn start_current(&mut self, announce_album: bool) -> (fx: Vec<Effect>)
        requires
            old(self)@.queue.well_formed(),
        ensures
            final(self)@ == old(self)@.start_current(announce_album).after,
            fx@ == old(self)@.start_current(announce_album).effects,
            final(self)@.queue == old(self)@.queue,
    {
        let ghost start = self@;
        let mut fx = self.finish_current();
        let ids = match (self.queue.current_album(), self.queue.current_track()) {
            (Some(a), Some(t)) => Some((a.id, a.title.clone(), t.id, t.title.clone())),
            _ => None,
        };
        match ids {
            Some((album_id, album_title, track_id, track_title)) => {
                self.gapless = false;
                fx.push(Effect::SetPipeline(Pipeline::Ready));
                fx.push(Effect::LoadCurrent);
                fx.push(self.volume());
                fx.push(Effect::SetPipeline(Pipeline::Playing));
                self.state = PlayState::Playing;
                self.playing = Some(PlayingTrack { album_id, track_id, ms_played: 0 });
                self.last_album = Some(album_id);
                if announce_album {
                    fx.push(
                        Effect::Emit(PlayerEvent::AlbumStarted { album_id, title: album_title }),
                    );
                }
                fx.push(
                    Effect::Emit(
                        PlayerEvent::TrackStarted { album_id, track_id, title: track_title },
                    ),
                );
                fx.push(Effect::Emit(PlayerEvent::StateChanged(PlayState::Playing)));
                assert(fx@ =~= start.start_current(announce_album).effects);
            },
            None => {
                let mut more = self.finish_queue();
                fx.append(&mut more);
            },
        }
        fx
    }

    fn set_state(&mut self, state: PlayState) -> (fx: Vec<Effect>)
        requires
            old(self)@.queue.well_formed(),
        ensures
            final(self)@ == old(self)@.set_state(state).after,
            fx@ == old(self)@.set_state(state).effects,
    {
        let ghost start = self@;
        let mut fx: Vec<Effect> = Vec::new();
        if self.queue.current_track().is_none() {
            return fx;
        }
        fx.push(
            Effect::SetPipeline(
                match state {
                    PlayState::Playing => Pipeline::Playing,
                    PlayState::Paused => Pipeline::Paused,
                    PlayState::Stopped => Pipeline::Null,
                },
            ),
        );
        self.state = state;
        fx.push(Effect::Emit(PlayerEvent::StateChanged(state)));
        assert(fx@ =~= start.set_state(state).effects);
        fx
    }

    /// Act on a command.
    pub fn handle_command(&mut self, command: Command) -> (fx: Vec<Effect>)
        requires
            old(self)@.queue.well_formed(),
            old(self)@.queue.albums.len() < usize::MAX,
        ensures
            final(self)@ == old(self)@.commanded(command).after,
            fx@ == old(self)@.commanded(command).effects,
            final(self)@.queue.well_formed(),
    {
        let ghost start = self@;
        match command {
            Command::PlayAlbum(album) => {
                self.queue.play_album(album);
                self.start_current(true)
            },
            Command::Enqueue(album) => {
                let was_empty = self.queue.is_empty();
                self.queue.enqueue(album);
                if was_empty {
                    self.start_current(true)
                } else {
                    Vec::new()
                }
            },
            Command::Play => self.set_state(PlayState::Playing),
            Command::Pause => self.set_state(PlayState::Paused),
            Command::TogglePause => {
                let next = match self.state {
                    PlayState::Playing => PlayState::Paused,
                    _ => PlayState::Playing,
                };
                self.set_state(next)
            },
            Command::Stop => self.halt(),
            Command::NextTrack => {
                if self.queue.next_track() {
                    self.start_moved()
                } else {
                    self.finish_queue()
                }
            },
            Command::PrevTrack => {
                if self.queue.prev_track() {
                    self.start_moved()
                } else {
                    Vec::new()
                }
            },
            Command::NextAlbum => {
                if self.queue.next_album() {
                    self.start_current(true)
                } else {
                    self.finish_queue()
                }
            },
            Command::PrevAlbum => {
                if self.queue.prev_album() {
                    self.start_current(true)
                } else {
                    Vec::new()
                }
            },
            Command::SeekTo(ms) => {
                let fx: Vec<Effect> = vec![Effect::Seek(ms)];
                assert(fx@ =~= seq![Effect::Seek(ms)]);
                fx
            },
            Command::SetShuffle(on) => {
                self.queue.set_shuffle(on);
                Vec::new()
            },
            Command::SetRepeat(repeat) => {
                self.queue.set_repeat(repeat);
                Vec::new()
            },
            Command::SetVolume(volume) => {
                let fx: Vec<Effect> = vec![Effect::UserVolume(volume), self.volume()];
                assert(fx@ =~= start.commanded(command).effects);
                fx
            },
            Command::Clear => {
                let fx = self.halt();
                self.queue.clear();
                fx
            },
        }
    }

    fn splice(&mut self) -> (fx: Vec<Effect>)
        requires
            old(self)@.queue.well_formed(),
        ensures
            final(self)@ == old(self)@.spliced().after,
            fx@ == old(self)@.spliced().effects,
            final(self)@.queue.well_formed(),
    {
        let ghost start = self@;
        self.gapless = false;
        let previous_album: Option<i64> = match self.playing {
            Some(p) => Some(p.album_id),
            None => None,
        };
        let mut fx = self.finish_current();
        if !self.queue.advance() {
            let mut more = self.finish_queue();
            fx.append(&mut more);
            return fx;
        }
        let ids = match (self.queue.current_album(), self.queue.current_track()) {
            (Some(a), Some(t)) => Some((a.id, a.title.clone(), t.id, t.title.clone())),
            _ => None,
        };
        if let Some((album_id, album_title, track_id, track_title)) = ids {
            let same_album = match previous_album {
                Some(id) => id == album_id,
                None => false,
            };
            if !same_album {
                fx.push(self.volume());
                fx.push(Effect::Emit(PlayerEvent::AlbumStarted { album_id, title: album_title }));
            }
            self.playing = Some(PlayingTrack { album_id, track_id, ms_played: 0 });
            self.last_album = Some(album_id);
            fx.push(
                Effect::Emit(PlayerEvent::TrackStarted { album_id, track_id, title: track_title }),
            );
        }
        assert(fx@ =~= start.spliced().effects);
        fx
    }

    /// Act on a message from the pipeline.
    pub fn handle_message(&mut self, message: Message) -> (fx: Vec<Effect>)
        requires
            old(self)@.queue.well_formed(),
        ensures
            final(self)@ == old(self)@.messaged(message).after,
            fx@ == old(self)@.messaged(message).effects,
            final(self)@.queue.well_formed(),
    {
        match message {
            Message::StreamStart => {
                if self.gapless {
                    self.splice()
                } else {
                    Vec::new()
                }
            },
            Message::EndOfStream => self.finish_queue(),
            Message::Failed(text) => {
                let mut fx: Vec<Effect> = vec![Effect::Emit(PlayerEvent::Error(text))];
                assert(fx@ =~= seq![Effect::Emit(PlayerEvent::Error(text))]);
                let mut more = if self.queue.next_track() {
                    self.start_moved()
                } else {
                    self.finish_queue()
                };
                fx.append(&mut more);
                fx
            },
        }
    }

    /// The track to hand to the pipeline before the current one ends. Only the
    /// natural successor: a user skip loads its file itself.
    pub fn next_up(&self) -> (r: Option<&QueuedTrack>)
        requires
            self@.queue.well_formed(),
        ensures
            match r {
                Some(t) => self@.queue.next_cursor() is Some && self@.queue.moved(
                    self@.queue.next_cursor(),
                ).current_track() == Some(*t),
                None => self@.queue.next_cursor() is None,
            },
    {
        self.queue.peek_next()
    }

    /// Note that the next file has been handed over.
    pub fn handed_over(&mut self)
        ensures
            final(self)@ == (EngineView { gapless: true, ..old(self)@ }),
    {
        self.gapless = true;
    }

    /// Refresh the position clock, and the snapshot to publish.
    pub fn tick(&mut self, position_ms: i64, duration_ms: i64) -> (r: PlayerStatus)
        requires
            old(self)@.queue.well_formed(),
        ensures
            final(self)@ == old(self)@.ticked(position_ms),
            r.state == old(self)@.state,
            r.position_ms == position_ms,
            r.duration_ms == duration_ms,
            r.shuffle == old(self)@.queue.shuffle,
            r.repeat == old(self)@.queue.repeat,
            r.queued_albums == old(self)@.queue.order.len(),
            match old(self)@.queue.current_album() {
                Some(a) => r.album == Some((a.id, a.title, a.artist)),
                None => r.album is None,
            },
            match old(self)@.queue.current_track() {
                Some(t) => r.track == Some((t.id, t.title)),
                None => r.track is None,
            },
    {
        if self.state == PlayState::Playing {
            if let Some(p) = self.playing {
                if position_ms > p.ms_played {
                    self.playing = Some(
                        PlayingTrack {
                            album_id: p.album_id,
                            track_id: p.track_id,
                            ms_played: position_ms,
                        },
                    );
                }
            }
        }
        PlayerStatus {
            state: self.state,
            album: match self.queue.current_album() {
                Some(a) => Some((a.id, a.title.clone(), a.artist.clone())),
                None => None,
            },
            track: match self.queue.current_track() {
                Some(t) => Some((t.id, t.title.clone())),
                None => None,
            },
            position_ms,
            duration_ms,
            shuffle: self.queue.shuffle_enabled(),
            repeat: self.queue.repeat(),
            queued_albums: self.queue.album_count(),
        }
    }
}

/// Build a queue album out of library rows.
pub fn album_from_library(
    album: &AlbumRow,
    tracks: &[TrackRow],
    gain: Option<Real>,
    peak: Option<Real>,
) -> (r: QueuedAlbum)
    ensures
        r.id == album.id,
        r.title == album.title,
        r.artist == album.album_artist,
        r.album_gain_db == gain,
        r.album_peak == peak,
        r.tracks@.len() == tracks@.len(),
        forall|i: int|
            0 <= i < tracks@.len() ==> {
                let t = #[trigger] r.tracks@[i];
                &&& t.id == tracks@[i].id
                &&& t.source matches Source::File(p) && p@ == path::path_of(tracks@[i].path@)
                &&& t.title == tracks@[i].title
                &&& t.disc_no == tracks@[i].disc_no
                &&& t.track_no == tracks@[i].track_no
                &&& t.duration_ms == tracks@[i].duration_ms
            },
{
    let mut out: Vec<QueuedTrack> = Vec::new();
    for i in 0..tracks.len()
        invariant
            out@.len() == i,
            forall|k: int|
                0 <= k < i ==> {
                    let t = #[trigger] out@[k];
                    &&& t.id == tracks@[k].id
                    &&& t.source matches Source::File(p) && p@ == path::path_of(tracks@[k].path@)
                    &&& t.title == tracks@[k].title
                    &&& t.disc_no == tracks@[k].disc_no
                    &&& t.track_no == tracks@[k].track_no
                    &&& t.duration_ms == tracks@[k].duration_ms
                },
    {
        let t = &tracks[i];
        out.push(
            QueuedTrack {
                id: t.id,
                source: Source::File(FilePath::parse(&t.path)),
                title: t.title.clone(),
                disc_no: t.disc_no,
                track_no: t.track_no,
                duration_ms: t.duration_ms,
            },
        );
    }
    QueuedAlbum {
        id: album.id,
        title: album.title.clone(),
        artist: album.album_artist.clone(),
        album_gain_db: gain,
        album_peak: peak,
        tracks: out,
    }
}

/// The album and track that a listener to the events takes to be playing.
pub open spec fn open_track(playing: Option<PlayingTrack>) -> Option<(i64, i64)> {
    match playing {
        Some(p) => Some((p.album_id, p.track_id)),
        None => None,
    }
}

/// Whether one effect fits what is playing: a track only starts when none is
/// playing, and only the one that is playing finishes.
pub open spec fn fits(open: Option<(i64, i64)>, effect: Effect) -> bool {
    match effect {
        Effect::Emit(PlayerEvent::TrackStarted { .. }) => open is None,
        Effect::Emit(PlayerEvent::TrackFinished { album_id, track_id, .. }) => open == Some(
            (album_id, track_id),
        ),
        _ => true,
    }
}

/// What is playing after one effect.
pub open spec fn heard(open: Option<(i64, i64)>, effect: Effect) -> Option<(i64, i64)> {
    match effect {
        Effect::Emit(PlayerEvent::TrackStarted { album_id, track_id, .. }) => Some(
            (album_id, track_id),
        ),
        Effect::Emit(PlayerEvent::TrackFinished { .. }) => None,
        _ => open,
    }
}

/// What is playing after a list of effects.
pub open spec fn heard_all(open: Option<(i64, i64)>, effects: Seq<Effect>) -> Option<(i64, i64)>
    decreases effects.len(),
{
    if effects.len() == 0 {
        open
    } else {
        heard(heard_all(open, effects.drop_last()), effects.last())
    }
}

/// Whether every effect of a list fits what is playing when it comes.
pub open spec fn all_fit(open: Option<(i64, i64)>, effects: Seq<Effect>) -> bool
    decreases effects.len(),
{
    effects.len() == 0 || (all_fit(open, effects.drop_last()) && fits(
        heard_all(open, effects.drop_last()),
        effects.last(),
    ))
}

proof fn lemma_heard_concat(open: Option<(i64, i64)>, a: Seq<Effect>, b: Seq<Effect>)
    ensures
        heard_all(open, a + b) == heard_all(heard_all(open, a), b),
        all_fit(open, a + b) == (all_fit(open, a) && all_fit(heard_all(open, a), b)),
    decreases b.len(),
{
    if b.len() == 0 {
        assert(a + b =~= a);
    } else {
        lemma_heard_concat(open, a, b.drop_last());
        assert((a + b).drop_last() =~= a + b.drop_last());
    }
}

proof fn lemma_heard_one(open: Option<(i64, i64)>, e: Effect)
    ensures
        heard_all(open, seq![e]) == heard(open, e),
        all_fit(open, seq![e]) == fits(open, e),
        heard_all(open, Seq::empty()) == open,
        all_fit(open, Seq::empty()),
{
    let none = Seq::<Effect>::empty();
    assert(seq![e].drop_last() =~= none);
    assert(all_fit(open, none));
    assert(heard_all(open, none) == open);
}

/// Effects that neither start nor finish a track.
pub open spec fn silent(effects: Seq<Effect>) -> bool {
    forall|i: int|
        0 <= i < effects.len() ==> match #[trigger] effects[i] {
            Effect::Emit(PlayerEvent::TrackStarted { .. }) => false,
            Effect::Emit(PlayerEvent::TrackFinished { .. }) => false,
            _ => true,
        }
}

proof fn lemma_silent(open: Option<(i64, i64)>, effects: Seq<Effect>)
    requires
        silent(effects),
    ensures
        heard_all(open, effects) == open,
        all_fit(open, effects),
    decreases effects.len(),
{
    if effects.len() > 0 {
        assert forall|i: int| 0 <= i < effects.drop_last().len() implies match #[trigger] effects.drop_last()[i] {
            Effect::Emit(PlayerEvent::TrackStarted { .. }) => false,
            Effect::Emit(PlayerEvent::TrackFinished { .. }) => false,
            _ => true,
        } by {
            assert(effects[i] == effects.drop_last()[i]);
        }
        lemma_silent(open, effects.drop_last());
        assert(effects[effects.len() - 1] == effects.last());
    }
}

/// Whether a step reports truly what is playing before and after it.
pub open spec fn reports(e: EngineView, s: Step) -> bool {
    &&& all_fit(open_track(e.playing), s.effects)
    &&& heard_all(open_track(e.playing), s.effects) == open_track(s.after.playing)
}

proof fn lemma_finish_current(e: EngineView)
    ensures
        reports(e, e.finish_current()),
{
    if let Some(p) = e.playing {
        lemma_heard_one(
            open_track(e.playing),
            Effect::Emit(
                PlayerEvent::TrackFinished {
                    album_id: p.album_id,
                    track_id: p.track_id,
                    ms_played: p.ms_played,
                },
            ),
        );
    }
}

proof fn lemma_finish_then(e: EngineView, quiet: Seq<Effect>)
    requires
        silent(quiet),
    ensures
        all_fit(open_track(e.playing), e.finish_current().effects + quiet),
        heard_all(open_track(e.playing), e.finish_current().effects + quiet) is None,
{
    let fx = e.finish_current().effects;
    lemma_finish_current(e);
    lemma_heard_concat(open_track(e.playing), fx, quiet);
    lemma_silent(None, quiet);
}

proof fn lemma_finish_queue(e: EngineView)
    ensures
        reports(e, e.finish_queue()),
{
    let quiet = seq![Effect::SetPipeline(Pipeline::Null)] + if e.state != PlayState::Stopped {
        seq![
            Effect::Emit(PlayerEvent::QueueFinished),
            Effect::Emit(PlayerEvent::StateChanged(PlayState::Stopped)),
        ]
    } else {
        Seq::empty()
    };
    lemma_finish_then(e, quiet);
    assert(e.finish_queue().effects =~= e.finish_current().effects + quiet);
}

proof fn lemma_halted(e: EngineView)
    ensures
        reports(e, e.halted()),
{
    let quiet = seq![
        Effect::SetPipeline(Pipeline::Null),
        Effect::Emit(PlayerEvent::StateChanged(PlayState::Stopped)),
    ];
    lemma_finish_then(e, quiet);
}

proof fn lemma_started(
    open: Option<(i64, i64)>,
    before: Seq<Effect>,
    album_id: i64,
    track_id: i64,
    title: String,
    quiet: Seq<Effect>,
)
    requires
        all_fit(open, before),
        heard_all(open, before) is None,
        silent(quiet),
    ensures
        ({
            let start = seq![
                Effect::Emit(PlayerEvent::TrackStarted { album_id, track_id, title }),
            ];
            &&& all_fit(open, before + start + quiet)
            &&& heard_all(open, before + start + quiet) == Some((album_id, track_id))
        }),
{
    let e = Effect::Emit(PlayerEvent::TrackStarted { album_id, track_id, title });
    lemma_heard_one(None, e);
    lemma_heard_concat(open, before, seq![e]);
    lemma_heard_concat(open, before + seq![e], quiet);
    lemma_silent(Some((album_id, track_id)), quiet);
}

proof fn lemma_start_current(e: EngineView, announce_album: bool)
    ensures
        reports(e, e.start_current(announce_album)),
{
    let s = e.finish_current();
    match (e.queue.current_album(), e.queue.current_track()) {
        (Some(album), Some(track)) => {
            let quiet = seq![
                Effect::SetPipeline(Pipeline::Ready),
                Effect::LoadCurrent,
                volume_effect(e.queue),
                Effect::SetPipeline(Pipeline::Playing),
            ] + if announce_album {
                seq![
                    Effect::Emit(
                        PlayerEvent::AlbumStarted { album_id: album.id, title: album.title },
                    ),
                ]
            } else {
                Seq::empty()
            };
            lemma_finish_then(e, quiet);
            let after = seq![Effect::Emit(PlayerEvent::StateChanged(PlayState::Playing))];
            lemma_started(
                open_track(e.playing),
                s.effects + quiet,
                album.id,
                track.id,
                track.title,
                after,
            );
            let start = seq![
                Effect::Emit(
                    PlayerEvent::TrackStarted {
                        album_id: album.id,
                        track_id: track.id,
                        title: track.title,
                    },
                ),
            ];
            assert(e.start_current(announce_album).effects =~= s.effects + quiet + start + after);
        },
        _ => {
            lemma_finish_current(e);
            lemma_finish_queue(s.after);
            lemma_heard_concat(
                open_track(e.playing),
                s.effects,
                s.after.finish_queue().effects,
            );
        },
    }
}

proof fn lemma_spliced(e: EngineView)
    ensures
        reports(e, e.spliced()),
{
    let g = EngineView { gapless: false, ..e };
    let s = g.finish_current();
    if e.queue.next_cursor() is None {
        lemma_finish_current(g);
        lemma_finish_queue(s.after);
        lemma_heard_concat(open_track(e.playing), s.effects, s.after.finish_queue().effects);
    } else {
        let q = e.queue.moved(e.queue.next_cursor());
        let album = q.current_album().unwrap();
        let track = q.current_track().unwrap();
        let same_album = e.playing is Some && e.playing.unwrap().album_id == album.id;
        let quiet = if same_album {
            Seq::empty()
        } else {
            seq![
                volume_effect(q),
                Effect::Emit(PlayerEvent::AlbumStarted { album_id: album.id, title: album.title }),
            ]
        };
        lemma_finish_then(g, quiet);
        lemma_started(
            open_track(e.playing),
            s.effects + quiet,
            album.id,
            track.id,
            track.title,
            Seq::empty(),
        );
        let start = seq![
            Effect::Emit(
                PlayerEvent::TrackStarted {
                    album_id: album.id,
                    track_id: track.id,
                    title: track.title,
                },
            ),
        ];
        assert(e.spliced().effects =~= s.effects + quiet + start + Seq::empty());
    }
}

/// Whatever the user commands, the events pair up: every track that starts is
/// reported finished exactly once, before the next one starts.
pub proof fn commands_report_truly(e: EngineView, command: Command)
    ensures
        reports(e, e.commanded(command)),
{
    lemma_finish_queue(e);
    lemma_halted(e);
    match command {
        Command::PlayAlbum(album) => {
            lemma_start_current(e.with_queue(e.queue.cleared().enqueued(album)), true);
        },
        Command::Enqueue(album) => {
            lemma_start_current(e.with_queue(e.queue.enqueued(album)), true);
        },
        Command::NextTrack => {
            lemma_start_current(
                e.with_queue(e.queue.moved(e.queue.skip_cursor())),
                e.crosses(e.queue.skip_cursor()),
            );
        },
        Command::PrevTrack => {
            lemma_start_current(
                e.with_queue(e.queue.moved(e.queue.back_cursor())),
                e.crosses(e.queue.back_cursor()),
            );
        },
        Command::NextAlbum => {
            lemma_start_current(e.with_queue(e.queue.moved(e.queue.next_album_cursor())), true);
        },
        Command::PrevAlbum => {
            lemma_start_current(e.with_queue(e.queue.moved(e.queue.prev_album_cursor())), true);
        },
        Command::Stop | Command::Clear => {},
        _ => {
            assert(silent(e.commanded(command).effects));
            lemma_silent(open_track(e.playing), e.commanded(command).effects);
        },
    }
}

/// Whatever the pipeline reports, the events pair up as well.
pub proof fn messages_report_truly(e: EngineView, message: Message)
    ensures
        reports(e, e.messaged(message)),
{
    match message {
        Message::StreamStart => {
            lemma_spliced(e);
            lemma_silent(open_track(e.playing), Seq::empty());
        },
        Message::EndOfStream => {
            lemma_finish_queue(e);
        },
        Message::Failed(text) => {
            let crossed = e.crosses(e.queue.skip_cursor());
            let s = e.jump(e.queue.skip_cursor(), crossed);
            lemma_finish_queue(e);
            lemma_start_current(e.with_queue(e.queue.moved(e.queue.skip_cursor())), crossed);
            let first = seq![Effect::Emit(PlayerEvent::Error(text))];
            lemma_silent(open_track(e.playing), first);
            lemma_heard_concat(open_track(e.playing), first, s.effects);
        },
    }
}

/// The effect that announces an album.
pub open spec fn announcement(e: Effect, album_id: i64) -> bool {
    e matches Effect::Emit(PlayerEvent::AlbumStarted { album_id: id, .. }) && id == album_id
}

/// Whether a step announces the album it moves on to: after the track that was
/// playing is reported finished and before the new one is reported started.
pub open spec fn announces(e: EngineView, s: Step) -> bool {
    (e.playing is Some && s.after.playing is Some && e.playing.unwrap().album_id
        != s.after.playing.unwrap().album_id) ==> exists|f: int, a: int, t: int|
        #![trigger s.effects[f], s.effects[a], s.effects[t]]
        {
            let p = e.playing.unwrap();
            let q = s.after.playing.unwrap();
            &&& 0 <= f < a < t < s.effects.len()
            &&& s.effects[f] == Effect::Emit(
                PlayerEvent::TrackFinished {
                    album_id: p.album_id,
                    track_id: p.track_id,
                    ms_played: p.ms_played,
                },
            )
            &&& announcement(s.effects[a], q.album_id)
            &&& s.effects[t] matches Effect::Emit(
                PlayerEvent::TrackStarted { album_id, track_id, .. },
            ) && album_id == q.album_id && track_id == q.track_id
        }
}

proof fn lemma_start_announces(before: EngineView, e: EngineView, announce_album: bool)
    requires
        e.playing == before.playing,
        announce_album || (e.queue.current_album() matches Some(a) ==> before.heard_album()
            == Some(a.id)),
    ensures
        announces(before, e.start_current(announce_album)),
{
    let s = e.start_current(announce_album);
    if before.playing is Some && s.after.playing is Some && before.playing.unwrap().album_id
        != s.after.playing.unwrap().album_id {
        assert(announce_album);
        assert(e.finish_current().effects.len() == 1);
        assert(s.effects[0] == e.finish_current().effects[0]);
        assert(announcement(s.effects[5], s.after.playing.unwrap().album_id));
        assert(s.effects[6] is Emit);
        assert(0 <= 0int < 5int < 6int < s.effects.len());
    }
}

proof fn lemma_splice_announces(e: EngineView)
    ensures
        announces(e, e.spliced()),
{
    let s = e.spliced();
    if e.playing is Some && s.after.playing is Some && e.playing.unwrap().album_id
        != s.after.playing.unwrap().album_id {
        assert(s.effects[0] is Emit);
        assert(announcement(s.effects[2], s.after.playing.unwrap().album_id));
        assert(s.effects[3] is Emit);
        assert(0 <= 0int < 2int < 3int < s.effects.len());
    }
}

/// However playback moves on to a different album, the album is announced, so
/// that a listener to the events can open a sitting with it: a command does so,
/// whichever it is.
pub proof fn commands_announce_new_albums(e: EngineView, command: Command)
    ensures
        announces(e, e.commanded(command)),
{
    match command {
        Command::PlayAlbum(album) => {
            lemma_start_announces(e, e.with_queue(e.queue.cleared().enqueued(album)), true);
        },
        Command::Enqueue(album) => {
            lemma_start_announces(e, e.with_queue(e.queue.enqueued(album)), true);
        },
        Command::NextTrack => {
            let to = e.queue.skip_cursor();
            lemma_start_announces(e, e.with_queue(e.queue.moved(to)), e.crosses(to));
        },
        Command::PrevTrack => {
            let to = e.queue.back_cursor();
            lemma_start_announces(e, e.with_queue(e.queue.moved(to)), e.crosses(to));
        },
        Command::NextAlbum => {
            let to = e.queue.next_album_cursor();
            lemma_start_announces(e, e.with_queue(e.queue.moved(to)), true);
        },
        Command::PrevAlbum => {
            let to = e.queue.prev_album_cursor();
            lemma_start_announces(e, e.with_queue(e.queue.moved(to)), true);
        },
        _ => {},
    }
}

/// So does a message of the pipeline: a splice onto the next album's first track,
/// or a file that cannot be played at the end of an album.
pub proof fn messages_announce_new_albums(e: EngineView, message: Message)
    ensures
        announces(e, e.messaged(message)),
{
    match message {
        Message::StreamStart => {
            lemma_splice_announces(e);
        },
        Message::EndOfStream => {},
        Message::Failed(text) => {
            let to = e.queue.skip_cursor();
            let inner = e.jump(to, e.crosses(to));
            lemma_start_announces(e, e.with_queue(e.queue.moved(to)), e.crosses(to));
            let s = e.messaged(message);
            if e.playing is Some && s.after.playing is Some && e.playing.unwrap().album_id
                != s.after.playing.unwrap().album_id {
                let (f, a, t) = choose|f: int, a: int, t: int|
                    #![trigger inner.effects[f], inner.effects[a], inner.effects[t]]
                    {
                        let p = e.playing.unwrap();
                        let q = s.after.playing.unwrap();
                        &&& 0 <= f < a < t < inner.effects.len()
                        &&& inner.effects[f] == Effect::Emit(
                            PlayerEvent::TrackFinished {
                                album_id: p.album_id,
                                track_id: p.track_id,
                                ms_played: p.ms_played,
                            },
                        )
                        &&& announcement(inner.effects[a], q.album_id)
                        &&& inner.effects[t] matches Effect::Emit(
                            PlayerEvent::TrackStarted { album_id, track_id, .. },
                        ) && album_id == q.album_id && track_id == q.track_id
                    };
                assert(s.effects[f + 1] == inner.effects[f]);
                assert(s.effects[a + 1] == inner.effects[a]);
                assert(s.effects[t + 1] == inner.effects[t]);
            }
        },
    }
}

/// A step from track to track inside one album announces nothing.
pub proof fn staying_on_an_album_announces_nothing(e: EngineView, command: Command, i: int)
    requires
        command is NextTrack || command is PrevTrack,
        e.commanded(command).after.queue.current_album() matches Some(a) && e.heard_album()
            == Some(a.id),
        0 <= i < e.commanded(command).effects.len(),
    ensures
        !(e.commanded(command).effects[i] matches Effect::Emit(PlayerEvent::AlbumStarted { .. })),
{
}

/// The album last announced, after one more effect.
pub open spec fn announced(album: Option<i64>, effect: Effect) -> Option<i64> {
    match effect {
        Effect::Emit(PlayerEvent::AlbumStarted { album_id, .. }) => Some(album_id),
        _ => album,
    }
}

pub open spec fn announced_all(album: Option<i64>, effects: Seq<Effect>) -> Option<i64>
    decreases effects.len(),
{
    if effects.len() == 0 {
        album
    } else {
        announced(announced_all(album, effects.drop_last()), effects.last())
    }
}

/// Whether an effect that starts or finishes a track does so under the album that
/// was last announced.
pub open spec fn under(album: Option<i64>, effect: Effect) -> bool {
    match effect {
        Effect::Emit(PlayerEvent::TrackStarted { album_id, .. }) => album == Some(album_id),
        Effect::Emit(PlayerEvent::TrackFinished { album_id, .. }) => album == Some(album_id),
        _ => true,
    }
}

pub open spec fn all_under(album: Option<i64>, effects: Seq<Effect>) -> bool
    decreases effects.len(),
{
    effects.len() == 0 || (all_under(album, effects.drop_last()) && under(
        announced_all(album, effects.drop_last()),
        effects.last(),
    ))
}

proof fn lemma_announced_concat(album: Option<i64>, a: Seq<Effect>, b: Seq<Effect>)
    ensures
        announced_all(album, a + b) == announced_all(announced_all(album, a), b),
        all_under(album, a + b) == (all_under(album, a) && all_under(announced_all(album, a), b)),
    decreases b.len(),
{
    if b.len() == 0 {
        assert(a + b =~= a);
    } else {
        lemma_announced_concat(album, a, b.drop_last());
        assert((a + b).drop_last() =~= a + b.drop_last());
    }
}

proof fn lemma_announced_one(album: Option<i64>, e: Effect)
    ensures
        announced_all(album, seq![e]) == announced(album, e),
        all_under(album, seq![e]) == under(album, e),
        announced_all(album, Seq::empty()) == album,
        all_under(album, Seq::empty()),
{
    let none = Seq::<Effect>::empty();
    assert(seq![e].drop_last() =~= none);
    assert(all_under(album, none));
    assert(announced_all(album, none) == album);
}

/// Effects that say nothing of tracks or albums.
spec fn mute(effects: Seq<Effect>) -> bool {
    forall|i: int|
        0 <= i < effects.len() ==> match #[trigger] effects[i] {
            Effect::Emit(PlayerEvent::TrackStarted { .. }) => false,
            Effect::Emit(PlayerEvent::TrackFinished { .. }) => false,
            Effect::Emit(PlayerEvent::AlbumStarted { .. }) => false,
            _ => true,
        }
}

proof fn lemma_mute(album: Option<i64>, effects: Seq<Effect>)
    requires
        mute(effects),
    ensures
        announced_all(album, effects) == album,
        all_under(album, effects),
    decreases effects.len(),
{
    if effects.len() > 0 {
        let front = effects.drop_last();
        assert forall|i: int| 0 <= i < front.len() implies match #[trigger] front[i] {
            Effect::Emit(PlayerEvent::TrackStarted { .. }) => false,
            Effect::Emit(PlayerEvent::TrackFinished { .. }) => false,
            Effect::Emit(PlayerEvent::AlbumStarted { .. }) => false,
            _ => true,
        } by {
            assert(effects[i] == front[i]);
        }
        lemma_mute(album, front);
        assert(effects[effects.len() - 1] == effects.last());
    }
}

/// A step keeps to the announced albums: what it starts and finishes stands under
/// the album last announced, and that album is the one playback is on.
pub open spec fn keeps_to_albums(e: EngineView, s: Step) -> bool {
    &&& all_under(e.last_album, s.effects)
    &&& announced_all(e.last_album, s.effects) == s.after.last_album
    &&& s.after.consistent()
}

proof fn lemma_finish_keeps(e: EngineView, quiet: Seq<Effect>)
    requires
        e.consistent(),
        mute(quiet),
    ensures
        all_under(e.last_album, e.finish_current().effects + quiet),
        announced_all(e.last_album, e.finish_current().effects + quiet) == e.last_album,
{
    let fx = e.finish_current().effects;
    if let Some(p) = e.playing {
        lemma_announced_one(e.last_album, fx[0]);
        assert(fx =~= seq![fx[0]]);
    }
    lemma_announced_concat(e.last_album, fx, quiet);
    lemma_mute(e.last_album, quiet);
}

proof fn lemma_stop_keeps(e: EngineView)
    requires
        e.consistent(),
    ensures
        keeps_to_albums(e, e.finish_queue()),
        keeps_to_albums(e, e.halted()),
{
    let quiet = seq![Effect::SetPipeline(Pipeline::Null)] + if e.state != PlayState::Stopped {
        seq![
            Effect::Emit(PlayerEvent::QueueFinished),
            Effect::Emit(PlayerEvent::StateChanged(PlayState::Stopped)),
        ]
    } else {
        Seq::empty()
    };
    lemma_finish_keeps(e, quiet);
    assert(e.finish_queue().effects =~= e.finish_current().effects + quiet);
    lemma_finish_keeps(
        e,
        seq![
            Effect::SetPipeline(Pipeline::Null),
            Effect::Emit(PlayerEvent::StateChanged(PlayState::Stopped)),
        ],
    );
}

/// The effects that announce an album, or none, and then start a track of it.
proof fn lemma_start_keeps(
    album: Option<i64>,
    before: Seq<Effect>,
    announce: Option<(i64, String)>,
    album_id: i64,
    track_id: i64,
    title: String,
    quiet: Seq<Effect>,
)
    requires
        all_under(album, before),
        announced_all(album, before) == album,
        match announce {
            Some(a) => a.0 == album_id,
            None => album == Some(album_id),
        },
        mute(quiet),
    ensures
        ({
            let news = match announce {
                Some(a) => seq![
                    Effect::Emit(PlayerEvent::AlbumStarted { album_id: a.0, title: a.1 }),
                ],
                None => Seq::empty(),
            };
            let start = seq![
                Effect::Emit(PlayerEvent::TrackStarted { album_id, track_id, title }),
            ];
            &&& all_under(album, before + news + start + quiet)
            &&& announced_all(album, before + news + start + quiet) == Some(album_id)
        }),
{
    let news = match announce {
        Some(a) => seq![Effect::Emit(PlayerEvent::AlbumStarted { album_id: a.0, title: a.1 })],
        None => Seq::empty(),
    };
    let start = seq![Effect::Emit(PlayerEvent::TrackStarted { album_id, track_id, title })];
    lemma_announced_concat(album, before, news);
    lemma_announced_one(album, news[0]);
    lemma_announced_concat(album, before + news, start);
    lemma_announced_one(Some(album_id), start[0]);
    lemma_announced_concat(album, before + news + start, quiet);
    lemma_mute(Some(album_id), quiet);
    if announce is Some {
        assert(news =~= seq![news[0]]);
    }
}

proof fn lemma_start_current_keeps(e: EngineView, announce_album: bool)
    requires
        e.consistent(),
        announce_album || (e.queue.current_album() matches Some(a) ==> e.last_album == Some(a.id)),
    ensures
        keeps_to_albums(e, e.start_current(announce_album)),
{
    let s = e.finish_current();
    match (e.queue.current_album(), e.queue.current_track()) {
        (Some(album), Some(track)) => {
            let quiet = seq![
                Effect::SetPipeline(Pipeline::Ready),
                Effect::LoadCurrent,
                volume_effect(e.queue),
                Effect::SetPipeline(Pipeline::Playing),
            ];
            lemma_finish_keeps(e, quiet);
            let after = seq![Effect::Emit(PlayerEvent::StateChanged(PlayState::Playing))];
            let announce = if announce_album {
                Some((album.id, album.title))
            } else {
                None
            };
            lemma_start_keeps(
                e.last_album,
                s.effects + quiet,
                announce,
                album.id,
                track.id,
                track.title,
                after,
            );
            let news = match announce {
                Some(a) => seq![
                    Effect::Emit(PlayerEvent::AlbumStarted { album_id: a.0, title: a.1 }),
                ],
                None => Seq::empty(),
            };
            let start = seq![
                Effect::Emit(
                    PlayerEvent::TrackStarted {
                        album_id: album.id,
                        track_id: track.id,
                        title: track.title,
                    },
                ),
            ];
            assert(e.start_current(announce_album).effects =~= s.effects + quiet + news + start
                + after);
        },
        _ => {
            lemma_finish_keeps(e, Seq::empty());
            assert(s.effects + Seq::<Effect>::empty() =~= s.effects);
            lemma_stop_keeps(s.after);
            lemma_announced_concat(e.last_album, s.effects, s.after.finish_queue().effects);
        },
    }
}

proof fn lemma_spliced_keeps(e: EngineView)
    requires
        e.consistent(),
    ensures
        keeps_to_albums(e, e.spliced()),
{
    let g = EngineView { gapless: false, ..e };
    let s = g.finish_current();
    lemma_finish_keeps(g, Seq::empty());
    assert(s.effects + Seq::<Effect>::empty() =~= s.effects);
    if e.queue.next_cursor() is None {
        lemma_stop_keeps(s.after);
        lemma_announced_concat(e.last_album, s.effects, s.after.finish_queue().effects);
    } else {
        let q = e.queue.moved(e.queue.next_cursor());
        let album = q.current_album().unwrap();
        let track = q.current_track().unwrap();
        let same_album = e.playing is Some && e.playing.unwrap().album_id == album.id;
        let (quiet, announce) = if same_album {
            (Seq::empty(), None)
        } else {
            (seq![volume_effect(q)], Some((album.id, album.title)))
        };
        lemma_finish_keeps(g, quiet);
        lemma_start_keeps(
            e.last_album,
            s.effects + quiet,
            announce,
            album.id,
            track.id,
            track.title,
            Seq::empty(),
        );
        let news = match announce {
            Some(a) => seq![Effect::Emit(PlayerEvent::AlbumStarted { album_id: a.0, title: a.1 })],
            None => Seq::empty(),
        };
        let start = seq![
            Effect::Emit(
                PlayerEvent::TrackStarted {
                    album_id: album.id,
                    track_id: track.id,
                    title: track.title,
                },
            ),
        ];
        assert(e.spliced().effects =~= s.effects + quiet + news + start + Seq::empty());
    }
}

/// Whatever the user commands, every track starts and finishes under the album
/// that was last announced, so a log that follows the announcements files each
/// listen with its own album.
pub proof fn commands_keep_to_albums(e: EngineView, command: Command)
    requires
        e.consistent(),
    ensures
        keeps_to_albums(e, e.commanded(command)),
{
    lemma_stop_keeps(e);
    match command {
        Command::PlayAlbum(album) => {
            lemma_start_current_keeps(e.with_queue(e.queue.cleared().enqueued(album)), true);
        },
        Command::Enqueue(album) => {
            if e.queue.order.len() == 0 {
                lemma_start_current_keeps(e.with_queue(e.queue.enqueued(album)), true);
            } else {
                lemma_mute(e.last_album, Seq::empty());
            }
        },
        Command::NextTrack => {
            let to = e.queue.skip_cursor();
            if to is Some {
                lemma_start_current_keeps(e.with_queue(e.queue.moved(to)), e.crosses(to));
            }
        },
        Command::PrevTrack => {
            let to = e.queue.back_cursor();
            if to is Some {
                lemma_start_current_keeps(e.with_queue(e.queue.moved(to)), e.crosses(to));
            } else {
                lemma_mute(e.last_album, Seq::empty());
            }
        },
        Command::NextAlbum => {
            let to = e.queue.next_album_cursor();
            if to is Some {
                lemma_start_current_keeps(e.with_queue(e.queue.moved(to)), true);
            }
        },
        Command::PrevAlbum => {
            let to = e.queue.prev_album_cursor();
            if to is Some {
                lemma_start_current_keeps(e.with_queue(e.queue.moved(to)), true);
            } else {
                lemma_mute(e.last_album, Seq::empty());
            }
        },
        Command::Stop | Command::Clear => {},
        _ => {
            assert(mute(e.commanded(command).effects));
            lemma_mute(e.last_album, e.commanded(command).effects);
        },
    }
}

/// Whatever the pipeline reports, so do the tracks that it moves on to.
pub proof fn messages_keep_to_albums(e: EngineView, message: Message)
    requires
        e.consistent(),
    ensures
        keeps_to_albums(e, e.messaged(message)),
{
    match message {
        Message::StreamStart => {
            lemma_spliced_keeps(e);
            lemma_mute(e.last_album, Seq::empty());
        },
        Message::EndOfStream => {
            lemma_stop_keeps(e);
        },
        Message::Failed(text) => {
            let to = e.queue.skip_cursor();
            let s = e.jump(to, e.crosses(to));
            lemma_stop_keeps(e);
            if to is Some {
                lemma_start_current_keeps(e.with_queue(e.queue.moved(to)), e.crosses(to));
            }
            let first = seq![Effect::Emit(PlayerEvent::Error(text))];
            lemma_mute(e.last_album, first);
            lemma_announced_concat(e.last_album, first, s.effects);
        },
    }
}

/// After a deliberate jump the stream start that follows moves nothing: only a
/// file that was handed over early advances the cursor, and only once.
pub proof fn a_jump_is_not_a_splice(e: EngineView, announce_album: bool)
    requires
        e.queue.cursor is Some,
    ensures
        e.start_current(announce_album).after.messaged(Message::StreamStart) == (Step {
            after: e.start_current(announce_album).after,
            effects: Seq::empty(),
        }),
        !e.spliced().after.gapless,
{
}

/// What has been heard of a track never shrinks as the clock ticks, and does not
/// grow while playback is paused or stopped.
pub proof fn only_audible_time_counts(e: EngineView, position_ms: i64)
    ensures
        e.playing matches Some(p) ==> e.ticked(position_ms).playing matches Some(t)
            && t.ms_played >= p.ms_played,
        e.state != PlayState::Playing ==> e.ticked(position_ms) == e,
{
}

} // verus!
