//! What the player's controls do: what is heard after each of them, what the
//! pipeline is told, and what they leave alone.

use vstd::prelude::*;

use crate::model::Real;
use crate::player::{
    Command, Effect, EngineView, Message, Pipeline, PlayState, PlayerEvent, PlayingTrack, Step,
};
use crate::queue::{Cursor, QueuedAlbum, Repeat};

verus! {

/// Whether an effect is among those of a step.
pub open spec fn does(s: Step, e: Effect) -> bool {
    exists|i: int| 0 <= i < s.effects.len() && #[trigger] s.effects[i] == e
}

/// Whether the pipeline is put in a state and nowhere else, and that is announced.
pub open spec fn switches(s: Step, state: PlayState, pipeline: Pipeline) -> bool {
    &&& s.after.state == state
    &&& s.effects.len() == 2
    &&& s.effects[0] == Effect::SetPipeline(pipeline)
    &&& s.effects[1] == Effect::Emit(PlayerEvent::StateChanged(state))
}

/// Nothing but the state of playback changed: the same track of the same queue, as
/// far into it as before.
pub open spec fn stays_put(e: EngineView, s: Step) -> bool {
    &&& s.after.queue == e.queue
    &&& s.after.playing == e.playing
    &&& s.after.last_album == e.last_album
    &&& s.after.gapless == e.gapless
}

/// Play plays and Pause pauses, whatever the player was doing; neither moves.
pub proof fn play_plays_and_pause_pauses(e: EngineView)
    requires
        e.queue.cursor is Some,
    ensures
        switches(e.commanded(Command::Play), PlayState::Playing, Pipeline::Playing),
        switches(e.commanded(Command::Pause), PlayState::Paused, Pipeline::Paused),
        stays_put(e, e.commanded(Command::Play)),
        stays_put(e, e.commanded(Command::Pause)),
{
}

/// The pause button pauses exactly what is playing and resumes anything else, so
/// that a second press takes back the first.
pub proof fn the_pause_button_toggles(e: EngineView)
    requires
        e.queue.cursor is Some,
    ensures
        ({
            let once = e.commanded(Command::TogglePause);
            let twice = once.after.commanded(Command::TogglePause);
            &&& stays_put(e, once)
            &&& e.state == PlayState::Playing ==> switches(
                once,
                PlayState::Paused,
                Pipeline::Paused,
            )
            &&& e.state != PlayState::Playing ==> switches(
                once,
                PlayState::Playing,
                Pipeline::Playing,
            )
            &&& once.after.state != e.state
            &&& e.state != PlayState::Stopped ==> twice.after.state == e.state
        }),
{
}

/// With nothing queued there is nothing to play or pause.
pub proof fn an_empty_queue_is_silent(e: EngineView, command: Command)
    requires
        e.queue.cursor is None,
        command is Play || command is Pause || command is TogglePause,
    ensures
        e.commanded(command).after == e,
        e.commanded(command).effects.len() == 0,
{
}

/// Stopping silences the pipeline and keeps the queue and the place in it;
/// clearing also empties the queue. Nothing is playing afterwards.
pub proof fn stopping_silences(e: EngineView)
    ensures
        ({
            let stop = e.commanded(Command::Stop);
            let clear = e.commanded(Command::Clear);
            &&& stop.after.state == PlayState::Stopped
            &&& stop.after.playing is None
            &&& stop.after.queue == e.queue
            &&& does(stop, Effect::SetPipeline(Pipeline::Null))
            &&& does(stop, Effect::Emit(PlayerEvent::StateChanged(PlayState::Stopped)))
            &&& clear.after.state == PlayState::Stopped
            &&& clear.after.playing is None
            &&& clear.after.queue.albums.len() == 0
            &&& clear.after.queue.cursor is None
            &&& clear.after.queue.repeat == e.queue.repeat
            &&& clear.after.queue.shuffle == e.queue.shuffle
            &&& clear.effects == stop.effects
        }),
{
    let stop = e.commanded(Command::Stop);
    let n = stop.effects.len();
    assert(stop.effects[n - 2] == Effect::SetPipeline(Pipeline::Null));
    assert(stop.effects[n - 1] == Effect::Emit(PlayerEvent::StateChanged(PlayState::Stopped)));
}

/// A step that begins the track under the cursor from its start: the pipeline is
/// readied, given the file, set to the album's gain and set going, in that order,
/// and the track is announced.
pub open spec fn begins(s: Step, to: Option<Cursor>) -> bool {
    let q = s.after.queue;
    &&& q.cursor == to
    &&& q.current_album() matches Some(album)
    &&& q.current_track() matches Some(track)
    &&& s.after.state == PlayState::Playing
    &&& !s.after.gapless
    &&& s.after.playing == Some(
        PlayingTrack { album_id: album.id, track_id: track.id, ms_played: 0 },
    )
    &&& exists|r: int, l: int, v: int, p: int, t: int|
        #![trigger s.effects[r], s.effects[l], s.effects[v], s.effects[p], s.effects[t]]
        {
            &&& 0 <= r < l < v < p < t < s.effects.len()
            &&& s.effects[r] == Effect::SetPipeline(Pipeline::Ready)
            &&& s.effects[l] == Effect::LoadCurrent
            &&& s.effects[v] == Effect::ApplyVolume {
                gain_db: album.album_gain_db,
                peak: album.album_peak,
            }
            &&& s.effects[p] == Effect::SetPipeline(Pipeline::Playing)
            &&& s.effects[t] == Effect::Emit(
                PlayerEvent::TrackStarted {
                    album_id: album.id,
                    track_id: track.id,
                    title: track.title,
                },
            )
        }
    &&& does(s, Effect::Emit(PlayerEvent::StateChanged(PlayState::Playing)))
}

proof fn lemma_begins(e: EngineView, announce: bool)
    requires
        e.queue.cursor is Some,
    ensures
        begins(e.start_current(announce), e.queue.cursor),
        e.start_current(announce).after.queue == e.queue,
        announce ==> does(
            e.start_current(announce),
            Effect::Emit(
                PlayerEvent::AlbumStarted {
                    album_id: e.queue.current_album().unwrap().id,
                    title: e.queue.current_album().unwrap().title,
                },
            ),
        ),
        e.playing matches Some(p) ==> e.start_current(announce).effects[0] == Effect::Emit(
            PlayerEvent::TrackFinished {
                album_id: p.album_id,
                track_id: p.track_id,
                ms_played: p.ms_played,
            },
        ),
{
    let s = e.start_current(announce);
    let b = e.finish_current().effects.len() as int;
    let a: int = if announce {
        1
    } else {
        0
    };
    let album = e.queue.current_album().unwrap();
    assert(s.effects[b] == Effect::SetPipeline(Pipeline::Ready));
    assert(s.effects[b + 1] == Effect::LoadCurrent);
    assert(s.effects[b + 2] == Effect::ApplyVolume {
        gain_db: album.album_gain_db,
        peak: album.album_peak,
    });
    assert(s.effects[b + 3] == Effect::SetPipeline(Pipeline::Playing));
    if announce {
        assert(s.effects[b + 4] == Effect::Emit(
            PlayerEvent::AlbumStarted { album_id: album.id, title: album.title },
        ));
    }
    assert(s.effects[b + 4 + a] is Emit);
    assert(s.effects[b + 5 + a] == Effect::Emit(PlayerEvent::StateChanged(PlayState::Playing)));
}

/// Playing an album replaces the queue by it and begins its first track, announcing
/// the album; the repeat and shuffle settings stay.
pub proof fn playing_an_album_starts_it(e: EngineView, album: QueuedAlbum)
    requires
        album.tracks@.len() > 0,
    ensures
        ({
            let s = e.commanded(Command::PlayAlbum(album));
            let start = Some(Cursor { order_index: 0, track_index: 0 });
            &&& begins(s, start)
            &&& s.after.queue.albums == seq![album]
            &&& s.after.queue.current_track() == Some(album.tracks@[0])
            &&& s.after.queue.repeat == e.queue.repeat
            &&& s.after.queue.shuffle == e.queue.shuffle
            &&& does(
                s,
                Effect::Emit(PlayerEvent::AlbumStarted { album_id: album.id, title: album.title }),
            )
        }),
{
    let q = e.queue.cleared().enqueued(album);
    assert(q.albums =~= seq![album]);
    assert(q.order =~= seq![0usize]);
    lemma_begins(e.with_queue(q), true);
}

/// Queueing an album never disturbs what is playing; it starts at once only when
/// nothing else is queued.
pub proof fn queueing_does_not_interrupt(e: EngineView, album: QueuedAlbum)
    requires
        e.queue.well_formed(),
        album.tracks@.len() > 0,
    ensures
        ({
            let s = e.commanded(Command::Enqueue(album));
            &&& s.after.queue.albums == e.queue.albums.push(album)
            &&& e.queue.albums.len() > 0 ==> {
                &&& s.effects.len() == 0
                &&& s.after.playing == e.playing
                &&& s.after.state == e.state
                &&& s.after.queue.cursor == e.queue.cursor
            }
            &&& e.queue.albums.len() == 0 ==> begins(
                s,
                Some(Cursor { order_index: 0, track_index: 0 }),
            ) && s.after.queue.current_track() == Some(album.tracks@[0])
        }),
{
    if e.queue.albums.len() == 0 {
        assert(e.queue.enqueued(album).albums =~= seq![album]);
        assert(e.queue.enqueued(album).order =~= seq![0usize]);
        lemma_begins(e.with_queue(e.queue.enqueued(album)), true);
    }
}

/// The step controls begin the track that they lead to, and announce the album for
/// the album controls. Going on from the last place ends the queue, going back from
/// the first does nothing.
pub proof fn step_controls_begin_a_track(e: EngineView)
    requires
        e.queue.well_formed(),
    ensures
        ({
            let next = e.commanded(Command::NextTrack);
            let prev = e.commanded(Command::PrevTrack);
            let next_album = e.commanded(Command::NextAlbum);
            let prev_album = e.commanded(Command::PrevAlbum);
            &&& e.queue.skip_cursor() is Some ==> begins(next, e.queue.skip_cursor())
            &&& e.queue.skip_cursor() is None ==> ends(e, next)
            &&& e.queue.back_cursor() is Some ==> begins(prev, e.queue.back_cursor())
            &&& e.queue.back_cursor() is None ==> prev.after == e && prev.effects.len() == 0
            &&& e.queue.next_album_cursor() is Some ==> begins(
                next_album,
                e.queue.next_album_cursor(),
            )
            &&& e.queue.next_album_cursor() is None ==> ends(e, next_album)
            &&& e.queue.prev_album_cursor() is Some ==> begins(
                prev_album,
                e.queue.prev_album_cursor(),
            )
            &&& e.queue.prev_album_cursor() is None ==> prev_album.after == e
                && prev_album.effects.len() == 0
        }),
{
    lemma_ends(e);
    let q = e.queue;
    if q.skip_cursor() is Some {
        let to = q.skip_cursor();
        lemma_begins(e.with_queue(q.moved(to)), e.crosses(to));
    }
    if q.back_cursor() is Some {
        let to = q.back_cursor();
        lemma_begins(e.with_queue(q.moved(to)), e.crosses(to));
    }
    if q.next_album_cursor() is Some {
        lemma_begins(e.with_queue(q.moved(q.next_album_cursor())), true);
    }
    if q.prev_album_cursor() is Some {
        lemma_begins(e.with_queue(q.moved(q.prev_album_cursor())), true);
    }
}

/// A step that ends playback because the queue ran out: silence, nothing playing,
/// the queue as it was, and the end announced unless playback had stopped before.
pub open spec fn ends(e: EngineView, s: Step) -> bool {
    &&& s.after.state == PlayState::Stopped
    &&& s.after.playing is None
    &&& s.after.queue == e.queue
    &&& does(s, Effect::SetPipeline(Pipeline::Null))
    &&& does(s, Effect::Emit(PlayerEvent::QueueFinished)) <==> e.state != PlayState::Stopped
    &&& does(s, Effect::Emit(PlayerEvent::StateChanged(PlayState::Stopped))) <==> e.state
        != PlayState::Stopped
}

proof fn lemma_ends(e: EngineView)
    ensures
        ends(e, e.finish_queue()),
{
    let s = e.finish_queue();
    let b = e.finish_current().effects.len() as int;
    assert(s.effects[b] == Effect::SetPipeline(Pipeline::Null));
    if e.state != PlayState::Stopped {
        assert(s.effects[b + 1] == Effect::Emit(PlayerEvent::QueueFinished));
        assert(s.effects[b + 2] == Effect::Emit(PlayerEvent::StateChanged(PlayState::Stopped)));
    } else {
        assert forall|i: int| 0 <= i < s.effects.len() implies #[trigger] s.effects[i]
            != Effect::Emit(PlayerEvent::QueueFinished) && s.effects[i] != Effect::Emit(
            PlayerEvent::StateChanged(PlayState::Stopped),
        ) by {
            if i < b {
                assert(s.effects[i] == e.finish_current().effects[i]);
            }
        }
    }
}

/// Seeking asks the pipeline for exactly that place and changes nothing else.
pub proof fn seeking_goes_where_it_is_told(e: EngineView, ms: u64)
    ensures
        e.commanded(Command::SeekTo(ms)).after == e,
        e.commanded(Command::SeekTo(ms)).effects == seq![Effect::Seek(ms)],
{
}

/// A volume is taken over and applied at once with the gain of the current album.
pub proof fn volume_is_applied_with_the_album_gain(e: EngineView, volume: Real)
    ensures
        ({
            let s = e.commanded(Command::SetVolume(volume));
            &&& s.after == e
            &&& s.effects.len() == 2
            &&& s.effects[0] == Effect::UserVolume(volume)
            &&& match e.queue.current_album() {
                Some(a) => s.effects[1] == Effect::ApplyVolume {
                    gain_db: a.album_gain_db,
                    peak: a.album_peak,
                },
                None => s.effects[1] == Effect::ApplyVolume { gain_db: None, peak: None },
            }
        }),
{
}

/// Shuffle and repeat are set without a sound: playback goes on as it was.
pub proof fn settings_change_silently(e: EngineView, on: bool, repeat: Repeat)
    ensures
        ({
            let shuffle = e.commanded(Command::SetShuffle(on));
            let again = e.commanded(Command::SetRepeat(repeat));
            &&& shuffle.effects.len() == 0
            &&& shuffle.after.state == e.state
            &&& shuffle.after.playing == e.playing
            &&& shuffle.after.queue.shuffle == on
            &&& again.effects.len() == 0
            &&& again.after.state == e.state
            &&& again.after.playing == e.playing
            &&& again.after.queue.repeat == repeat
            &&& again.after.queue.albums == e.queue.albums
            &&& again.after.queue.order == e.queue.order
            &&& again.after.queue.cursor == e.queue.cursor
            &&& again.after.queue.shuffle == e.queue.shuffle
        }),
{
}

/// When the file that was handed over early reaches the speakers, the queue moves
/// on to it and playback goes on undisturbed: no pipeline state is touched. Without
/// a hand-over a stream start means nothing.
pub proof fn splices_are_seamless(e: EngineView)
    requires
        e.queue.well_formed(),
    ensures
        ({
            let s = e.messaged(Message::StreamStart);
            &&& !e.gapless ==> s.after == e && s.effects.len() == 0
            &&& e.gapless && e.queue.next_cursor() is Some ==> {
                &&& s.after.queue == e.queue.moved(e.queue.next_cursor())
                &&& s.after.state == e.state
                &&& !s.after.gapless
                &&& s.after.playing == Some(
                    PlayingTrack {
                        album_id: s.after.queue.current_album().unwrap().id,
                        track_id: s.after.queue.current_track().unwrap().id,
                        ms_played: 0,
                    },
                )
                &&& forall|i: int|
                    0 <= i < s.effects.len() ==> !(#[trigger] s.effects[i] is SetPipeline) && !(
                    s.effects[i] is LoadCurrent)
                &&& does(
                    s,
                    Effect::Emit(
                        PlayerEvent::TrackStarted {
                            album_id: s.after.queue.current_album().unwrap().id,
                            track_id: s.after.queue.current_track().unwrap().id,
                            title: s.after.queue.current_track().unwrap().title,
                        },
                    ),
                )
            }
            &&& e.gapless && e.queue.next_cursor() is None ==> s.after.state == PlayState::Stopped
                && s.after.playing is None
        }),
{
    let s = e.messaged(Message::StreamStart);
    if e.gapless && e.queue.next_cursor() is Some {
        let n = s.effects.len();
        let last = s.effects[n - 1];
        assert(last is Emit);
    }
}

/// The end of the stream ends the queue. A file that cannot be played is reported
/// and skipped like a press of the next-track control.
pub proof fn failures_are_skipped(e: EngineView, why: String)
    requires
        e.queue.well_formed(),
    ensures
        ends(e, e.messaged(Message::EndOfStream)),
        ({
            let s = e.messaged(Message::Failed(why));
            let skip = e.commanded(Command::NextTrack);
            &&& s.effects == seq![Effect::Emit(PlayerEvent::Error(why))] + skip.effects
            &&& s.after == skip.after
        }),
{
    lemma_ends(e);
}

/// While a track plays, its clock follows the position; a step back, a pause or
/// silence never winds it back.
pub proof fn the_clock_follows_what_is_heard(e: EngineView, position_ms: i64)
    ensures
        ({
            let after = e.ticked(position_ms);
            &&& after.queue == e.queue
            &&& after.state == e.state
            &&& e.playing is None ==> after.playing is None
            &&& e.playing matches Some(p) ==> (after.playing matches Some(r) && r.track_id
                == p.track_id && r.album_id == p.album_id && r.ms_played == if e.state
                == PlayState::Playing && position_ms > p.ms_played {
                position_ms
            } else {
                p.ms_played
            })
        }),
{
}

/// What was heard of a track is reported when it is left, however it is left: by
/// the time its clock shows.
pub proof fn leaving_a_track_reports_it(e: EngineView, command: Command)
    requires
        e.queue.well_formed(),
        e.playing is Some,
        command is NextTrack || command is NextAlbum || command is PlayAlbum || command is Stop
            || command is Clear,
    ensures
        ({
            let p = e.playing.unwrap();
            e.commanded(command).effects[0] == Effect::Emit(
                PlayerEvent::TrackFinished {
                    album_id: p.album_id,
                    track_id: p.track_id,
                    ms_played: p.ms_played,
                },
            )
        }),
{
}

} // verus!
