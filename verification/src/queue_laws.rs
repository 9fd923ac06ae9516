//! What moving through the queue promises: albums play through in their own
//! order whatever repeats, every track gets its turn, and the controls go where
//! they say.

use vstd::prelude::*;

use crate::queue;
use crate::queue::{Cursor, QueueView, QueuedAlbum, Repeat};

verus! {

/// How many tracks the queue holds.
pub open spec fn total(q: QueueView) -> int {
    queue::tracks_before(q, q.order.len() as int)
}

/// How many tracks of the play order come before the one under the cursor.
pub open spec fn place(q: QueueView) -> int {
    queue::place_of(q, q.cursor.unwrap())
}

/// The queue after so many tracks have finished by themselves.
pub open spec fn played_on(q: QueueView, n: nat) -> QueueView
    decreases n,
{
    if n == 0 {
        q
    } else {
        let before = played_on(q, (n - 1) as nat);
        before.moved(before.next_cursor())
    }
}

/// The track under the cursor is one of the album under it, and that album is the
/// one that the play order has at the cursor.
pub proof fn the_cursor_names_an_album_and_its_track(q: QueueView)
    requires
        q.well_formed(),
    ensures
        match q.cursor {
            Some(c) => {
                &&& q.current_album() == Some(q.albums[q.order[c.order_index as int] as int])
                &&& q.current_track() == Some(
                    q.current_album().unwrap().tracks@[c.track_index as int],
                )
            },
            None => q.current_album() is None && q.current_track() is None && q.albums.len() == 0,
        },
{
}

/// Inside an album the next track of that album comes, whatever repeats: by
/// itself and by the next-track control.
pub proof fn albums_play_on_in_their_own_order(q: QueueView)
    requires
        q.well_formed(),
        q.cursor matches Some(c) && c.track_index + 1 < q.albums[q.order[c.order_index as int] as int].tracks@.len(),
    ensures
        ({
            let c = q.cursor.unwrap();
            let tracks = q.albums[q.order[c.order_index as int] as int].tracks@;
            &&& q.next_cursor() matches Some(d) && d.order_index == c.order_index && d.track_index
                == c.track_index + 1
            &&& q.skip_cursor() == q.next_cursor()
            &&& q.moved(q.next_cursor()).current_track() == Some(tracks[c.track_index + 1])
            &&& q.moved(q.next_cursor()).current_album() == q.current_album()
        }),
{
}

/// At the end of an album the following album starts; at the end of the last one
/// the queue ends, starts over, or neither, as repeat says.
pub proof fn the_end_of_an_album_leads_on(q: QueueView)
    requires
        q.well_formed(),
        q.cursor matches Some(c) && c.track_index + 1 == q.albums[q.order[c.order_index as int] as int].tracks@.len(),
    ensures
        ({
            let c = q.cursor.unwrap();
            let last = c.order_index + 1 == q.order.len();
            &&& q.repeat == Repeat::Album ==> (q.next_cursor() matches Some(d) && d.order_index
                == c.order_index && d.track_index == 0)
            &&& q.repeat != Repeat::Album && !last ==> (q.next_cursor() matches Some(d)
                && d.order_index == c.order_index + 1 && d.track_index == 0)
            &&& q.repeat == Repeat::Queue && last ==> (q.next_cursor() matches Some(d)
                && d.order_index == 0 && d.track_index == 0)
            &&& q.repeat == Repeat::Off && last ==> q.next_cursor() is None
            &&& !last ==> (q.skip_cursor() matches Some(d) && d.order_index == c.order_index + 1
                && d.track_index == 0)
            &&& last && q.repeat == Repeat::Queue ==> (q.skip_cursor() matches Some(d)
                && d.order_index == 0 && d.track_index == 0)
            &&& last && q.repeat != Repeat::Queue ==> q.skip_cursor() is None
        }),
{
}

proof fn lemma_grows(q: QueueView, m: int, n: int)
    requires
        q.well_formed(),
        0 <= m <= n <= q.order.len(),
    ensures
        queue::tracks_before(q, m) + (n - m) <= queue::tracks_before(q, n),
    decreases n - m,
{
    if m < n {
        lemma_grows(q, m, n - 1);
        assert(q.order[n - 1] < q.albums.len());
        assert(q.albums[q.order[n - 1] as int].tracks@.len() > 0);
    }
}

proof fn lemma_place_bound(q: QueueView)
    requires
        q.well_formed(),
        q.cursor is Some,
    ensures
        0 <= place(q) < total(q),
{
    let c = q.cursor.unwrap();
    lemma_grows(q, 0, c.order_index as int);
    lemma_grows(q, c.order_index + 1, q.order.len() as int);
    assert(queue::tracks_before(q, c.order_index + 1) == queue::tracks_before(
        q,
        c.order_index as int,
    ) + q.album_at(c.order_index as int).tracks@.len());
}

proof fn lemma_same_tracks(q: QueueView, p: QueueView, n: int)
    requires
        q.albums == p.albums,
        q.order == p.order,
    ensures
        queue::tracks_before(q, n) == queue::tracks_before(p, n),
    decreases n,
{
    if n > 0 {
        lemma_same_tracks(q, p, n - 1);
    }
}

/// Finishing a track goes to the very next one of the whole play order, and from
/// the last one to the first when the queue repeats.
pub proof fn finishing_goes_to_the_very_next_track(q: QueueView)
    requires
        q.well_formed(),
        q.cursor is Some,
        q.repeat != Repeat::Album,
    ensures
        0 <= place(q) < total(q),
        place(q) + 1 < total(q) ==> q.next_cursor() is Some && place(q.moved(q.next_cursor()))
            == place(q) + 1,
        place(q) + 1 == total(q) && q.repeat == Repeat::Queue ==> q.next_cursor() is Some && place(
            q.moved(q.next_cursor()),
        ) == 0,
        place(q) + 1 == total(q) && q.repeat == Repeat::Off ==> q.next_cursor() is None,
        q.moved(q.next_cursor()).well_formed(),
{
    let c = q.cursor.unwrap();
    lemma_place_bound(q);
    assert(q.order[c.order_index as int] < q.albums.len());
    assert(queue::tracks_before(q, c.order_index + 1) == queue::tracks_before(
        q,
        c.order_index as int,
    ) + q.album_at(c.order_index as int).tracks@.len());
    lemma_grows(q, c.order_index + 1, q.order.len() as int);
    if let Some(d) = q.next_cursor() {
        let p = q.moved(Some(d));
        lemma_same_tracks(q, p, d.order_index as int);
        lemma_same_tracks(q, p, q.order.len() as int);
        assert(q.order[d.order_index as int] < q.albums.len());
        assert(q.albums[q.order[d.order_index as int] as int].tracks@.len() > 0);
    }
}

proof fn lemma_round(a: int, t: int)
    requires
        t > 0,
    ensures
        (a + 1) % t == if a % t + 1 < t {
            a % t + 1
        } else {
            0
        },
{
    let k = a / t;
    let r = a % t;
    vstd::arithmetic::div_mod::lemma_fundamental_div_mod(a, t);
    if r + 1 < t {
        assert(a + 1 == k * t + (r + 1)) by (nonlinear_arith)
            requires
                a == t * k + r,
        ;
        vstd::arithmetic::div_mod::lemma_fundamental_div_mod_converse(a + 1, t, k, r + 1);
    } else {
        assert(a + 1 == (k + 1) * t) by (nonlinear_arith)
            requires
                a == t * k + r,
                r + 1 == t,
        ;
        vstd::arithmetic::div_mod::lemma_fundamental_div_mod_converse(a + 1, t, k + 1, 0);
    }
}

/// With the queue on repeat, every track is played once in each round: after `n`
/// tracks the place is `n` further on, counted around the queue.
pub proof fn a_repeating_queue_plays_every_track_each_round(q: QueueView, n: nat)
    requires
        q.well_formed(),
        q.cursor is Some,
        q.repeat == Repeat::Queue,
    ensures
        ({
            let p = played_on(q, n);
            &&& p.well_formed()
            &&& p.cursor is Some
            &&& p.albums == q.albums
            &&& p.order == q.order
            &&& p.repeat == q.repeat
            &&& total(p) == total(q)
            &&& total(q) > 0
            &&& place(p) == (place(q) + n) % total(q)
        }),
    decreases n,
{
    lemma_place_bound(q);
    let t = total(q);
    if n == 0 {
        vstd::arithmetic::div_mod::lemma_small_mod(place(q) as nat, t as nat);
    } else {
        a_repeating_queue_plays_every_track_each_round(q, (n - 1) as nat);
        let before = played_on(q, (n - 1) as nat);
        let p = played_on(q, n);
        finishing_goes_to_the_very_next_track(before);
        lemma_same_tracks(before, p, q.order.len() as int);
        let a = place(q) + n - 1;
        assert(place(before) == a % t);
        lemma_round(a, t);
    }
}

/// An album on repeat is never left by itself: after any number of tracks the same
/// album plays, and its tracks come round in turn.
pub proof fn a_repeating_album_stays_on_the_album(q: QueueView, n: nat)
    requires
        q.well_formed(),
        q.cursor is Some,
        q.repeat == Repeat::Album,
    ensures
        ({
            let p = played_on(q, n);
            let c = q.cursor.unwrap();
            let count = q.albums[q.order[c.order_index as int] as int].tracks@.len();
            &&& p.well_formed()
            &&& p.albums == q.albums
            &&& p.order == q.order
            &&& p.repeat == q.repeat
            &&& p.cursor matches Some(d) && d.order_index == c.order_index && d.track_index == (
            c.track_index + n) % (count as int)
        }),
    decreases n,
{
    let c = q.cursor.unwrap();
    let t = q.albums[q.order[c.order_index as int] as int].tracks@.len() as int;
    if n == 0 {
        vstd::arithmetic::div_mod::lemma_small_mod(c.track_index as nat, t as nat);
    } else {
        a_repeating_album_stays_on_the_album(q, (n - 1) as nat);
        let d = played_on(q, (n - 1) as nat).cursor.unwrap();
        let a = c.track_index + n - 1;
        lemma_round(a, t);
    }
}

/// The next-album control goes to the first track of the following album from any
/// track of the current one; past the last album it wraps around only when the
/// queue repeats.
pub proof fn next_album_starts_the_following_album(q: QueueView)
    requires
        q.well_formed(),
        q.cursor is Some,
    ensures
        ({
            let c = q.cursor.unwrap();
            let last = c.order_index + 1 == q.order.len();
            &&& !last ==> (q.next_album_cursor() matches Some(d) && d.order_index == c.order_index
                + 1 && d.track_index == 0)
            &&& last && q.repeat == Repeat::Queue ==> (q.next_album_cursor() matches Some(d)
                && d.order_index == 0 && d.track_index == 0)
            &&& last && q.repeat != Repeat::Queue ==> q.next_album_cursor() is None
        }),
{
}

/// The previous-album control goes to the first track of an album: of the current
/// one from inside it, of the one before from its first track, and nowhere from
/// the very start.
pub proof fn previous_album_restarts_first(q: QueueView)
    requires
        q.well_formed(),
        q.cursor is Some,
    ensures
        ({
            let c = q.cursor.unwrap();
            &&& q.prev_album_cursor() matches Some(d) ==> d.track_index == 0
            &&& c.track_index > 0 ==> (q.prev_album_cursor() matches Some(d) && d.order_index
                == c.order_index)
            &&& c.track_index == 0 && c.order_index > 0 ==> (q.prev_album_cursor() matches Some(d)
                && d.order_index == c.order_index - 1)
            &&& c.track_index == 0 && c.order_index == 0 ==> q.prev_album_cursor() is None
        }),
{
}

/// The previous-track control goes to the track right before in the play order,
/// and nowhere from the very first.
pub proof fn previous_track_steps_back_by_one(q: QueueView)
    requires
        q.well_formed(),
        q.cursor is Some,
    ensures
        q.back_cursor() is None <==> place(q) == 0,
        q.back_cursor() is Some ==> place(q.moved(q.back_cursor())) == place(q) - 1,
        q.moved(q.back_cursor()).well_formed(),
{
    let c = q.cursor.unwrap();
    lemma_grows(q, 0, c.order_index as int);
    if let Some(d) = q.back_cursor() {
        let p = q.moved(Some(d));
        lemma_same_tracks(q, p, d.order_index as int);
        assert(q.order[d.order_index as int] < q.albums.len());
        assert(queue::tracks_before(q, d.order_index + 1) == queue::tracks_before(
            q,
            d.order_index as int,
        ) + q.album_at(d.order_index as int).tracks@.len());
    }
}

/// The next-track control goes where playing on would, except that it leaves a
/// looping album at its end as if nothing repeated.
pub proof fn skipping_is_playing_on(q: QueueView)
    requires
        q.well_formed(),
        q.cursor is Some,
    ensures
        q.repeat != Repeat::Album ==> q.skip_cursor() == q.next_cursor(),
        q.repeat == Repeat::Album ==> q.skip_cursor() == (QueueView {
            repeat: Repeat::Off,
            ..q
        }).next_cursor(),
{
}

/// A jump inside the album goes to that very track, when there is one.
pub proof fn a_jump_lands_on_the_track(q: QueueView, track_index: usize)
    requires
        q.well_formed(),
    ensures
        q.seek_cursor(track_index) is Some <==> (q.current_album() matches Some(a) && track_index
            < a.tracks@.len()),
        q.seek_cursor(track_index) is Some ==> {
            let p = q.moved(q.seek_cursor(track_index));
            &&& p.current_album() == q.current_album()
            &&& p.current_track() == Some(
                q.current_album().unwrap().tracks@[track_index as int],
            )
        },
{
}

/// Moving changes nothing but the place, and nothing at all without a place to go.
pub proof fn moving_changes_only_the_place(q: QueueView, to: Option<Cursor>)
    ensures
        q.moved(to).albums == q.albums,
        q.moved(to).order == q.order,
        q.moved(to).shuffle == q.shuffle,
        q.moved(to).repeat == q.repeat,
        q.moved(to).seed == q.seed,
        to is Some ==> q.moved(to).cursor == to,
        to is None ==> q.moved(to) == q,
{
}

/// A queued album comes in after everything that has played or is playing, and
/// disturbs none of it: the albums already there keep their order, and playback
/// stays where it is. Without shuffle it comes last. An album without tracks is
/// not queued.
pub proof fn queueing_disturbs_nothing(q: QueueView, album: QueuedAlbum)
    requires
        q.well_formed(),
        q.albums.len() < usize::MAX,
    ensures
        ({
            let p = q.enqueued(album);
            let n = q.albums.len();
            &&& album.tracks@.len() == 0 ==> p == q
            &&& album.tracks@.len() > 0 ==> {
                &&& p.albums == q.albums.push(album)
                &&& p.shuffle == q.shuffle
                &&& p.repeat == q.repeat
                &&& exists|at: int| #![trigger p.order[at]]
                    {
                        &&& 0 <= at <= n
                        &&& p.order[at] == n
                        &&& p.order.remove(at) == q.order
                        &&& q.cursor matches Some(c) ==> at > c.order_index
                        &&& !q.shuffle ==> at == n
                    }
                &&& q.cursor is Some ==> p.cursor == q.cursor && p.current_track()
                    == q.current_track() && p.current_album() == q.current_album()
                &&& q.cursor is None ==> p.current_album() == Some(album) && p.current_track()
                    == Some(album.tracks@[0])
            }
        }),
{
    let p = q.enqueued(album);
    let n = q.albums.len() as int;
    if album.tracks@.len() > 0 {
        match q.cursor {
            Some(c) => {
                let first = c.order_index + 1;
                let span = q.order.len() - first;
                if q.shuffle && span > 0 {
                    assert(0 <= queue::picked(q.seed, span + 1) < span + 1) by {
                        let d = (queue::drawn(q.seed) as usize) as int;
                        assert(0 <= d % (span + 1) < span + 1) by (nonlinear_arith)
                            requires
                                span + 1 > 0,
                        ;
                    }
                    let at = first + queue::picked(q.seed, span + 1);
                    assert(p.order.remove(at) =~= q.order);
                    assert(p.order[at] == n);
                } else {
                    assert(p.order.remove(n) =~= q.order);
                    assert(p.order[n] == n);
                }
                assert(p.order[c.order_index as int] == q.order[c.order_index as int]);
                assert(q.order[c.order_index as int] < n);
            },
            None => {
                assert(q.order.len() == 0);
                assert(p.order.remove(0) =~= q.order);
                assert(p.order[0] == n);
            },
        }
    }
}

/// Clearing leaves no album and no place, and the settings as they were.
pub proof fn clearing_empties_the_queue(q: QueueView)
    ensures
        q.cleared().albums.len() == 0,
        q.cleared().order.len() == 0,
        q.cleared().cursor is None,
        q.cleared().shuffle == q.shuffle,
        q.cleared().repeat == q.repeat,
{
}

/// Switching shuffle takes hold and touches no other setting; switching it to what
/// it is does nothing. Everything up to the current album keeps its turn when
/// shuffle comes on mid-listen.
pub proof fn shuffling_switches_only_the_order(q: QueueView, on: bool, k: int)
    requires
        q.well_formed(),
    ensures
        q.shuffled(on).shuffle == on,
        q.shuffled(on).repeat == q.repeat,
        q.shuffled(on).albums == q.albums,
        q.shuffle == on ==> q.shuffled(on) == q,
        on && q.cursor is Some && (q.cursor.unwrap().order_index > 0 || q.cursor.unwrap().track_index
            > 0) && 0 <= k <= q.cursor.unwrap().order_index ==> q.shuffled(on).order[k]
            == q.order[k],
        on ==> q.shuffled(on).order.to_multiset() == q.order.to_multiset(),
{
    if on && q.cursor is Some {
        let c = q.cursor.unwrap();
        let from = if q.untouched() {
            0
        } else {
            c.order_index + 1
        };
        lemma_dealt_front(q.order, q.seed, from, q.order.len() - 1, k);
        queue::dealing_keeps_every_item(q.order, q.seed, from, q.order.len() - 1);
    } else if on {
        queue::dealing_keeps_every_item(q.order, q.seed, 0, q.order.len() - 1);
    }
}

proof fn lemma_dealt_front<T>(order: Seq<T>, seed: u64, from: int, i: int, k: int)
    requires
        0 <= from,
        i < order.len(),
    ensures
        0 <= k < from && k < order.len() ==> queue::dealt(order, seed, from, i).0[k] == order[k],
    decreases i - from,
{
    if i > from {
        let m = i - from + 1;
        let d = (queue::drawn(seed) as usize) as int;
        assert(0 <= d % m < m) by (nonlinear_arith)
            requires
                m > 0,
        ;
        let j = from + queue::picked(seed, m);
        let next = queue::exchanged(order, i, j);
        lemma_dealt_front(next, queue::next_seed(seed), from, i - 1, k);
        if 0 <= k < from && k < order.len() {
            assert(next[k] == order[k]);
        }
    }
}

/// The generator never gets stuck: a state other than zero leads to another one
/// than zero, and no two states lead to the same one. The seed it starts from is
/// never zero.
pub proof fn the_generator_never_gets_stuck(x: u64, y: u64, clock: Option<u64>)
    ensures
        x != 0 ==> queue::next_seed(x) != 0,
        x != y ==> queue::next_seed(x) != queue::next_seed(y),
        queue::seed_from(clock) != 0,
        queue::seed_from(clock) % 2 == 1,
{
    let a = x ^ (x >> 12);
    let b = a ^ (a << 25);
    let c = b ^ (b >> 27);
    let d = y ^ (y >> 12);
    let e = d ^ (d << 25);
    let f = e ^ (e >> 27);
    assert(x != y ==> x ^ (x >> 12) != y ^ (y >> 12)) by (bit_vector);
    assert(a != d ==> a ^ (a << 25) != d ^ (d << 25)) by (bit_vector);
    assert(b != e ==> b ^ (b >> 27) != e ^ (e >> 27)) by (bit_vector);
    assert(x != 0 ==> x ^ (x >> 12) != 0) by (bit_vector);
    assert(a != 0 ==> a ^ (a << 25) != 0) by (bit_vector);
    assert(b != 0 ==> b ^ (b >> 27) != 0) by (bit_vector);
    if let Some(n) = clock {
        assert(n | 1 != 0 && (n | 1) % 2 == 1) by (bit_vector);
    }
    let s = queue::SCRAMBLE;
    assert(s | 1 != 0 && (s | 1) % 2 == 1) by (bit_vector);
}

/// The generator is xorshift64*: three shifts by 12, 25 and 27 bits, and a product
/// for the number drawn.
pub proof fn the_generator_is_xorshift(x: u64, a: u64, b: u64)
    requires
        a == x ^ (x >> 12),
        b == a ^ (a << 25),
    ensures
        queue::next_seed(x) == b ^ (b >> 27),
        queue::drawn(x) as int == (queue::next_seed(x) * 2685821657736338717) % 0x1_0000_0000_0000_0000,
{
}

proof fn lemma_dealt<T>(order: Seq<T>, seed: u64, from: int, i: int)
    requires
        0 <= from,
        i < order.len(),
    ensures
        queue::dealt(order, seed, from, i).0.len() == order.len(),
        forall|k: int|
            0 <= k < order.len() && (k < from || k > i) ==> #[trigger] queue::dealt(
                order,
                seed,
                from,
                i,
            ).0[k] == order[k],
    decreases i - from,
{
    if i > from {
        let m = i - from + 1;
        let j = from + queue::picked(seed, m);
        lemma_picked(seed, m);
        let swapped = queue::exchanged(order, i, j);
        lemma_dealt(swapped, queue::next_seed(seed), from, i - 1);
        assert forall|k: int| 0 <= k < order.len() && (k < from || k > i) implies #[trigger] queue::dealt(
            order,
            seed,
            from,
            i,
        ).0[k] == order[k] by {
            assert(swapped[k] == order[k]);
        }
    }
}

proof fn lemma_picked(seed: u64, m: int)
    requires
        m > 0,
    ensures
        0 <= queue::picked(seed, m) < m,
{
}

/// A shuffle deals from the back: each place takes its item from all that are left,
/// its own among them, and what lies outside the part to shuffle stays.
pub proof fn each_place_draws_from_what_is_left<T>(order: Seq<T>, seed: u64, from: int, i: int, k: int)
    requires
        0 <= from < i < order.len(),
        0 <= k < order.len(),
        k < from || k > i,
    ensures
        ({
            let deal = queue::dealt(order, seed, from, i).0;
            let at = from + (queue::drawn(seed) as usize) as int % (i - from + 1);
            &&& deal.len() == order.len()
            &&& deal[i] == order[at]
            &&& deal[k] == order[k]
        }),
{
    let m = i - from + 1;
    let j = from + queue::picked(seed, m);
    lemma_picked(seed, m);
    let swapped = queue::exchanged(order, i, j);
    assert(swapped[i] == order[j]) by {
        assert(order.update(i, order[j]).update(j, order[i])[i] == if i == j {
            order[i]
        } else {
            order[j]
        });
    }
    lemma_dealt(order, seed, from, i);
    lemma_dealt(swapped, queue::next_seed(seed), from, i - 1);
}

/// An album that is queued while shuffling may come anywhere behind the current
/// one, the very end included.
pub proof fn shuffled_queues_take_albums_anywhere(q: QueueView, album: QueuedAlbum, c: Cursor)
    requires
        q.well_formed(),
        q.albums.len() < usize::MAX,
        q.shuffle,
        q.cursor == Some(c),
        c.order_index + 1 < q.order.len(),
        album.tracks@.len() > 0,
    ensures
        ({
            let places = q.order.len() - c.order_index;
            let at = c.order_index + 1 + (queue::drawn(q.seed) as usize) as int % places;
            &&& q.enqueued(album).order == q.order.insert(at, q.albums.len() as usize)
            &&& q.enqueued(album).seed == queue::next_seed(q.seed)
        }),
{
}

/// What is coming up starts with the current album and follows the play order.
pub proof fn the_current_album_comes_up_first(q: QueueView)
    requires
        q.well_formed(),
    ensures
        q.coming_up().len() <= q.order.len(),
        q.cursor matches Some(c) ==> {
            &&& q.coming_up().len() == q.order.len() - c.order_index
            &&& q.coming_up().len() > 0 ==> q.current_album() == Some(q.coming_up()[0])
            &&& forall|k: int|
                0 <= k < q.coming_up().len() ==> #[trigger] q.coming_up()[k] == q.albums[q.order[c.order_index
                    + k] as int]
        },
        q.cursor is None ==> q.coming_up().len() == q.order.len(),
{
}

} // verus!
