//! The play queue.
//!
//! This is where "album-first" stops being a slogan and becomes behaviour. The
//! queue holds *albums*, not a flat list of tracks:
//!
//! * Shuffle reorders albums and never touches the order of tracks inside one.
//! * Skipping forward has two distinct meanings, next track and next album,
//!   which most players conflate into a single control.
//! * Repeat can apply to the current album or to the whole queue.

use vstd::prelude::*;

use crate::model::Real;
use crate::path::FilePath;
use crate::text;
use crate::text::{append_text, chars_of, text_of};

verus! {

/// Where a track's audio comes from: a file, or a server that streams it.
#[derive(Debug, PartialEq, Eq)]
pub enum Source {
    File(FilePath),
    Url(String),
}

impl Source {
    /// The URI to hand to the pipeline. `file_uri` is what the audio backend
    /// makes of a file's path, when it makes anything of it. A stream URL goes
    /// through untouched: escaping it as though it were a path would corrupt
    /// its query string.
    pub fn to_uri(&self, file_uri: Option<String>) -> (r: String)
        ensures
            match *self {
                Source::Url(url) => r@ == url@,
                Source::File(path) => match file_uri {
                    Some(uri) => r@ == uri@,
                    None => r@ == "file://"@ + path@.text(),
                },
            },
    {
        match self {
            Source::Url(url) => url.clone(),
            Source::File(path) => match file_uri {
                Some(uri) => uri,
                None => {
                    let mut out = chars_of("file://");
                    append_text(&mut out, &path.to_text());
                    text_of(&out)
                },
            },
        }
    }
}

/// One track, as the player needs it.
#[derive(Debug, PartialEq, Eq)]
pub struct QueuedTrack {
    pub id: i64,
    pub source: Source,
    pub title: String,
    pub disc_no: i64,
    pub track_no: i64,
    pub duration_ms: i64,
}

/// One album's worth of tracks, in playback order.
#[derive(Debug, PartialEq)]
pub struct QueuedAlbum {
    pub id: i64,
    pub title: String,
    pub artist: String,
    /// Album ReplayGain in dB. Album gain, never track gain: track gain would
    /// flatten the dynamics the record was mastered with.
    pub album_gain_db: Option<Real>,
    pub album_peak: Option<Real>,
    pub tracks: Vec<QueuedTrack>,
}

#[derive(Debug, Clone, Copy, PartialEq, Eq, Structural)]
pub enum Repeat {
    Off,
    /// Loop the current album forever.
    Album,
    /// Wrap around to the first album when the queue runs out.
    Queue,
}

impl Default for Repeat {
    fn default() -> (r: Self)
        ensures
            r == Repeat::Off,
    {
        Repeat::Off
    }
}

/// Where playback currently is.
#[derive(Debug, Clone, Copy, PartialEq, Eq, Structural)]
pub struct Cursor {
    /// Index into the play order, not into the albums.
    pub order_index: usize,
    pub track_index: usize,
}

/// A queue of albums with a cursor into it.
pub struct AlbumQueue {
    albums: Vec<QueuedAlbum>,
    /// Indices into `albums`, in the order they will play. Shuffling permutes
    /// this and leaves `albums`, and every album's track order, untouched.
    order: Vec<usize>,
    cursor: Option<Cursor>,
    shuffle: bool,
    repeat: Repeat,
    /// Seed for the shuffle, kept so reshuffles are reproducible in tests.
    seed: u64,
}

/// What an [`AlbumQueue`] holds.
#[verifier::ext_equal]
pub struct QueueView {
    pub albums: Seq<QueuedAlbum>,
    pub order: Seq<usize>,
    pub cursor: Option<Cursor>,
    pub shuffle: bool,
    pub repeat: Repeat,
    pub seed: u64,
}

impl View for AlbumQueue {
    type V = QueueView;

    closed spec fn view(&self) -> QueueView {
        QueueView {
            albums: self.albums@,
            order: self.order@,
            cursor: self.cursor,
            shuffle: self.shuffle,
            repeat: self.repeat,
            seed: self.seed,
        }
    }
}

/// An order of `n` albums: each index once.
pub open spec fn is_permutation(order: Seq<usize>, n: nat) -> bool {
    &&& order.len() == n
    &&& forall|i: int| 0 <= i < order.len() ==> (#[trigger] order[i]) < n
    &&& forall|i: int, j: int|
        0 <= i < j < order.len() ==> #[trigger] order[i] != #[trigger] order[j]
}

/// The number by which the generator's product is scrambled.
pub const SCRAMBLE: u64 = 0x2545_F491_4F6C_DD1D;

/// The state of the random number generator (xorshift64*) after one step.
pub open spec fn next_seed(x: u64) -> u64 {
    let a = x ^ (x >> 12);
    let b = a ^ (a << 25);
    b ^ (b >> 27)
}

/// The number that one step draws.
pub open spec fn drawn(x: u64) -> u64 {
    next_seed(x).wrapping_mul(SCRAMBLE)
}

/// The number below `m` that one step picks.
pub open spec fn picked(x: u64, m: int) -> int {
    (drawn(x) as usize) as int % m
}

/// A list with two elements exchanged.
pub open spec fn exchanged<T>(s: Seq<T>, i: int, j: int) -> Seq<T> {
    s.update(i, s[j]).update(j, s[i])
}

/// The Fisher-Yates deal of the positions `from..=i`, and the seed after it.
pub open spec fn dealt<T>(order: Seq<T>, seed: u64, from: int, i: int) -> (Seq<T>, u64)
    decreases i - from,
{
    if i <= from {
        (order, seed)
    } else {
        let j = from + picked(seed, i - from + 1);
        dealt(exchanged(order, i, j), next_seed(seed), from, i - 1)
    }
}

impl QueueView {
    /// What holds of every queue: the order is one of all albums, no album is
    /// empty, and the cursor stands on a track exactly when there are albums.
    pub open spec fn well_formed(self) -> bool {
        &&& is_permutation(self.order, self.albums.len())
        &&& self.albums.len() <= usize::MAX
        &&& forall|i: int|
            0 <= i < self.albums.len() ==> 0 < (#[trigger] self.albums[i]).tracks@.len()
                <= usize::MAX
        &&& match self.cursor {
            Some(c) => {
                &&& c.order_index < self.order.len()
                &&& c.track_index < self.album_at(c.order_index as int).tracks@.len()
            },
            None => self.order.len() == 0,
        }
    }

    /// The album at a position of the play order.
    pub open spec fn album_at(self, i: int) -> QueuedAlbum {
        self.albums[self.order[i] as int]
    }

    /// The album under the cursor.
    pub open spec fn current_album(self) -> Option<QueuedAlbum> {
        match self.cursor {
            Some(c) => Some(self.album_at(c.order_index as int)),
            None => None,
        }
    }

    /// The track under the cursor.
    pub open spec fn current_track(self) -> Option<QueuedTrack> {
        match self.cursor {
            Some(c) => Some(self.album_at(c.order_index as int).tracks@[c.track_index as int]),
            None => None,
        }
    }

    /// A queue without albums.
    pub open spec fn empty(seed: u64) -> QueueView {
        QueueView {
            albums: Seq::empty(),
            order: Seq::empty(),
            cursor: None,
            shuffle: false,
            repeat: Repeat::Off,
            seed,
        }
    }

    /// The queue without its albums; the settings stay.
    pub open spec fn cleared(self) -> QueueView {
        QueueView { albums: Seq::empty(), order: Seq::empty(), cursor: None, ..self }
    }

    /// The start of the queue.
    pub open spec fn start() -> Option<Cursor> {
        Some(Cursor { order_index: 0, track_index: 0 })
    }

    /// The queue with an album appended. A shuffled queue drops new arrivals at
    /// a random point among the albums not yet played, so enqueueing mid-listen
    /// does not always append to the very end.
    pub open spec fn enqueued(self, album: QueuedAlbum) -> QueueView {
        let index = self.albums.len() as usize;
        if album.tracks@.len() == 0 {
            self
        } else {
            match self.cursor {
                Some(c) if self.shuffle => {
                    let first = c.order_index + 1;
                    let span = self.order.len() - first;
                    if span == 0 {
                        QueueView {
                            albums: self.albums.push(album),
                            order: self.order.insert(first, index),
                            ..self
                        }
                    } else {
                        let at = first + picked(self.seed, span + 1);
                        QueueView {
                            albums: self.albums.push(album),
                            order: self.order.insert(at, index),
                            seed: next_seed(self.seed),
                            ..self
                        }
                    }
                },
                Some(_) => QueueView {
                    albums: self.albums.push(album),
                    order: self.order.push(index),
                    ..self
                },
                None => QueueView {
                    albums: self.albums.push(album),
                    order: self.order.push(index),
                    cursor: Self::start(),
                    ..self
                },
            }
        }
    }

    /// Nothing has been listened to yet: the cursor still stands on the very
    /// first track of the very first album, and there is no record in progress.
    pub open spec fn untouched(self) -> bool {
        self.cursor == Self::start()
    }

    /// The queue with album shuffle turned on or off. Turning it on reorders the
    /// albums that have not played yet and leaves the current one where it is;
    /// before anything has been listened to, the whole queue is shuffled.
    /// Turning it off restores release order. The cursor stays on its album.
    pub open spec fn shuffled(self, on: bool) -> QueueView {
        if self.shuffle == on {
            self
        } else if on {
            let from = match self.cursor {
                Some(c) if !self.untouched() => c.order_index + 1,
                _ => 0,
            };
            let deal = dealt(self.order, self.seed, from, self.order.len() - 1);
            QueueView { order: deal.0, seed: deal.1, shuffle: true, ..self }
        } else {
            QueueView {
                order: Seq::new(self.albums.len(), |i: int| i as usize),
                cursor: match self.cursor {
                    Some(c) if !self.untouched() => Some(
                        Cursor { order_index: self.order[c.order_index as int], ..c },
                    ),
                    other => other,
                },
                shuffle: false,
                ..self
            }
        }
    }

    /// Where the cursor lands after the current track finishes naturally.
    pub open spec fn next_cursor(self) -> Option<Cursor> {
        match self.cursor {
            Some(c) => if c.track_index + 1 < self.album_at(c.order_index as int).tracks@.len() {
                Some(Cursor { track_index: (c.track_index + 1) as usize, ..c })
            } else if self.repeat == Repeat::Album {
                Some(Cursor { track_index: 0, ..c })
            } else {
                self.album_after(c)
            },
            None => None,
        }
    }

    /// The start of the album after the cursor's, wrapping around when the whole
    /// queue repeats.
    pub open spec fn album_after(self, c: Cursor) -> Option<Cursor> {
        if c.order_index + 1 < self.order.len() {
            Some(Cursor { order_index: (c.order_index + 1) as usize, track_index: 0 })
        } else if self.repeat == Repeat::Queue {
            Self::start()
        } else {
            None
        }
    }

    /// Where the next-track control goes: like a natural finish, but it does not
    /// stay in a looping album.
    pub open spec fn skip_cursor(self) -> Option<Cursor> {
        match self.cursor {
            Some(c) => if c.track_index + 1 < self.album_at(c.order_index as int).tracks@.len() {
                Some(Cursor { track_index: (c.track_index + 1) as usize, ..c })
            } else {
                self.album_after(c)
            },
            None => None,
        }
    }

    /// Where the next-album control goes.
    pub open spec fn next_album_cursor(self) -> Option<Cursor> {
        match self.cursor {
            Some(c) => self.album_after(c),
            None => None,
        }
    }

    /// Where the previous-track control goes: one track back, crossing into the
    /// previous album's last track.
    pub open spec fn back_cursor(self) -> Option<Cursor> {
        match self.cursor {
            Some(c) => if c.track_index > 0 {
                Some(Cursor { track_index: (c.track_index - 1) as usize, ..c })
            } else if c.order_index == 0 {
                None
            } else {
                Some(
                    Cursor {
                        order_index: (c.order_index - 1) as usize,
                        track_index: (self.album_at(c.order_index - 1).tracks@.len() - 1) as usize,
                    },
                )
            },
            None => None,
        }
    }

    /// Where the previous-album control goes: to the start of the current album
    /// when partway into it, else to the start of the one before.
    pub open spec fn prev_album_cursor(self) -> Option<Cursor> {
        match self.cursor {
            Some(c) => if c.track_index > 0 {
                Some(Cursor { track_index: 0, ..c })
            } else if c.order_index == 0 {
                None
            } else {
                Some(Cursor { order_index: (c.order_index - 1) as usize, track_index: 0 })
            },
            None => None,
        }
    }

    /// Where a jump to a track of the current album goes.
    pub open spec fn seek_cursor(self, track_index: usize) -> Option<Cursor> {
        match self.cursor {
            Some(c) => if track_index < self.album_at(c.order_index as int).tracks@.len() {
                Some(Cursor { track_index, ..c })
            } else {
                None
            },
            None => None,
        }
    }

    /// The albums from the current one on, in play order.
    pub open spec fn coming_up(self) -> Seq<QueuedAlbum> {
        let from = match self.cursor {
            Some(c) => c.order_index as int,
            None => 0,
        };
        Seq::new((self.order.len() - from) as nat, |k: int| self.album_at(from + k))
    }

    /// The queue after a move: at the new place, or unchanged when there is none
    /// to go to.
    pub open spec fn moved(self, to: Option<Cursor>) -> QueueView {
        match to {
            Some(c) => QueueView { cursor: Some(c), ..self },
            None => self,
        }
    }
}

/// The seed that a reading of the clock gives.
pub open spec fn seed_from(clock: Option<u64>) -> u64 {
    match clock {
        Some(nanos) => nanos | 1,
        None => SCRAMBLE | 1,
    }
}

/// Reads the system clock through `SystemTime::elapsed` on the Unix epoch, in
/// nanoseconds cut to 64 bits; nothing when the clock stands before the epoch.
/// What the clock shows is not promised.
#[verifier::external_body]
pub(crate) fn clock_nanos() -> (r: Option<u64>) {
    std::time::UNIX_EPOCH.elapsed().ok().map(|d| d.as_nanos() as u64)
}

/// One step of xorshift64*, adequate for shuffling a few hundred albums: the
/// number drawn, and the state after it.
fn draw(x: u64) -> (r: (u64, u64))
    ensures
        r == (drawn(x), next_seed(x)),
{
    let a: u64 = x ^ (x >> 12);
    let b: u64 = a ^ (a << 25);
    let c: u64 = b ^ (b >> 27);
    (c.wrapping_mul(SCRAMBLE), c)
}

/// A random number below `m`, and the state after it.
fn pick(seed: u64, m: usize) -> (r: (usize, u64))
    requires
        m > 0,
    ensures
        r.0 == picked(seed, m as int),
        r.0 < m,
        r.1 == next_seed(seed),
{
    let (number, next) = draw(seed);
    let d: usize = number as usize;
    (d % m, next)
}

/// Fisher-Yates over `items[from..]`, using an internal generator so that tests
/// are deterministic and no outside dependency is needed. The state of the
/// generator is handed back.
pub(crate) fn deal<T: Copy>(items: &mut Vec<T>, seed: u64, from: usize) -> (r: u64)
    ensures
        (final(items)@, r) == dealt(old(items)@, seed, from as int, old(items)@.len() - 1),
{
    if items.len() == 0 || from >= items.len() - 1 {
        return seed;
    }
    let ghost start = items@;
    let ghost end = dealt(start, seed, from as int, start.len() - 1);
    let n: usize = items.len();
    let mut state: u64 = seed;
    let mut i: usize = n - 1;
    while i > from
        invariant
            n == items@.len(),
            from <= i < items@.len(),
            end == dealt(items@, state, from as int, i as int),
        decreases i,
    {
        let ghost before = items@;
        let (k, next) = pick(state, i - from + 1);
        let j: usize = from + k;
        let a = items[i];
        let b = items[j];
        items.set(i, b);
        items.set(j, a);
        assert(items@ == exchanged(before, i as int, j as int));
        state = next;
        i -= 1;
    }
    state
}

proof fn lemma_picked(seed: u64, m: int)
    requires
        m > 0,
    ensures
        0 <= picked(seed, m) < m,
{
    let d = (drawn(seed) as usize) as int;
    assert(0 <= d % m < m) by (nonlinear_arith)
        requires
            m > 0,
    ;
}

proof fn lemma_dealt(order: Seq<usize>, seed: u64, from: int, i: int, n: nat)
    requires
        is_permutation(order, n),
        0 <= from,
        i < order.len(),
    ensures
        is_permutation(dealt(order, seed, from, i).0, n),
        forall|k: int|
            0 <= k < from && k < n ==> #[trigger] dealt(order, seed, from, i).0[k] == order[k],
    decreases i - from,
{
    if i > from {
        let j = from + picked(seed, i - from + 1);
        lemma_picked(seed, i - from + 1);
        let next = exchanged(order, i, j);
        assert(is_permutation(next, n));
        lemma_dealt(next, next_seed(seed), from, i - 1, n);
        assert forall|k: int| 0 <= k < from && k < n implies #[trigger] dealt(
            order,
            seed,
            from,
            i,
        ).0[k] == order[k] by {
            assert(next[k] == order[k]);
        }
    }
}

proof fn lemma_insert_permutation(order: Seq<usize>, at: int, n: nat)
    requires
        is_permutation(order, n),
        0 <= at <= order.len(),
        n < usize::MAX,
    ensures
        is_permutation(order.insert(at, n as usize), n + 1),
{
    let out = order.insert(at, n as usize);
    assert forall|i: int, j: int| 0 <= i < j < out.len() implies #[trigger] out[i]
        != #[trigger] out[j] by {
        let a = if i < at {
            i
        } else {
            i - 1
        };
        let b = if j < at {
            j
        } else {
            j - 1
        };
        if i != at {
            assert(out[i] == order[a]);
        }
        if j != at {
            assert(out[j] == order[b]);
        }
    }
    assert forall|i: int| 0 <= i < out.len() implies (#[trigger] out[i]) < n + 1 by {
        if i < at {
            assert(out[i] == order[i]);
        } else if i > at {
            assert(out[i] == order[i - 1]);
        }
    }
}

impl AlbumQueue {
    /// An empty queue that shuffles from the given seed.
    pub fn with_seed(seed: u64) -> (r: AlbumQueue)
        ensures
            r@ == QueueView::empty(seed | 1),
            r@.well_formed(),
    {
        let r = AlbumQueue {
            albums: Vec::new(),
            order: Vec::new(),
            cursor: None,
            shuffle: false,
            repeat: Repeat::Off,
            seed: seed | 1,
        };
        assert(r@ =~= QueueView::empty(seed | 1));
        r
    }

    /// An empty queue, seeded from the clock; otherwise shuffle would deal the
    /// same order on every run, which is not shuffle.
    pub fn new() -> (r: AlbumQueue)
        ensures
            exists|clock: Option<u64>| r@ == QueueView::empty(seed_from(clock)),
            r@.well_formed(),
    {
        let clock = clock_nanos();
        let seed: u64 = match clock {
            Some(nanos) => nanos,
            None => SCRAMBLE,
        };
        let r = AlbumQueue::with_seed(seed);
        assert(r@ == QueueView::empty(seed_from(clock)));
        r
    }

    /// Deal out what stands behind a position of the play order.
    fn shuffle_tail(&mut self, from: usize)
        requires
            is_permutation(old(self)@.order, old(self)@.albums.len()),
        ensures
            ({
                let deal = dealt(
                    old(self)@.order,
                    old(self)@.seed,
                    from as int,
                    old(self)@.order.len() - 1,
                );
                final(self)@ == (QueueView { order: deal.0, seed: deal.1, ..old(self)@ })
            }),
    {
        let seed: u64 = self.seed;
        self.seed = deal(&mut self.order, seed, from);
    }

    /// Append an album to the end of the queue.
    pub fn enqueue(&mut self, album: QueuedAlbum)
        requires
            old(self)@.well_formed(),
            old(self)@.albums.len() < usize::MAX,
        ensures
            final(self)@ == old(self)@.enqueued(album),
            final(self)@.well_formed(),
    {
        if album.tracks.len() == 0 {
            return;
        }
        let ghost start = self@;
        let index: usize = self.albums.len();
        self.albums.push(album);
        proof {
            assert(start.albums.push(album).len() == index + 1);
        }
        match self.cursor {
            Some(c) => {
                let at: usize = if self.shuffle {
                    let first: usize = c.order_index + 1;
                    let span: usize = self.order.len() - first;
                    if span == 0 {
                        first
                    } else {
                        let (k, next) = pick(self.seed, span + 1);
                        self.seed = next;
                        first + k
                    }
                } else {
                    self.order.len()
                };
                let ghost before = self.order@;
                self.order.insert(at, index);
                proof {
                    lemma_insert_permutation(start.order, at as int, index as nat);
                    assert(before == start.order);
                    if !start.shuffle {
                        assert(start.order.insert(at as int, index) =~= start.order.push(index));
                    }
                    let out = start.order.insert(at as int, index);
                    assert(at > c.order_index);
                    assert(out[c.order_index as int] == start.order[c.order_index as int]);
                }
            },
            None => {
                self.order.push(index);
                self.cursor = Some(Cursor { order_index: 0, track_index: 0 });
                proof {
                    lemma_insert_permutation(start.order, start.order.len() as int, index as nat);
                    assert(start.order.insert(start.order.len() as int, index) =~= start.order.push(
                        index,
                    ));
                }
            },
        }
        assert(self@ =~= start.enqueued(album));
    }

    pub fn clear(&mut self)
        ensures
            final(self)@ == old(self)@.cleared(),
            final(self)@.well_formed(),
    {
        let ghost start = self@;
        self.albums = Vec::new();
        self.order = Vec::new();
        self.cursor = None;
        assert(self@ =~= start.cleared());
    }

    /// Replace the queue with a single album and start at its first track.
    pub fn play_album(&mut self, album: QueuedAlbum)
        ensures
            final(self)@ == old(self)@.cleared().enqueued(album),
            final(self)@.well_formed(),
    {
        self.clear();
        self.enqueue(album);
    }

    pub fn is_empty(&self) -> (r: bool)
        ensures
            r == (self@.order.len() == 0),
    {
        self.order.len() == 0
    }

    pub fn album_count(&self) -> (r: usize)
        ensures
            r == self@.order.len(),
    {
        self.order.len()
    }

    pub fn cursor(&self) -> (r: Option<Cursor>)
        ensures
            r == self@.cursor,
    {
        self.cursor
    }

    pub fn repeat(&self) -> (r: Repeat)
        ensures
            r == self@.repeat,
    {
        self.repeat
    }

    pub fn set_repeat(&mut self, repeat: Repeat)
        ensures
            final(self)@ == (QueueView { repeat, ..old(self)@ }),
            old(self)@.well_formed() ==> final(self)@.well_formed(),
    {
        self.repeat = repeat;
    }

    pub fn shuffle_enabled(&self) -> (r: bool)
        ensures
            r == self@.shuffle,
    {
        self.shuffle
    }

    /// Seed the shuffle. Only useful for reproducible tests.
    pub fn set_seed(&mut self, seed: u64)
        ensures
            final(self)@ == (QueueView { seed: seed | 1, ..old(self)@ }),
            old(self)@.well_formed() ==> final(self)@.well_formed(),
    {
        self.seed = seed | 1;
    }

    /// Turn album shuffle on or off.
    ///
    /// Enabling reorders the albums that have not played yet and leaves the
    /// current one where it is, so the record you are listening to is not
    /// yanked out from under you. Disabling restores release order.
    pub fn set_shuffle(&mut self, shuffle: bool)
        requires
            old(self)@.well_formed(),
        ensures
            final(self)@ == old(self)@.shuffled(shuffle),
            final(self)@.well_formed(),
    {
        if self.shuffle == shuffle {
            return;
        }
        let ghost start = self@;
        self.shuffle = shuffle;
        // Nothing has been listened to yet if we are still sitting on the very
        // first track of the very first album. In that case the whole queue gets
        // shuffled; otherwise turning on shuffle before pressing play would
        // always start you on the same album.
        let in_progress = match self.cursor {
            Some(c) => if c.order_index == 0 && c.track_index == 0 {
                None
            } else {
                Some(c)
            },
            None => None,
        };
        assert(in_progress is None <==> start.untouched() || start.cursor is None);
        if shuffle {
            let n: usize = self.order.len();
            let from: usize = match in_progress {
                Some(c) => c.order_index + 1,
                None => 0,
            };
            self.shuffle_tail(from);
            proof {
                lemma_dealt(
                    start.order,
                    start.seed,
                    from as int,
                    start.order.len() - 1,
                    start.albums.len(),
                );
            }
            assert(self@ =~= start.shuffled(shuffle));
        } else {
            let n: usize = self.albums.len();
            let mut order: Vec<usize> = Vec::new();
            for i in 0..n
                invariant
                    order@.len() == i,
                    forall|k: int| 0 <= k < i ==> #[trigger] order@[k] == k,
            {
                order.push(i);
            }
            if let Some(c) = in_progress {
                self.cursor = Some(
                    Cursor { order_index: self.order[c.order_index], track_index: c.track_index },
                );
            }
            self.order = order;
            assert(self@.order =~= start.shuffled(shuffle).order);
            assert(self@ =~= start.shuffled(shuffle));
        }
    }

    pub fn current_album(&self) -> (r: Option<&QueuedAlbum>)
        requires
            self@.well_formed(),
        ensures
            match r {
                Some(a) => self@.current_album() == Some(*a),
                None => self@.current_album() is None,
            },
    {
        match self.cursor {
            Some(c) => Some(&self.albums[self.order[c.order_index]]),
            None => None,
        }
    }

    pub fn current_track(&self) -> (r: Option<&QueuedTrack>)
        requires
            self@.well_formed(),
        ensures
            match r {
                Some(t) => self@.current_track() == Some(*t),
                None => self@.current_track() is None,
            },
    {
        match self.cursor {
            Some(c) => Some(&self.albums[self.order[c.order_index]].tracks[c.track_index]),
            None => None,
        }
    }

    /// The track that will play after this one, without moving the cursor.
    ///
    /// This is what makes gapless playback possible: the next file has to be
    /// handed to the pipeline before the current one finishes.
    pub fn peek_next(&self) -> (r: Option<&QueuedTrack>)
        requires
            self@.well_formed(),
        ensures
            match r {
                Some(t) => self@.next_cursor() is Some && self@.moved(
                    self@.next_cursor(),
                ).current_track() == Some(*t),
                None => self@.next_cursor() is None,
            },
    {
        match self.next_cursor() {
            Some(c) => Some(&self.albums[self.order[c.order_index]].tracks[c.track_index]),
            None => None,
        }
    }

    /// Where the cursor would land after the current track finishes naturally.
    fn next_cursor(&self) -> (r: Option<Cursor>)
        requires
            self@.well_formed(),
        ensures
            r == self@.next_cursor(),
            self@.moved(r).well_formed(),
    {
        let c = match self.cursor {
            Some(c) => c,
            None => {
                return None;
            },
        };
        let count: usize = self.albums[self.order[c.order_index]].tracks.len();
        assert(count == self@.album_at(c.order_index as int).tracks@.len());
        if c.track_index + 1 < count {
            Some(Cursor { order_index: c.order_index, track_index: c.track_index + 1 })
        } else if self.repeat == Repeat::Album {
            Some(Cursor { order_index: c.order_index, track_index: 0 })
        } else {
            self.album_after(c)
        }
    }

    fn album_after(&self, c: Cursor) -> (r: Option<Cursor>)
        requires
            self@.well_formed(),
            self@.cursor == Some(c),
        ensures
            r == self@.album_after(c),
            self@.moved(r).well_formed(),
    {
        assert(self@.albums[self@.order[0] as int].tracks@.len() > 0);
        let n: usize = self.order.len();
        if c.order_index + 1 < n {
            assert(self@.albums[self@.order[c.order_index + 1] as int].tracks@.len() > 0);
            Some(Cursor { order_index: c.order_index + 1, track_index: 0 })
        } else if self.repeat == Repeat::Queue {
            Some(Cursor { order_index: 0, track_index: 0 })
        } else {
            None
        }
    }

    /// Go to a place, when there is one; whether the queue moved.
    fn go(&mut self, to: Option<Cursor>) -> (r: bool)
        ensures
            r == (to is Some),
            final(self)@ == old(self)@.moved(to),
    {
        match to {
            Some(c) => {
                self.cursor = Some(c);
                true
            },
            None => false,
        }
    }

    /// Advance as if the current track played to its end.
    ///
    /// Returns false when the queue is exhausted, which is the signal to stop.
    pub fn advance(&mut self) -> (r: bool)
        requires
            old(self)@.well_formed(),
        ensures
            r == (old(self)@.next_cursor() is Some),
            final(self)@ == old(self)@.moved(old(self)@.next_cursor()),
            final(self)@.well_formed(),
    {
        let to = self.next_cursor();
        self.go(to)
    }

    /// User pressed next-track. Same movement as a natural finish, except that
    /// it ignores a looping album: asking for the next track at the end of one
    /// should move on, not restart it.
    pub fn next_track(&mut self) -> (r: bool)
        requires
            old(self)@.well_formed(),
        ensures
            r == (old(self)@.skip_cursor() is Some),
            final(self)@ == old(self)@.moved(old(self)@.skip_cursor()),
            final(self)@.well_formed(),
    {
        let to = match self.cursor {
            Some(c) => {
                let count: usize = self.albums[self.order[c.order_index]].tracks.len();
                assert(count == self@.album_at(c.order_index as int).tracks@.len());
                if c.track_index + 1 < count {
                    Some(Cursor { order_index: c.order_index, track_index: c.track_index + 1 })
                } else {
                    self.album_after(c)
                }
            },
            None => None,
        };
        self.go(to)
    }

    /// Step back one track, crossing into the previous album's last track.
    pub fn prev_track(&mut self) -> (r: bool)
        requires
            old(self)@.well_formed(),
        ensures
            r == (old(self)@.back_cursor() is Some),
            final(self)@ == old(self)@.moved(old(self)@.back_cursor()),
            final(self)@.well_formed(),
    {
        let to = match self.cursor {
            Some(c) => {
                if c.track_index > 0 {
                    Some(Cursor { order_index: c.order_index, track_index: c.track_index - 1 })
                } else if c.order_index == 0 {
                    None
                } else {
                    let count: usize = self.albums[self.order[c.order_index - 1]].tracks.len();
                    assert(self@.albums[self@.order[c.order_index - 1] as int].tracks@.len() > 0);
                    Some(Cursor { order_index: c.order_index - 1, track_index: count - 1 })
                }
            },
            None => None,
        };
        self.go(to)
    }

    /// Jump to the start of the next album. A separate control from next-track
    /// on purpose: in an album-first player these are different intentions.
    pub fn next_album(&mut self) -> (r: bool)
        requires
            old(self)@.well_formed(),
        ensures
            r == (old(self)@.next_album_cursor() is Some),
            final(self)@ == old(self)@.moved(old(self)@.next_album_cursor()),
            final(self)@.well_formed(),
    {
        let to = match self.cursor {
            Some(c) => self.album_after(c),
            None => None,
        };
        self.go(to)
    }

    /// Jump to the start of the previous album, or restart the current one if
    /// we are already partway into it.
    pub fn prev_album(&mut self) -> (r: bool)
        requires
            old(self)@.well_formed(),
        ensures
            r == (old(self)@.prev_album_cursor() is Some),
            final(self)@ == old(self)@.moved(old(self)@.prev_album_cursor()),
            final(self)@.well_formed(),
    {
        let to = match self.cursor {
            Some(c) => {
                assert(self@.albums[self@.order[c.order_index as int] as int].tracks@.len() > 0);
                if c.track_index > 0 {
                    Some(Cursor { order_index: c.order_index, track_index: 0 })
                } else if c.order_index == 0 {
                    None
                } else {
                    assert(self@.albums[self@.order[c.order_index - 1] as int].tracks@.len() > 0);
                    Some(Cursor { order_index: c.order_index - 1, track_index: 0 })
                }
            },
            None => None,
        };
        self.go(to)
    }

    /// Jump directly to a track within the current album.
    pub fn seek_to_track(&mut self, track_index: usize) -> (r: bool)
        requires
            old(self)@.well_formed(),
        ensures
            r == (old(self)@.seek_cursor(track_index) is Some),
            final(self)@ == old(self)@.moved(old(self)@.seek_cursor(track_index)),
            final(self)@.well_formed(),
    {
        let to = match self.cursor {
            Some(c) => {
                let count: usize = self.albums[self.order[c.order_index]].tracks.len();
                assert(count == self@.album_at(c.order_index as int).tracks@.len());
                if track_index < count {
                    Some(Cursor { order_index: c.order_index, track_index })
                } else {
                    None
                }
            },
            None => None,
        };
        self.go(to)
    }

    /// The albums in play order from the one now playing, for showing "up next".
    pub fn upcoming(&self) -> (r: Vec<&QueuedAlbum>)
        requires
            self@.well_formed(),
        ensures
            r@.len() == self@.coming_up().len(),
            forall|k: int| 0 <= k < r@.len() ==> *(#[trigger] r@[k]) == self@.coming_up()[k],
    {
        let from: usize = match self.cursor {
            Some(c) => c.order_index,
            None => 0,
        };
        let mut out: Vec<&QueuedAlbum> = Vec::new();
        for i in from..self.order.len()
            invariant
                self@.well_formed(),
                from <= self@.order.len(),
                out@.len() == i - from,
                forall|k: int| 0 <= k < i - from ==> *(#[trigger] out@[k]) == self@.album_at(from + k),
        {
            assert(self@.order[i as int] < self@.albums.len());
            out.push(&self.albums[self.order[i]]);
        }
        out
    }
}

/// Enabling shuffle mid-listen keeps the current album and track, and everything
/// before it; no shuffle ever loses, repeats or touches an album.
pub proof fn shuffle_keeps_your_place(q: QueueView, on: bool)
    requires
        q.well_formed(),
        !q.untouched(),
    ensures
        q.shuffled(on).current_album() == q.current_album(),
        q.shuffled(on).current_track() == q.current_track(),
        q.shuffled(on).albums == q.albums,
        is_permutation(q.shuffled(on).order, q.albums.len()),
{
    if let Some(c) = q.cursor {
        if on && !q.shuffle {
            lemma_dealt(
                q.order,
                q.seed,
                c.order_index + 1,
                q.order.len() - 1,
                q.albums.len(),
            );
            assert(q.shuffled(on).order[c.order_index as int] == q.order[c.order_index as int]);
        }
    } else if on {
        lemma_dealt(q.order, q.seed, 0, q.order.len() - 1, q.albums.len());
    }
}

/// Before anything has been listened to, shuffling also loses, repeats and
/// touches no album, and the queue then starts with the first album dealt.
pub proof fn a_fresh_shuffle_deals_every_album(q: QueueView)
    requires
        q.well_formed(),
        q.untouched(),
    ensures
        q.shuffled(true).albums == q.albums,
        is_permutation(q.shuffled(true).order, q.albums.len()),
        q.shuffled(true).cursor == q.cursor,
{
    lemma_dealt(q.order, q.seed, 0, q.order.len() - 1, q.albums.len());
}

/// Turning shuffle off restores the order in which the albums were queued.
pub proof fn unshuffling_restores_release_order(q: QueueView)
    requires
        q.well_formed(),
        q.shuffle,
    ensures
        q.shuffled(false).order.len() == q.albums.len(),
        forall|i: int|
            0 <= i < q.albums.len() ==> #[trigger] q.shuffled(false).album_at(i) == q.albums[i],
{
    assert forall|i: int| 0 <= i < q.albums.len() implies #[trigger] q.shuffled(false).album_at(i)
        == q.albums[i] by {
        assert(q.order[i] < q.albums.len());
    }
}

/// How many tracks the first `n` albums of the play order hold.
pub open spec fn tracks_before(q: QueueView, n: int) -> int
    decreases n,
{
    if n <= 0 {
        0
    } else {
        tracks_before(q, n - 1) + q.album_at(n - 1).tracks@.len()
    }
}

/// How many tracks play before the one under the cursor.
pub open spec fn place_of(q: QueueView, c: Cursor) -> int {
    tracks_before(q, c.order_index as int) + c.track_index
}

proof fn lemma_tracks_before_grows(q: QueueView, m: int, n: int)
    requires
        q.well_formed(),
        0 <= m <= n <= q.order.len(),
    ensures
        tracks_before(q, m) <= tracks_before(q, n),
    decreases n - m,
{
    if m < n {
        lemma_tracks_before_grows(q, m, n - 1);
    }
}

/// Without repeat, finishing a track goes to the very next one: album by album,
/// each in its own order, until the last track of the last album.
pub proof fn advancing_plays_the_queue_in_turn(q: QueueView)
    requires
        q.well_formed(),
        q.repeat == Repeat::Off,
        q.cursor is Some,
    ensures
        q.next_cursor() matches Some(c) ==> place_of(q, c) == place_of(q, q.cursor.unwrap()) + 1,
        q.next_cursor() is None <==> place_of(q, q.cursor.unwrap()) + 1 == tracks_before(
            q,
            q.order.len() as int,
        ),
{
    let c = q.cursor.unwrap();
    assert(tracks_before(q, c.order_index + 1) == tracks_before(q, c.order_index as int)
        + q.album_at(c.order_index as int).tracks@.len());
    lemma_tracks_before_grows(q, c.order_index + 1, q.order.len() as int);
    if c.order_index + 1 < q.order.len() {
        assert(q.albums[q.order[c.order_index + 1] as int].tracks@.len() > 0);
        lemma_tracks_before_grows(q, c.order_index + 2, q.order.len() as int);
        assert(tracks_before(q, c.order_index + 2) == tracks_before(q, c.order_index + 1)
            + q.album_at(c.order_index + 1).tracks@.len());
    }
}

/// Stepping back undoes stepping forward, except across the wrap from the last
/// album to the first.
pub proof fn back_undoes_next(q: QueueView)
    requires
        q.well_formed(),
        q.skip_cursor() is Some,
        q.skip_cursor() != QueueView::start(),
    ensures
        q.moved(q.skip_cursor()).back_cursor() == q.cursor,
{
}

/// A looping album loops when its last track finishes, and does not hold back a
/// deliberate skip.
pub proof fn a_looping_album_loops_and_lets_go(q: QueueView)
    requires
        q.well_formed(),
        q.cursor is Some,
        q.repeat == Repeat::Album,
        q.cursor.unwrap().track_index + 1 == q.current_album().unwrap().tracks@.len(),
    ensures
        q.next_cursor() == Some(Cursor { track_index: 0, ..q.cursor.unwrap() }),
        q.skip_cursor() == q.next_album_cursor(),
{
}

/// A deal neither drops nor repeats anything: it only changes the order.
pub proof fn dealing_keeps_every_item<T>(items: Seq<T>, seed: u64, from: int, i: int)
    requires
        0 <= from,
        i < items.len(),
    ensures
        dealt(items, seed, from, i).0.to_multiset() == items.to_multiset(),
    decreases i - from,
{
    if i > from {
        let j = from + picked(seed, i - from + 1);
        lemma_picked(seed, i - from + 1);
        let next = exchanged(items, i, j);
        broadcast use {
            vstd::seq_lib::group_to_multiset_ensures,
            vstd::multiset::group_multiset_axioms,
        };

        assert(next.to_multiset() =~= items.to_multiset());
        dealing_keeps_every_item(next, next_seed(seed), from, i - 1);
    }
}

} // verus!
