//! What survives a move: a library mounted elsewhere, or a folder under another
//! name, keeps the identities that its play history hangs on.

use vstd::prelude::*;

use crate::group;
use crate::group::{BucketView, FolderOrder, ListingView, PlayOrder, ShelfOrder};
use crate::model::{AlbumDraft, DraftView, IdentitySource, TrackMeta};
use crate::order;
use crate::order::Order;
use crate::path;
use crate::path::PathView;
use crate::util;

verus! {

/// A directory moved, with everything below it, from one place to another.
pub struct Move {
    pub from: PathView,
    pub to: PathView,
}

impl Move {
    /// `q` is where `p`, a path below the directory, lies after the move.
    pub open spec fn takes(self, p: PathView, q: PathView) -> bool {
        &&& p.extends(self.from)
        &&& q.rooted == self.to.rooted
        &&& q.parts == self.to.parts + p.parts.skip(self.from.parts.len() as int)
    }

    /// The same file with the same tags, under the path it lies at after the
    /// move.
    pub open spec fn takes_track(self, t: TrackMeta, u: TrackMeta) -> bool {
        &&& self.takes(t.path@, u.path@)
        &&& u == TrackMeta { path: u.path, ..t }
    }

    /// The same files in the same order.
    pub open spec fn takes_tracks(self, before: Seq<TrackMeta>, after: Seq<TrackMeta>) -> bool {
        &&& before.len() == after.len()
        &&& forall|i: int| 0 <= i < before.len() ==> #[trigger] self.takes_track(before[i], after[i])
    }

    /// The same directories in the same order.
    pub open spec fn takes_paths(self, before: Seq<PathView>, after: Seq<PathView>) -> bool {
        &&& before.len() == after.len()
        &&& forall|i: int| 0 <= i < before.len() ==> #[trigger] self.takes(before[i], after[i])
    }

    /// The same album, its files under the paths they lie at after the move.
    pub open spec fn takes_album(self, d: DraftView, e: DraftView) -> bool {
        &&& e.group_key == d.group_key
        &&& e.identity == d.identity
        &&& e.title == d.title
        &&& e.album_artist == d.album_artist
        &&& e.year == d.year
        &&& e.mb_album_id == d.mb_album_id
        &&& e.is_compilation == d.is_compilation
        &&& e.source_dirs == d.source_dirs
        &&& self.takes_tracks(d.tracks, e.tracks)
    }

    /// The same albums in the same order.
    pub open spec fn takes_albums(self, ds: Seq<DraftView>, es: Seq<DraftView>) -> bool {
        &&& ds.len() == es.len()
        &&& forall|i: int| 0 <= i < ds.len() ==> #[trigger] self.takes_album(ds[i], es[i])
    }
}

/// A path that lies strictly below one of the library roots.
pub open spec fn inside(p: PathView, roots: Seq<PathView>) -> bool {
    exists|k: int|
        0 <= k < roots.len() && p.starts_with(#[trigger] roots[k]) && p.parts.len()
            > roots[k].parts.len()
}

proof fn lemma_order_below(h: Seq<Seq<char>>, x: Seq<Seq<char>>, y: Seq<Seq<char>>)
    ensures
        path::parts_before(h + x, h + y) == path::parts_before(x, y),
    decreases h.len(),
{
    if h.len() == 0 {
        assert(h + x =~= x);
        assert(h + y =~= y);
    } else {
        assert((h + x).drop_first() =~= h.drop_first() + x);
        assert((h + y).drop_first() =~= h.drop_first() + y);
        lemma_order_below(h.drop_first(), x, y);
    }
}

/// A move keeps apart what was apart, and in the order it was in.
proof fn lemma_takes(m: Move, p: PathView, q: PathView, u: PathView, v: PathView)
    requires
        m.takes(p, q),
        m.takes(u, v),
    ensures
        (p == u) == (q == v),
        path::path_before(p, u) == path::path_before(q, v),
{
    let n = m.from.parts.len() as int;
    let x = p.parts.skip(n);
    let y = u.parts.skip(n);
    assert(p.parts =~= m.from.parts + x);
    assert(u.parts =~= m.from.parts + y);
    lemma_order_below(m.from.parts, x, y);
    lemma_order_below(m.to.parts, x, y);
    if q == v {
        assert forall|i: int| 0 <= i < x.len() implies x[i] == y[i] by {
            assert(q.parts[m.to.parts.len() + i] == x[i]);
            assert(v.parts[m.to.parts.len() + i] == y[i]);
        }
        assert(x =~= y);
    }
}

/// Lists whose elements pair off sort alike when the pairs compare alike.
proof fn lemma_sorted_alike<T, O: Order<T>>(
    s: Seq<O::Model>,
    t: Seq<O::Model>,
    pair: spec_fn(O::Model, O::Model) -> bool,
)
    requires
        s.len() == t.len(),
        forall|i: int| 0 <= i < s.len() ==> #[trigger] pair(s[i], t[i]),
        forall|a: O::Model, b: O::Model, c: O::Model, d: O::Model|
            #![trigger pair(a, c), pair(b, d)]
            pair(a, c) && pair(b, d) ==> O::less(a, b) == O::less(c, d),
    ensures
        order::sorted::<T, O>(s).len() == s.len(),
        order::sorted::<T, O>(t).len() == s.len(),
        forall|i: int|
            0 <= i < s.len() ==> #[trigger] pair(
                order::sorted::<T, O>(s)[i],
                order::sorted::<T, O>(t)[i],
            ),
    decreases s.len(),
{
    if s.len() > 0 {
        let (x, y) = (s.last(), t.last());
        assert(pair(s[s.len() - 1], t[s.len() - 1]));
        assert forall|i: int| 0 <= i < s.len() - 1 implies #[trigger] pair(
            s.drop_last()[i],
            t.drop_last()[i],
        ) by {
            assert(pair(s[i], t[i]));
        }
        lemma_sorted_alike::<T, O>(s.drop_last(), t.drop_last(), pair);
        let a = order::sorted::<T, O>(s.drop_last());
        let b = order::sorted::<T, O>(t.drop_last());
        lemma_place_alike::<T, O>(a, b, x, y, 0, pair);
        let p = order::place::<T, O>(a, x, 0);
        assert forall|i: int| 0 <= i < s.len() implies #[trigger] pair(
            a.insert(p, x)[i],
            b.insert(p, y)[i],
        ) by {
            if i < p {
                assert(pair(a[i], b[i]));
            } else if i > p {
                assert(pair(a[i - 1], b[i - 1]));
            }
        }
    }
}

proof fn lemma_place_alike<T, O: Order<T>>(
    a: Seq<O::Model>,
    b: Seq<O::Model>,
    x: O::Model,
    y: O::Model,
    i: int,
    pair: spec_fn(O::Model, O::Model) -> bool,
)
    requires
        0 <= i <= a.len(),
        a.len() == b.len(),
        pair(x, y),
        forall|k: int| 0 <= k < a.len() ==> #[trigger] pair(a[k], b[k]),
        forall|a: O::Model, b: O::Model, c: O::Model, d: O::Model|
            #![trigger pair(a, c), pair(b, d)]
            pair(a, c) && pair(b, d) ==> O::less(a, b) == O::less(c, d),
    ensures
        order::place::<T, O>(a, x, i) == order::place::<T, O>(b, y, i),
        i <= order::place::<T, O>(a, x, i) <= a.len(),
    decreases a.len() - i,
{
    if i < a.len() {
        assert(pair(a[i], b[i]));
        if !O::less(x, a[i]) {
            lemma_place_alike::<T, O>(a, b, x, y, i + 1, pair);
        }
    }
}

proof fn lemma_play_order(m: Move, before: Seq<TrackMeta>, after: Seq<TrackMeta>)
    requires
        m.takes_tracks(before, after),
    ensures
        m.takes_tracks(group::in_play_order(before), group::in_play_order(after)),
{
    let pair = |t: TrackMeta, u: TrackMeta| m.takes_track(t, u);
    assert forall|a: TrackMeta, b: TrackMeta, c: TrackMeta, d: TrackMeta|
        #![trigger pair(a, c), pair(b, d)]
        pair(a, c) && pair(b, d) implies PlayOrder::less(a, b) == PlayOrder::less(c, d) by {
        lemma_takes(m, a.path@, c.path@, b.path@, d.path@);
    }
    assert forall|i: int| 0 <= i < before.len() implies #[trigger] pair(before[i], after[i]) by {
        assert(m.takes_track(before[i], after[i]));
    }
    lemma_sorted_alike::<TrackMeta, PlayOrder>(before, after, pair);
    let (b, a) = (group::in_play_order(before), group::in_play_order(after));
    assert forall|i: int| 0 <= i < b.len() implies #[trigger] m.takes_track(b[i], a[i]) by {
        assert(pair(b[i], a[i]));
    }
}

proof fn lemma_album_dir(m: Move, p: PathView, q: PathView, roots: Seq<PathView>)
    requires
        m.takes(p, q),
        forall|k: int| 0 <= k < roots.len() ==> (#[trigger] roots[k]).extends(m.from),
        inside(p, roots),
        inside(util::album_dir_of(p), roots),
    ensures
        m.takes(util::album_dir_of(p), util::album_dir_of(q)),
        group::folder_key(util::album_dir_of(p)) == group::folder_key(util::album_dir_of(q)),
{
    let n = m.from.parts.len() as int;
    let w = m.to.parts.len() as int;
    let d = util::album_dir_of(p);
    let e = util::album_dir_of(q);
    let k = choose|k: int|
        0 <= k < roots.len() && d.starts_with(#[trigger] roots[k]) && d.parts.len()
            > roots[k].parts.len();
    assert(roots[k].extends(m.from));
    assert(d.parts.len() > n);
    let j = choose|j: int|
        0 <= j < roots.len() && p.starts_with(#[trigger] roots[j]) && p.parts.len()
            > roots[j].parts.len();
    assert(p.parts.len() > 0);
    let up = p.parent().unwrap();
    let vp = q.parent().unwrap();
    assert(up.parts.len() > n);
    assert(vp.parts =~= m.to.parts + up.parts.skip(n));
    assert(vp.parts.last() == up.parts.last());
    assert(up.file_name() == vp.file_name());
    assert(d.rooted == p.rooted);
    assert(forall|i: int| 0 <= i < d.parts.len() ==> d.parts[i] == p.parts[i]);
    assert(m.from.parts.is_prefix_of(d.parts)) by {
        assert(m.from.parts.is_prefix_of(p.parts));
        assert(m.from.parts =~= d.parts.subrange(0, n));
    }
    assert(e.parts =~= m.to.parts + d.parts.skip(n));
    assert(e.parts.last() == d.parts.last());
}

/// The same buckets, moved, each of a directory inside the library.
spec fn takes_buckets(
    m: Move,
    roots: Seq<PathView>,
    bs: Seq<BucketView>,
    cs: Seq<BucketView>,
) -> bool {
    &&& bs.len() == cs.len()
    &&& forall|i: int| 0 <= i < bs.len() ==> #[trigger] takes_bucket(m, roots, bs[i], cs[i])
}

spec fn takes_bucket(m: Move, roots: Seq<PathView>, b: BucketView, c: BucketView) -> bool {
    &&& m.takes(b.dir, c.dir)
    &&& inside(b.dir, roots)
    &&& b.key == c.key
    &&& m.takes_tracks(b.tracks, c.tracks)
}

proof fn lemma_bucket_at(
    m: Move,
    roots: Seq<PathView>,
    bs: Seq<BucketView>,
    cs: Seq<BucketView>,
    d: PathView,
    e: PathView,
    key: Seq<char>,
    i: int,
)
    requires
        takes_buckets(m, roots, bs, cs),
        m.takes(d, e),
        0 <= i <= bs.len(),
    ensures
        group::bucket_at(bs, d, key, i) == group::bucket_at(cs, e, key, i),
        i <= group::bucket_at(bs, d, key, i) <= bs.len(),
    decreases bs.len() - i,
{
    if i < bs.len() {
        assert(takes_bucket(m, roots, bs[i], cs[i]));
        lemma_takes(m, bs[i].dir, cs[i].dir, d, e);
        if !(bs[i].dir == d && bs[i].key == key) {
            lemma_bucket_at(m, roots, bs, cs, d, e, key, i + 1);
        }
    }
}

proof fn lemma_takes_concat(
    m: Move,
    a: Seq<TrackMeta>,
    b: Seq<TrackMeta>,
    c: Seq<TrackMeta>,
    d: Seq<TrackMeta>,
)
    requires
        m.takes_tracks(a, c),
        m.takes_tracks(b, d),
    ensures
        m.takes_tracks(a + b, c + d),
{
    assert forall|i: int| 0 <= i < (a + b).len() implies #[trigger] m.takes_track(
        (a + b)[i],
        (c + d)[i],
    ) by {
        if i < a.len() {
            assert(m.takes_track(a[i], c[i]));
        } else {
            assert(m.takes_track(b[i - a.len()], d[i - a.len()]));
        }
    }
}

/// Every file, and the directory of its album, lies inside the library.
pub open spec fn all_inside(metas: Seq<TrackMeta>, roots: Seq<PathView>) -> bool {
    forall|i: int|
        0 <= i < metas.len() ==> inside((#[trigger] metas[i]).path@, roots) && inside(
            util::album_dir_of(metas[i].path@),
            roots,
        )
}

proof fn lemma_bucketed(
    m: Move,
    roots: Seq<PathView>,
    before: Seq<TrackMeta>,
    after: Seq<TrackMeta>,
)
    requires
        m.takes_tracks(before, after),
        forall|k: int| 0 <= k < roots.len() ==> (#[trigger] roots[k]).extends(m.from),
        all_inside(before, roots),
    ensures
        takes_buckets(m, roots, group::bucketed(before), group::bucketed(after)),
    decreases before.len(),
{
    if before.len() > 0 {
        let (b0, a0) = (before.drop_last(), after.drop_last());
        assert forall|i: int| 0 <= i < b0.len() implies #[trigger] m.takes_track(b0[i], a0[i]) by {
            assert(m.takes_track(before[i], after[i]));
        }
        assert forall|i: int| 0 <= i < b0.len() implies inside((#[trigger] b0[i]).path@, roots)
            && inside(util::album_dir_of(b0[i].path@), roots) by {
            assert(b0[i] == before[i]);
        }
        lemma_bucketed(m, roots, b0, a0);
        let (bs, cs) = (group::bucketed(b0), group::bucketed(a0));
        let n = before.len() - 1;
        let (t, u) = (before[n], after[n]);
        assert(m.takes_track(t, u));
        lemma_album_dir(m, t.path@, u.path@, roots);
        let (d, e) = (util::album_dir_of(t.path@), util::album_dir_of(u.path@));
        let key = group::album_key(t);
        assert(group::album_key(u) == key);
        lemma_bucket_at(m, roots, bs, cs, d, e, key, 0);
        let at = group::bucket_at(bs, d, key, 0);
        assert(m.takes_tracks(seq![t], seq![u]));
        let (out, now) = (group::filed(bs, t), group::filed(cs, u));
        assert forall|i: int| 0 <= i < out.len() implies #[trigger] takes_bucket(
            m,
            roots,
            out[i],
            now[i],
        ) by {
            if i < bs.len() {
                assert(takes_bucket(m, roots, bs[i], cs[i]));
                if i == at {
                    lemma_takes_concat(m, bs[i].tracks, seq![t], cs[i].tracks, seq![u]);
                }
            }
        }
    }
}

spec fn takes_names(
    m: Move,
    s: Seq<(PathView, Seq<char>)>,
    t: Seq<(PathView, Seq<char>)>,
) -> bool {
    &&& s.len() == t.len()
    &&& forall|i: int|
        0 <= i < s.len() ==> m.takes((#[trigger] s[i]).0, t[i].0) && s[i].1 == t[i].1
}

proof fn lemma_candidates(
    m: Move,
    roots: Seq<PathView>,
    bs: Seq<BucketView>,
    cs: Seq<BucketView>,
)
    requires
        takes_buckets(m, roots, bs, cs),
    ensures
        takes_names(m, group::candidates(bs), group::candidates(cs)),
    decreases bs.len(),
{
    if bs.len() > 0 {
        let (b0, c0) = (bs.drop_last(), cs.drop_last());
        assert forall|i: int| 0 <= i < b0.len() implies #[trigger] takes_bucket(
            m,
            roots,
            b0[i],
            c0[i],
        ) by {
            assert(takes_bucket(m, roots, bs[i], cs[i]));
        }
        lemma_candidates(m, roots, b0, c0);
        let (b, c) = (bs.last(), cs.last());
        assert(takes_bucket(m, roots, bs[bs.len() - 1], cs[bs.len() - 1]));
        assert(group::cut_short(b) == group::cut_short(c)) by {
            assert forall|i: int| 0 <= i < b.tracks.len() implies group::cut_title(
                #[trigger] b.tracks[i],
            ) == group::cut_title(c.tracks[i]) by {
                assert(m.takes_track(b.tracks[i], c.tracks[i]));
            }
            if group::cut_short(b) {
                assert forall|i: int| 0 <= i < c.tracks.len() implies group::cut_title(
                    #[trigger] c.tracks[i],
                ) by {
                    assert(group::cut_title(b.tracks[i]));
                }
            }
            if group::cut_short(c) {
                assert forall|i: int| 0 <= i < b.tracks.len() implies group::cut_title(
                    #[trigger] b.tracks[i],
                ) by {
                    assert(group::cut_title(c.tracks[i]));
                }
            }
        }
    }
}

proof fn lemma_fold_target(
    m: Move,
    roots: Seq<PathView>,
    bs: Seq<BucketView>,
    cs: Seq<BucketView>,
    d: PathView,
    e: PathView,
    short: Seq<char>,
    n: int,
)
    requires
        takes_buckets(m, roots, bs, cs),
        m.takes(d, e),
        0 <= n <= bs.len(),
    ensures
        group::fold_target(bs, d, short, n) == group::fold_target(cs, e, short, n),
        -1 <= group::fold_target(bs, d, short, n) < n || n == 0,
    decreases n,
{
    if n > 0 {
        lemma_fold_target(m, roots, bs, cs, d, e, short, n - 1);
        assert(takes_bucket(m, roots, bs[n - 1], cs[n - 1]));
        lemma_takes(m, bs[n - 1].dir, cs[n - 1].dir, d, e);
        let best = group::fold_target(bs, d, short, n - 1);
        if best >= 0 {
            assert(takes_bucket(m, roots, bs[best], cs[best]));
        }
    }
}

proof fn lemma_fold_each(
    m: Move,
    roots: Seq<PathView>,
    bs: Seq<BucketView>,
    cs: Seq<BucketView>,
    s: Seq<(PathView, Seq<char>)>,
    t: Seq<(PathView, Seq<char>)>,
)
    requires
        takes_buckets(m, roots, bs, cs),
        takes_names(m, s, t),
    ensures
        takes_buckets(m, roots, group::fold_each(bs, s), group::fold_each(cs, t)),
    decreases s.len(),
{
    if s.len() > 0 {
        assert forall|i: int| 0 <= i < s.len() - 1 implies m.takes(
            (#[trigger] s.drop_last()[i]).0,
            t.drop_last()[i].0,
        ) && s.drop_last()[i].1 == t.drop_last()[i].1 by {
            assert(s.drop_last()[i] == s[i]);
        }
        lemma_fold_each(m, roots, bs, cs, s.drop_last(), t.drop_last());
        let (b, c) = (group::fold_each(bs, s.drop_last()), group::fold_each(cs, t.drop_last()));
        let (d, e, short) = (s.last().0, t.last().0, s.last().1);
        assert(s[s.len() - 1].1 == t[s.len() - 1].1);
        lemma_fold_target(m, roots, b, c, d, e, short, b.len() as int);
        lemma_bucket_at(m, roots, b, c, d, e, short, 0);
        let to = group::fold_target(b, d, short, b.len() as int);
        let at = group::bucket_at(b, d, short, 0);
        if to >= 0 && at < b.len() {
            assert(takes_bucket(m, roots, b[to], c[to]));
            assert(takes_bucket(m, roots, b[at], c[at]));
            lemma_takes_concat(m, b[to].tracks, b[at].tracks, c[to].tracks, c[at].tracks);
            let (out, now) = (group::fold_one(b, d, short), group::fold_one(c, e, short));
            assert forall|i: int| 0 <= i < out.len() implies #[trigger] takes_bucket(
                m,
                roots,
                out[i],
                now[i],
            ) by {
                let k = if i < at {
                    i
                } else {
                    i + 1
                };
                assert(takes_bucket(m, roots, b[k], c[k]));
            }
        }
    }
}

/// The same tracks under other paths.
pub open spec fn moved(before: Seq<TrackMeta>, after: Seq<TrackMeta>) -> bool {
    &&& before.len() == after.len()
    &&& forall|i: int|
        0 <= i < before.len() ==> #[trigger] after[i] == (TrackMeta {
            path: after[i].path,
            ..before[i]
        })
}

proof fn lemma_moved_artists(before: Seq<TrackMeta>, after: Seq<TrackMeta>)
    requires
        moved(before, after),
    ensures
        group::artists(before) == group::artists(after),
        group::first_year(before) == group::first_year(after),
    decreases before.len(),
{
    if before.len() > 0 {
        let n = before.len() - 1;
        assert(after[n].artist_raw == before[n].artist_raw);
        assert forall|i: int| 0 <= i < n implies #[trigger] after.drop_last()[i] == (TrackMeta {
            path: after.drop_last()[i].path,
            ..before.drop_last()[i]
        }) by {
            assert(after[i] == after.drop_last()[i]);
        }
        lemma_moved_artists(before.drop_last(), after.drop_last());
    }
}

/// What an album's shared fields are decided by does not depend on paths.
proof fn lemma_same_tags(b: Seq<TrackMeta>, a: Seq<TrackMeta>)
    requires
        moved(b, a),
    ensures
        group::titles(b) == group::titles(a),
        group::release_ids(b) == group::release_ids(a),
        group::album_artists(b) == group::album_artists(a),
        group::any_compilation(b) == group::any_compilation(a),
        group::any_album_tag(b) == group::any_album_tag(a),
        group::artists(b) == group::artists(a),
        group::first_year(b) == group::first_year(a),
{
    lemma_moved_artists(b, a);
    assert forall|i: int| 0 <= i < b.len() implies #[trigger] group::titles(b)[i] == group::titles(
        a,
    )[i] by {
        assert(a[i].album_raw == b[i].album_raw);
    }
    assert(group::titles(b) =~= group::titles(a));
    assert forall|i: int| 0 <= i < b.len() implies #[trigger] group::release_ids(b)[i]
        == group::release_ids(a)[i] by {
        assert(a[i].mb_album_id == b[i].mb_album_id);
    }
    assert(group::release_ids(b) =~= group::release_ids(a));
    assert forall|i: int| 0 <= i < b.len() implies #[trigger] group::album_artists(b)[i]
        == group::album_artists(a)[i] by {
        assert(a[i].album_artist_raw == b[i].album_artist_raw);
    }
    assert(group::album_artists(b) =~= group::album_artists(a));
    assert(group::any_compilation(b) == group::any_compilation(a)) by {
        assert forall|i: int| 0 <= i < b.len() implies (#[trigger] a[i]).compilation
            == b[i].compilation by {}
        if group::any_compilation(b) {
            let i = choose|i: int| 0 <= i < b.len() && (#[trigger] b[i]).compilation;
            assert(a[i].compilation);
        }
    }
    assert(group::any_album_tag(b) == group::any_album_tag(a)) by {
        assert forall|i: int| 0 <= i < b.len() implies (#[trigger] a[i]).album_raw
            == b[i].album_raw by {}
        if group::any_album_tag(b) {
            let i = choose|i: int| 0 <= i < b.len() && (#[trigger] b[i]).album_raw is Some;
            assert(a[i].album_raw is Some);
        }
    }
}

proof fn lemma_takes_moved(m: Move, before: Seq<TrackMeta>, after: Seq<TrackMeta>)
    requires
        m.takes_tracks(before, after),
    ensures
        moved(before, after),
{
    assert forall|i: int| 0 <= i < before.len() implies #[trigger] after[i] == (TrackMeta {
        path: after[i].path,
        ..before[i]
    }) by {
        assert(m.takes_track(before[i], after[i]));
    }
}

/// A directory below a library root keeps one relative name wherever the root is
/// mounted, so the identities made from it do too: moving the library does not
/// orphan an album.
pub proof fn identities_are_mount_independent(
    here: PathView,
    there: PathView,
    rel: PathView,
    artist: Seq<char>,
    title: Seq<char>,
    year: Option<i32>,
)
    requires
        !rel.rooted,
        rel.parts.len() > 0 ==> rel.parts[0] != path::dot(),
    ensures
        group::relative_to(here.join(rel), seq![here], 0) == rel.text(),
        group::folder_identity(here.join(rel), seq![here]) == group::folder_identity(
            there.join(rel),
            seq![there],
        ),
        group::title_identity(artist, title, year, here.join(rel), seq![here])
            == group::title_identity(artist, title, year, there.join(rel), seq![there]),
{
    path::strip_undoes_join(here, rel);
    path::strip_undoes_join(there, rel);
}

/// An identity made of a release ID, or of artist and title, is made of tags: as
/// long as the same tags play in the same order, and a title and an artist stand
/// in them, the album keeps it under any paths.
pub proof fn identities_come_from_tags(
    old_dir: PathView,
    new_dir: PathView,
    before: Seq<TrackMeta>,
    after: Seq<TrackMeta>,
    roots: Seq<PathView>,
    listings: Seq<ListingView>,
)
    requires
        moved(group::in_play_order(before), group::in_play_order(after)),
    ensures
        ({
            let tags = group::in_play_order(before);
            let was = group::resolved(old_dir, before, roots, listings);
            let is = group::resolved(new_dir, after, roots, listings);
            &&& is.identity == was.identity
            &&& was.identity == IdentitySource::MusicBrainz ==> is.group_key == was.group_key
            &&& was.identity == IdentitySource::ArtistTitle && titled(tags) && credited(tags)
                && !group::truncated(was.title) ==> is.group_key == was.group_key
        }),
{
    lemma_same_tags(group::in_play_order(before), group::in_play_order(after));
}

/// An album title stands in the tags.
pub open spec fn titled(tags: Seq<TrackMeta>) -> bool {
    util::majority_of(group::titles(tags)) is Some
}

/// An artist stands in the tags, or that the album is a compilation.
pub open spec fn credited(tags: Seq<TrackMeta>) -> bool {
    ||| util::majority_of(group::album_artists(tags)) is Some
    ||| group::artists(tags).len() > 0
    ||| group::any_compilation(tags)
}

/// A well-tagged album keeps its identity when its folder is renamed or moved,
/// with the files in it: one known by its release ID always, one known by artist
/// and title where both stand in the tags and the title is not cut short.
pub proof fn identity_survives_a_rename(
    m: Move,
    before: Seq<TrackMeta>,
    after: Seq<TrackMeta>,
    roots: Seq<PathView>,
    listings: Seq<ListingView>,
)
    requires
        m.takes_tracks(before, after),
    ensures
        ({
            let tags = group::in_play_order(before);
            let was = group::resolved(m.from, before, roots, listings);
            let is = group::resolved(m.to, after, roots, listings);
            &&& is.identity == was.identity
            &&& was.identity == IdentitySource::MusicBrainz ==> is.group_key == was.group_key
            &&& was.identity == IdentitySource::ArtistTitle && titled(tags) && credited(tags)
                && !group::truncated(was.title) ==> is.group_key == was.group_key
        }),
{
    lemma_play_order(m, before, after);
    lemma_takes_moved(m, group::in_play_order(before), group::in_play_order(after));
    identities_come_from_tags(m.from, m.to, before, after, roots, listings);
}

proof fn lemma_relative(
    m: Move,
    d: PathView,
    e: PathView,
    roots: Seq<PathView>,
    new_roots: Seq<PathView>,
    i: int,
)
    requires
        m.takes(d, e),
        m.takes_paths(roots, new_roots),
        0 <= i <= roots.len(),
        exists|k: int| i <= k < roots.len() && d.starts_with(#[trigger] roots[k]),
    ensures
        group::relative_to(d, roots, i) == group::relative_to(e, new_roots, i),
    decreases roots.len() - i,
{
    let n = m.from.parts.len() as int;
    let w = m.to.parts.len() as int;
    let (r, q) = (roots[i], new_roots[i]);
    assert(m.takes(r, q));
    let (x, y) = (d.parts.skip(n), r.parts.skip(n));
    assert(d.parts =~= m.from.parts + x);
    assert(r.parts =~= m.from.parts + y);
    if d.starts_with(r) {
        assert forall|j: int| 0 <= j < q.parts.len() implies q.parts[j] == e.parts[j] by {
            if j >= w {
                assert(y[j - w] == r.parts[j - w + n]);
                assert(x[j - w] == d.parts[j - w + n]);
                assert(r.parts[j - w + n] == d.parts[j - w + n]);
            }
        }
        assert(q.parts =~= e.parts.subrange(0, q.parts.len() as int));
        assert(e.starts_with(q));
        assert(d.parts.skip(r.parts.len() as int) =~= e.parts.skip(q.parts.len() as int));
    } else {
        if e.starts_with(q) {
            assert forall|j: int| 0 <= j < r.parts.len() implies r.parts[j] == d.parts[j] by {
                if j >= n {
                    assert(q.parts[j - n + w] == y[j - n]);
                    assert(e.parts[j - n + w] == x[j - n]);
                    assert(q.parts[j - n + w] == e.parts[j - n + w]);
                }
            }
            assert(r.parts =~= d.parts.subrange(0, r.parts.len() as int));
            assert(d.starts_with(r));
        }
        lemma_relative(m, d, e, roots, new_roots, i + 1);
    }
}

proof fn lemma_parent_artist(
    m: Move,
    d: PathView,
    e: PathView,
    roots: Seq<PathView>,
    new_roots: Seq<PathView>,
)
    requires
        m.takes(d, e),
        m.takes_paths(roots, new_roots),
        inside(d, roots),
    ensures
        group::parent_artist(d, roots) == group::parent_artist(e, new_roots),
{
    let n = m.from.parts.len() as int;
    let k = choose|k: int|
        0 <= k < roots.len() && d.starts_with(#[trigger] roots[k]) && d.parts.len()
            > roots[k].parts.len();
    let root = roots[k];
    assert(m.takes(root, new_roots[k]));
    let (up, vp) = (d.parent().unwrap(), e.parent().unwrap());
    assert(d.parts.len() > n);
    assert(m.from.parts =~= up.parts.subrange(0, n));
    assert(vp.parts =~= m.to.parts + up.parts.skip(n));
    assert(m.takes(up, vp));
    if roots.contains(up) {
        let j = choose|j: int| 0 <= j < roots.len() && roots[j] == up;
        assert(m.takes(roots[j], new_roots[j]));
        lemma_takes(m, roots[j], new_roots[j], up, vp);
        assert(new_roots[j] == vp);
    } else {
        if new_roots.contains(vp) {
            let j = choose|j: int| 0 <= j < new_roots.len() && new_roots[j] == vp;
            assert(m.takes(roots[j], new_roots[j]));
            lemma_takes(m, roots[j], new_roots[j], up, vp);
            assert(roots[j] == up);
        }
        if up.parts.len() == n {
            assert(up.parts =~= root.parts);
            assert(roots[k] == up);
        }
        assert(up.parts.last() == vp.parts.last());
    }
}

/// The same draft, moved, with its directory.
spec fn takes_draft(m: Move, roots: Seq<PathView>, d: DraftView, e: DraftView) -> bool {
    &&& m.takes_album(d, e)
    &&& m.takes(d.dir_path, e.dir_path)
    &&& inside(d.dir_path, roots)
}

spec fn takes_drafts(
    m: Move,
    roots: Seq<PathView>,
    ds: Seq<DraftView>,
    es: Seq<DraftView>,
) -> bool {
    &&& ds.len() == es.len()
    &&& forall|i: int| 0 <= i < ds.len() ==> #[trigger] takes_draft(m, roots, ds[i], es[i])
}

proof fn lemma_folder_name(
    m: Move,
    d: PathView,
    e: PathView,
    roots: Seq<PathView>,
    new_roots: Seq<PathView>,
)
    requires
        m.takes(d, e),
        m.takes_paths(roots, new_roots),
        inside(d, roots),
    ensures
        d.file_name() == e.file_name(),
        group::relative_to(d, roots, 0) == group::relative_to(e, new_roots, 0),
{
    let k = choose|k: int|
        0 <= k < roots.len() && d.starts_with(#[trigger] roots[k]) && d.parts.len()
            > roots[k].parts.len();
    assert(m.takes(roots[k], new_roots[k]));
    assert(d.parts.last() == e.parts.last());
    lemma_relative(m, d, e, roots, new_roots, 0);
}

proof fn lemma_resolved(
    m: Move,
    b: BucketView,
    c: BucketView,
    roots: Seq<PathView>,
    new_roots: Seq<PathView>,
    listings: Seq<ListingView>,
    new_listings: Seq<ListingView>,
)
    requires
        takes_bucket(m, roots, b, c),
        m.takes_paths(roots, new_roots),
    ensures
        takes_draft(
            m,
            roots,
            group::resolved(b.dir, b.tracks, roots, listings),
            group::resolved(c.dir, c.tracks, new_roots, new_listings),
        ),
{
    lemma_play_order(m, b.tracks, c.tracks);
    lemma_takes_moved(m, group::in_play_order(b.tracks), group::in_play_order(c.tracks));
    lemma_same_tags(group::in_play_order(b.tracks), group::in_play_order(c.tracks));
    lemma_folder_name(m, b.dir, c.dir, roots, new_roots);
    lemma_parent_artist(m, b.dir, c.dir, roots, new_roots);
}

/// The same groups, moved; no group is empty.
spec fn takes_groups(
    m: Move,
    roots: Seq<PathView>,
    gs: Seq<Seq<DraftView>>,
    hs: Seq<Seq<DraftView>>,
) -> bool {
    &&& gs.len() == hs.len()
    &&& forall|i: int|
        0 <= i < gs.len() ==> #[trigger] takes_drafts(m, roots, gs[i], hs[i]) && gs[i].len() > 0
}

proof fn lemma_group_at(
    m: Move,
    roots: Seq<PathView>,
    gs: Seq<Seq<DraftView>>,
    hs: Seq<Seq<DraftView>>,
    key: Seq<char>,
    i: int,
)
    requires
        takes_groups(m, roots, gs, hs),
        0 <= i <= gs.len(),
    ensures
        group::group_at(gs, key, i) == group::group_at(hs, key, i),
        i <= group::group_at(gs, key, i) <= gs.len(),
    decreases gs.len() - i,
{
    if i < gs.len() {
        assert(takes_drafts(m, roots, gs[i], hs[i]));
        assert(takes_draft(m, roots, gs[i][0], hs[i][0]));
        if gs[i][0].group_key != key {
            lemma_group_at(m, roots, gs, hs, key, i + 1);
        }
    }
}

proof fn lemma_drafts_front(
    m: Move,
    roots: Seq<PathView>,
    ds: Seq<DraftView>,
    es: Seq<DraftView>,
)
    requires
        takes_drafts(m, roots, ds, es),
        ds.len() > 0,
    ensures
        takes_drafts(m, roots, ds.drop_last(), es.drop_last()),
        takes_draft(m, roots, ds.last(), es.last()),
{
    assert(takes_draft(m, roots, ds[ds.len() - 1], es[ds.len() - 1]));
    assert forall|i: int| 0 <= i < ds.len() - 1 implies #[trigger] takes_draft(
        m,
        roots,
        ds.drop_last()[i],
        es.drop_last()[i],
    ) by {
        assert(takes_draft(m, roots, ds[i], es[i]));
    }
}

proof fn lemma_by_identity(
    m: Move,
    roots: Seq<PathView>,
    ds: Seq<DraftView>,
    es: Seq<DraftView>,
)
    requires
        takes_drafts(m, roots, ds, es),
    ensures
        takes_groups(m, roots, group::by_identity(ds), group::by_identity(es)),
    decreases ds.len(),
{
    if ds.len() > 0 {
        lemma_drafts_front(m, roots, ds, es);
        lemma_by_identity(m, roots, ds.drop_last(), es.drop_last());
        let (gs, hs) = (group::by_identity(ds.drop_last()), group::by_identity(es.drop_last()));
        let (d, e) = (ds.last(), es.last());
        lemma_group_at(m, roots, gs, hs, d.group_key, 0);
        let at = group::group_at(gs, d.group_key, 0);
        let (out, now) = (group::by_identity(ds), group::by_identity(es));
        assert forall|i: int| 0 <= i < out.len() implies #[trigger] takes_drafts(
            m,
            roots,
            out[i],
            now[i],
        ) && out[i].len() > 0 by {
            if i < gs.len() {
                assert(takes_drafts(m, roots, gs[i], hs[i]));
            }
            assert forall|k: int| 0 <= k < out[i].len() implies #[trigger] takes_draft(
                m,
                roots,
                out[i][k],
                now[i][k],
            ) by {
                if i < gs.len() && k < gs[i].len() {
                    assert(takes_draft(m, roots, gs[i][k], hs[i][k]));
                }
            }
        }
    }
}

proof fn lemma_folder_order(
    m: Move,
    roots: Seq<PathView>,
    g: Seq<DraftView>,
    h: Seq<DraftView>,
)
    requires
        takes_drafts(m, roots, g, h),
    ensures
        takes_drafts(
            m,
            roots,
            order::sorted::<AlbumDraft, FolderOrder>(g),
            order::sorted::<AlbumDraft, FolderOrder>(h),
        ),
        order::sorted::<AlbumDraft, FolderOrder>(g).len() == g.len(),
{
    let pair = |d: DraftView, e: DraftView| takes_draft(m, roots, d, e);
    assert forall|a: DraftView, b: DraftView, c: DraftView, d: DraftView|
        #![trigger pair(a, c), pair(b, d)]
        pair(a, c) && pair(b, d) implies FolderOrder::less(a, b) == FolderOrder::less(c, d) by {
        lemma_takes(m, a.dir_path, c.dir_path, b.dir_path, d.dir_path);
    }
    assert forall|i: int| 0 <= i < g.len() implies #[trigger] pair(g[i], h[i]) by {
        assert(takes_draft(m, roots, g[i], h[i]));
    }
    lemma_sorted_alike::<AlbumDraft, FolderOrder>(g, h, pair);
    let s = order::sorted::<AlbumDraft, FolderOrder>(g);
    let t = order::sorted::<AlbumDraft, FolderOrder>(h);
    assert forall|i: int| 0 <= i < s.len() implies #[trigger] takes_draft(
        m,
        roots,
        s[i],
        t[i],
    ) by {
        assert(pair(s[i], t[i]));
    }
}

proof fn lemma_on_disc(m: Move, a: Seq<TrackMeta>, b: Seq<TrackMeta>, disc: u32)
    requires
        m.takes_tracks(a, b),
    ensures
        m.takes_tracks(group::on_disc(a, disc), group::on_disc(b, disc)),
{
    assert forall|i: int| 0 <= i < a.len() implies #[trigger] m.takes_track(
        group::on_disc(a, disc)[i],
        group::on_disc(b, disc)[i],
    ) by {
        assert(m.takes_track(a[i], b[i]));
    }
}

proof fn lemma_fused_tracks(
    m: Move,
    roots: Seq<PathView>,
    g: Seq<DraftView>,
    h: Seq<DraftView>,
    renumber: bool,
)
    requires
        takes_drafts(m, roots, g, h),
    ensures
        m.takes_tracks(group::fused_tracks(g, renumber), group::fused_tracks(h, renumber)),
        group::group_year(g) == group::group_year(h),
        group::group_compilation(g) == group::group_compilation(h),
    decreases g.len(),
{
    if g.len() > 0 {
        lemma_drafts_front(m, roots, g, h);
        let (g0, h0) = (g.drop_last(), h.drop_last());
        lemma_fused_tracks(m, roots, g0, h0, renumber);
        let (a, b) = (g.last().tracks, h.last().tracks);
        let disc = g.len() as u32;
        lemma_on_disc(m, a, b, disc);
        let (c, d) = if renumber {
            (group::on_disc(a, disc), group::on_disc(b, disc))
        } else {
            (a, b)
        };
        lemma_takes_concat(
            m,
            group::fused_tracks(g0, renumber),
            c,
            group::fused_tracks(h0, renumber),
            d,
        );
    }
}

proof fn lemma_undifferentiated(
    m: Move,
    roots: Seq<PathView>,
    g: Seq<DraftView>,
    h: Seq<DraftView>,
)
    requires
        takes_drafts(m, roots, g, h),
    ensures
        group::undifferentiated(g) == group::undifferentiated(h),
{
    assert forall|i: int, j: int|
        #![trigger g[i].tracks[j]]
        #![trigger h[i].tracks[j]]
        0 <= i < g.len() && 0 <= j < g[i].tracks.len() implies g[i].tracks[j].disc_no
        == h[i].tracks[j].disc_no by {
        assert(takes_draft(m, roots, g[i], h[i]));
        assert(m.takes_track(g[i].tracks[j], h[i].tracks[j]));
    }
    assert forall|i: int| 0 <= i < g.len() implies (#[trigger] g[i]).tracks.len()
        == h[i].tracks.len() by {
        assert(takes_draft(m, roots, g[i], h[i]));
    }
    if group::undifferentiated(g) {
        assert forall|i: int, j: int|
            #![trigger h[i].tracks[j]]
            0 <= i < h.len() && 0 <= j < h[i].tracks.len() implies h[i].tracks[j].disc_no == 1 by {
            assert(g[i].tracks.len() == h[i].tracks.len());
            assert(g[i].tracks[j].disc_no == 1);
        }
    }
    if group::undifferentiated(h) {
        assert forall|i: int, j: int|
            #![trigger g[i].tracks[j]]
            0 <= i < g.len() && 0 <= j < g[i].tracks.len() implies g[i].tracks[j].disc_no == 1 by {
            assert(g[i].tracks.len() == h[i].tracks.len());
            assert(h[i].tracks[j].disc_no == 1);
        }
    }
}

proof fn lemma_merged_group(
    m: Move,
    g: Seq<DraftView>,
    h: Seq<DraftView>,
    roots: Seq<PathView>,
    new_roots: Seq<PathView>,
)
    requires
        takes_drafts(m, roots, g, h),
        g.len() > 0,
        m.takes_paths(roots, new_roots),
    ensures
        m.takes_albums(group::merged_group(g, roots), group::merged_group(h, new_roots)),
{
    lemma_folder_order(m, roots, g, h);
    let s = order::sorted::<AlbumDraft, FolderOrder>(g);
    let t = order::sorted::<AlbumDraft, FolderOrder>(h);
    let (out, now) = (group::merged_group(g, roots), group::merged_group(h, new_roots));
    if g.len() == 1 {
        assert(takes_draft(m, roots, g[0], h[0]));
    } else if s.len() > group::MAX_MERGED_FOLDERS {
        assert forall|i: int| 0 <= i < out.len() implies #[trigger] m.takes_album(
            out[i],
            now[i],
        ) by {
            assert(takes_draft(m, roots, s[i], t[i]));
            lemma_folder_name(m, s[i].dir_path, t[i].dir_path, roots, new_roots);
        }
    } else {
        lemma_undifferentiated(m, roots, s, t);
        let renumber = group::undifferentiated(s);
        lemma_fused_tracks(m, roots, s, t, renumber);
        lemma_play_order(m, group::fused_tracks(s, renumber), group::fused_tracks(t, renumber));
        assert(takes_draft(m, roots, s[0], t[0]));
        assert(m.takes_album(out[0], now[0]));
    }
}

proof fn lemma_merged_groups(
    m: Move,
    gs: Seq<Seq<DraftView>>,
    hs: Seq<Seq<DraftView>>,
    roots: Seq<PathView>,
    new_roots: Seq<PathView>,
)
    requires
        takes_groups(m, roots, gs, hs),
        m.takes_paths(roots, new_roots),
    ensures
        m.takes_albums(group::merged_groups(gs, roots), group::merged_groups(hs, new_roots)),
    decreases gs.len(),
{
    if gs.len() > 0 {
        let (g0, h0) = (gs.drop_last(), hs.drop_last());
        assert forall|i: int| 0 <= i < g0.len() implies #[trigger] takes_drafts(
            m,
            roots,
            g0[i],
            h0[i],
        ) && g0[i].len() > 0 by {
            assert(takes_drafts(m, roots, gs[i], hs[i]));
        }
        lemma_merged_groups(m, g0, h0, roots, new_roots);
        assert(takes_drafts(m, roots, gs[gs.len() - 1], hs[gs.len() - 1]));
        lemma_merged_group(m, gs.last(), hs.last(), roots, new_roots);
        let (a, b) = (group::merged_groups(g0, roots), group::merged_group(gs.last(), roots));
        let c = group::merged_groups(h0, new_roots);
        let d = group::merged_group(hs.last(), new_roots);
        assert forall|i: int| 0 <= i < (a + b).len() implies #[trigger] m.takes_album(
            (a + b)[i],
            (c + d)[i],
        ) by {
            if i < a.len() {
                assert(m.takes_album(a[i], c[i]));
            } else {
                assert(m.takes_album(b[i - a.len()], d[i - a.len()]));
            }
        }
    }
}

proof fn lemma_shelf_order(m: Move, ds: Seq<DraftView>, es: Seq<DraftView>)
    requires
        m.takes_albums(ds, es),
    ensures
        m.takes_albums(
            order::sorted::<AlbumDraft, ShelfOrder>(ds),
            order::sorted::<AlbumDraft, ShelfOrder>(es),
        ),
{
    let pair = |d: DraftView, e: DraftView| m.takes_album(d, e);
    assert forall|i: int| 0 <= i < ds.len() implies #[trigger] pair(ds[i], es[i]) by {
        assert(m.takes_album(ds[i], es[i]));
    }
    lemma_sorted_alike::<AlbumDraft, ShelfOrder>(ds, es, pair);
    let s = order::sorted::<AlbumDraft, ShelfOrder>(ds);
    let t = order::sorted::<AlbumDraft, ShelfOrder>(es);
    assert forall|i: int| 0 <= i < s.len() implies #[trigger] m.takes_album(s[i], t[i]) by {
        assert(pair(s[i], t[i]));
    }
}

/// Moving the whole library keeps every album: mounted elsewhere, the same files
/// make up the same albums in the same order, under the same identities, titles
/// and artists. Every file and its album's directory lie below a library root; a
/// root's own name may change with the move, so an album must not be named after
/// it.
pub proof fn moving_the_library_keeps_every_album(
    m: Move,
    before: Seq<TrackMeta>,
    after: Seq<TrackMeta>,
    roots: Seq<PathView>,
    new_roots: Seq<PathView>,
    listings: Seq<ListingView>,
    new_listings: Seq<ListingView>,
)
    requires
        m.takes_tracks(before, after),
        m.takes_paths(roots, new_roots),
        all_inside(before, roots),
    ensures
        m.takes_albums(
            group::albums_of(before, roots, listings),
            group::albums_of(after, new_roots, new_listings),
        ),
{
    assert forall|k: int| 0 <= k < roots.len() implies (#[trigger] roots[k]).extends(
        m.from,
    ) by {
        assert(m.takes(roots[k], new_roots[k]));
    }
    lemma_bucketed(m, roots, before, after);
    let (b0, c0) = (group::bucketed(before), group::bucketed(after));
    lemma_candidates(m, roots, b0, c0);
    lemma_fold_each(m, roots, b0, c0, group::candidates(b0), group::candidates(c0));
    let (bs, cs) = (group::folded(b0), group::folded(c0));
    let ds = group::resolved_all(bs, roots, listings);
    let es = group::resolved_all(cs, new_roots, new_listings);
    assert forall|i: int| 0 <= i < ds.len() implies #[trigger] takes_draft(
        m,
        roots,
        ds[i],
        es[i],
    ) by {
        assert(takes_bucket(m, roots, bs[i], cs[i]));
        lemma_resolved(m, bs[i], cs[i], roots, new_roots, listings, new_listings);
    }
    lemma_by_identity(m, roots, ds, es);
    let (gs, hs) = (group::by_identity(ds), group::by_identity(es));
    lemma_merged_groups(m, gs, hs, roots, new_roots);
    lemma_shelf_order(m, group::merged_groups(gs, roots), group::merged_groups(hs, new_roots));
}

proof fn lemma_join_moves(p: PathView, q: PathView, rel: PathView)
    requires
        !rel.rooted,
        joins_alike(p, q, rel),
    ensures
        (Move { from: p, to: q }).takes(p.join(rel), q.join(rel)),
{
    let m = Move { from: p, to: q };
    let (a, b) = (p.join(rel), q.join(rel));
    if rel.parts.len() > 0 && rel.parts[0] == path::dot() && (p.rooted || p.parts.len() > 0) {
        assert(a.parts.skip(p.parts.len() as int) =~= rel.parts.drop_first());
    } else {
        assert(a.parts.skip(p.parts.len() as int) =~= rel.parts);
    }
    assert(p.parts =~= a.parts.subrange(0, p.parts.len() as int));
}

proof fn lemma_root_moves(p: PathView, q: PathView)
    ensures
        (Move { from: p, to: q }).takes_paths(seq![p], seq![q]),
{
    let m = Move { from: p, to: q };
    assert(p.parts.skip(p.parts.len() as int) =~= Seq::empty());
    assert(q.parts =~= q.parts + p.parts.skip(p.parts.len() as int));
    assert(p.parts =~= p.parts.subrange(0, p.parts.len() as int));
    assert(m.takes(p, q));
}

proof fn lemma_file_inside(p: PathView, rel: PathView)
    requires
        !rel.rooted,
        rel.parts.len() > 0,
        inside(util::album_dir_of(p.join(rel)), seq![p]),
    ensures
        inside(p.join(rel), seq![p]),
{
    let file = p.join(rel);
    let dir = util::album_dir_of(file);
    let k = choose|k: int|
        0 <= k < seq![p].len() && dir.starts_with(#[trigger] seq![p][k]) && dir.parts.len()
            > seq![p][k].parts.len();
    assert(seq![p][k] == p);
    assert(p.parts =~= file.parts.subrange(0, p.parts.len() as int));
    if file.parts.len() == 0 {
        assert(p.rooted);
        assert(!dir.rooted);
    }
    assert(file.parts.len() > p.parts.len());
    assert(file.starts_with(seq![p][0]));
}

/// A leading "." of a relative path is dropped below both directories or below
/// neither: it stays only where the directory is the empty path.
pub open spec fn joins_alike(p: PathView, q: PathView, rel: PathView) -> bool {
    rel.parts.len() > 0 && rel.parts[0] == path::dot() ==> (p.rooted || p.parts.len() > 0) == (
    q.rooted || q.parts.len() > 0)
}

proof fn lemma_one_album(t: TrackMeta, roots: Seq<PathView>, listings: Seq<ListingView>)
    ensures
        group::albums_of(seq![t], roots, listings).len() == 1,
{
    let none = Seq::<TrackMeta>::empty();
    assert(seq![t].drop_last() =~= none);
    assert(group::bucketed(none) =~= Seq::<BucketView>::empty());
    let bs = group::bucketed(seq![t]);
    let b = bs[0];
    assert(bs.len() == 1);
    let no_buckets = bs.drop_last();
    assert(group::candidates(no_buckets) =~= Seq::<(PathView, Seq<char>)>::empty());
    let short = group::candidates(bs);
    assert(short.len() <= 1);
    if short.len() == 1 {
        let no_names = short.drop_last();
        assert(group::fold_each(bs, no_names) == bs);
        reveal_with_fuel(group::fold_target, 2);
        assert(!group::continues(b, b.dir, b.key));
        assert(short.last() == (b.dir, b.key));
        assert(group::fold_target(bs, b.dir, b.key, 1) == -1);
    }
    assert(group::folded(bs) == bs);
    let ds = group::resolved_all(bs, roots, listings);
    assert(ds.len() == 1);
    assert(group::by_identity(ds.drop_last()) =~= Seq::<Seq<DraftView>>::empty());
    let gs = group::by_identity(ds);
    assert(gs =~= seq![seq![ds[0]]]);
    assert(group::merged_groups(gs.drop_last(), roots) =~= Seq::<DraftView>::empty());
    let merged = group::merged_groups(gs, roots);
    assert(merged.len() == 1);
    order::sorting_permutes::<AlbumDraft, ShelfOrder>(merged);
}

/// A file makes up the same album, under the same identity, at the same place
/// below any library root, as long as its album's directory lies strictly below
/// that root. An absolute path names the same file whatever the root, and is no
/// place below it.
pub proof fn a_file_keeps_its_album_below_another_root(
    p: PathView,
    q: PathView,
    rel: PathView,
    a: TrackMeta,
    b: TrackMeta,
    listings: Seq<ListingView>,
    new_listings: Seq<ListingView>,
)
    requires
        b == (TrackMeta { path: b.path, ..a }),
        a.path@ == p.join(rel),
        b.path@ == q.join(rel),
        !rel.rooted,
        rel.parts.len() > 0,
        joins_alike(p, q, rel),
        inside(util::album_dir_of(a.path@), seq![p]),
    ensures
        group::albums_of(seq![a], seq![p], listings).len() == 1,
        group::albums_of(seq![b], seq![q], new_listings).len() == 1,
        (Move { from: p, to: q }).takes_album(
            group::albums_of(seq![a], seq![p], listings)[0],
            group::albums_of(seq![b], seq![q], new_listings)[0],
        ),
        group::albums_of(seq![a], seq![p], listings)[0].group_key == group::albums_of(
            seq![b],
            seq![q],
            new_listings,
        )[0].group_key,
{
    let m = Move { from: p, to: q };
    lemma_one_album(a, seq![p], listings);
    lemma_one_album(b, seq![q], new_listings);
    lemma_join_moves(p, q, rel);
    lemma_root_moves(p, q);
    lemma_file_inside(p, rel);
    assert(m.takes_track(a, b));
    assert(m.takes_tracks(seq![a], seq![b]));
    moving_the_library_keeps_every_album(
        m,
        seq![a],
        seq![b],
        seq![p],
        seq![q],
        listings,
        new_listings,
    );
    assert(m.takes_album(
        group::albums_of(seq![a], seq![p], listings)[0],
        group::albums_of(seq![b], seq![q], new_listings)[0],
    ));
}

} // verus!
