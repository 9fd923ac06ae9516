//! What grouping promises of every library: no file is lost, albums keep to
//! their folders, and tracks and albums stand in order.

use vstd::multiset::Multiset;
use vstd::prelude::*;

use crate::group;
use crate::group::{BucketView, FolderOrder, ListingView, PlayOrder, ShelfOrder};
use crate::model::{AlbumDraft, DraftView, IdentitySource, TrackMeta};
use crate::order;
use crate::order::Order;
use crate::path;
use crate::path::PathView;
use crate::text;
use crate::util;

verus! {

/// The paths of a list of tracks, each as often as it occurs.
pub open spec fn track_paths(ts: Seq<TrackMeta>) -> Multiset<PathView> {
    ts.map_values(|t: TrackMeta| t.path@).to_multiset()
}

/// Everything in a list of collections.
pub open spec fn gathered(ms: Seq<Multiset<PathView>>) -> Multiset<PathView>
    decreases ms.len(),
{
    if ms.len() == 0 {
        Multiset::empty()
    } else {
        gathered(ms.drop_last()).add(ms.last())
    }
}

/// The paths of every track of a list of albums.
pub open spec fn album_paths(ds: Seq<DraftView>) -> Multiset<PathView> {
    gathered(ds.map_values(|d: DraftView| track_paths(d.tracks)))
}

proof fn lemma_paths_concat(a: Seq<TrackMeta>, b: Seq<TrackMeta>)
    ensures
        track_paths(a + b) == track_paths(a).add(track_paths(b)),
{
    let f = |t: TrackMeta| t.path@;
    assert((a + b).map_values(f) =~= a.map_values(f) + b.map_values(f));
    vstd::seq_lib::lemma_multiset_commutative(a.map_values(f), b.map_values(f));
}

proof fn lemma_paths_one(t: TrackMeta)
    ensures
        track_paths(seq![t]) == Multiset::singleton(t.path@),
        track_paths(Seq::empty()) == Multiset::<PathView>::empty(),
{
    broadcast use vstd::seq_lib::group_to_multiset_ensures;

    let f = |t: TrackMeta| t.path@;
    assert(seq![t].map_values(f) =~= Seq::empty().push(t.path@));
    assert(Seq::<TrackMeta>::empty().map_values(f) =~= Seq::empty());
    assert(track_paths(seq![t]) =~= Multiset::singleton(t.path@));
}

proof fn lemma_gathered_insert(ms: Seq<Multiset<PathView>>, p: int, x: Multiset<PathView>)
    requires
        0 <= p <= ms.len(),
    ensures
        gathered(ms.insert(p, x)) == gathered(ms).add(x),
    decreases ms.len(),
{
    if p == ms.len() {
        assert(ms.insert(p, x).drop_last() =~= ms);
    } else {
        lemma_gathered_insert(ms.drop_last(), p, x);
        assert(ms.insert(p, x).drop_last() =~= ms.drop_last().insert(p, x));
        assert(gathered(ms.insert(p, x)) =~= gathered(ms).add(x));
    }
}

proof fn lemma_gathered_update(ms: Seq<Multiset<PathView>>, i: int, x: Multiset<PathView>)
    requires
        0 <= i < ms.len(),
    ensures
        gathered(ms.update(i, x)) == gathered(ms.remove(i)).add(x),
        gathered(ms) == gathered(ms.remove(i)).add(ms[i]),
{
    lemma_gathered_insert(ms.remove(i), i, x);
    lemma_gathered_insert(ms.remove(i), i, ms[i]);
    assert(ms.remove(i).insert(i, x) =~= ms.update(i, x));
    assert(ms.remove(i).insert(i, ms[i]) =~= ms);
}

proof fn lemma_gathered_concat(a: Seq<Multiset<PathView>>, b: Seq<Multiset<PathView>>)
    ensures
        gathered(a + b) == gathered(a).add(gathered(b)),
    decreases b.len(),
{
    if b.len() == 0 {
        assert(a + b =~= a);
        assert(gathered(a + b) =~= gathered(a).add(gathered(b)));
    } else {
        lemma_gathered_concat(a, b.drop_last());
        assert((a + b).drop_last() =~= a + b.drop_last());
        assert(gathered(a + b) =~= gathered(a).add(gathered(b)));
    }
}

proof fn lemma_place_bounds<T, O: Order<T>>(s: Seq<O::Model>, x: O::Model, i: int)
    requires
        0 <= i <= s.len(),
    ensures
        i <= order::place::<T, O>(s, x, i) <= s.len(),
    decreases s.len() - i,
{
    if i < s.len() && !O::less(x, s[i]) {
        lemma_place_bounds::<T, O>(s, x, i + 1);
    }
}

proof fn lemma_play_order_paths(ts: Seq<TrackMeta>)
    ensures
        track_paths(group::in_play_order(ts)) == track_paths(ts),
    decreases ts.len(),
{
    if ts.len() > 0 {
        let front = ts.drop_last();
        lemma_play_order_paths(front);
        let before = group::in_play_order(front);
        let x = ts.last();
        lemma_place_bounds::<TrackMeta, PlayOrder>(before, x, 0);
        let p = order::place::<TrackMeta, PlayOrder>(before, x, 0);
        assert(group::in_play_order(ts) == before.insert(p, x));
        assert(before.insert(p, x) =~= before.take(p) + seq![x] + before.skip(p));
        lemma_paths_concat(before.take(p) + seq![x], before.skip(p));
        lemma_paths_concat(before.take(p), seq![x]);
        lemma_paths_concat(before.take(p), before.skip(p));
        assert(before.take(p) + before.skip(p) =~= before);
        lemma_paths_concat(front, seq![x]);
        assert(front + seq![x] =~= ts);
        assert(track_paths(group::in_play_order(ts)) =~= track_paths(ts));
    }
}

proof fn lemma_sorted_album_paths<O: Order<AlbumDraft, Model = DraftView>>(ds: Seq<DraftView>)
    ensures
        album_paths(order::sorted::<AlbumDraft, O>(ds)) == album_paths(ds),
    decreases ds.len(),
{
    if ds.len() > 0 {
        let f = |d: DraftView| track_paths(d.tracks);
        let front = ds.drop_last();
        lemma_sorted_album_paths::<O>(front);
        let before = order::sorted::<AlbumDraft, O>(front);
        let x = ds.last();
        lemma_place_bounds::<AlbumDraft, O>(before, x, 0);
        let p = order::place::<AlbumDraft, O>(before, x, 0);
        assert(before.insert(p, x).map_values(f) =~= before.map_values(f).insert(p, f(x)));
        lemma_gathered_insert(before.map_values(f), p, f(x));
        assert(ds.map_values(f).drop_last() =~= front.map_values(f));
    }
}

/// The paths of every track of a list of buckets.
pub open spec fn bucket_paths(bs: Seq<BucketView>) -> Multiset<PathView> {
    gathered(bs.map_values(|b: BucketView| track_paths(b.tracks)))
}

proof fn lemma_bucket_at(bs: Seq<BucketView>, dir: PathView, key: Seq<char>, i: int)
    requires
        0 <= i <= bs.len(),
    ensures
        i <= group::bucket_at(bs, dir, key, i) <= bs.len(),
        group::bucket_at(bs, dir, key, i) < bs.len() ==> {
            &&& bs[group::bucket_at(bs, dir, key, i)].dir == dir
            &&& bs[group::bucket_at(bs, dir, key, i)].key == key
        },
        forall|k: int|
            i <= k < group::bucket_at(bs, dir, key, i) ==> (#[trigger] bs[k]).dir != dir || bs[k].key
                != key,
    decreases bs.len() - i,
{
    if i < bs.len() && !(bs[i].dir == dir && bs[i].key == key) {
        lemma_bucket_at(bs, dir, key, i + 1);
    }
}

proof fn lemma_fold_target(bs: Seq<BucketView>, dir: PathView, short: Seq<char>, n: int)
    requires
        0 <= n <= bs.len(),
    ensures
        group::fold_target(bs, dir, short, n) < n,
        group::fold_target(bs, dir, short, n) >= 0 ==> group::continues(
            bs[group::fold_target(bs, dir, short, n)],
            dir,
            short,
        ),
    decreases n,
{
    if n > 0 {
        lemma_fold_target(bs, dir, short, n - 1);
    }
}

proof fn lemma_bucketed_paths(metas: Seq<TrackMeta>)
    ensures
        bucket_paths(group::bucketed(metas)) == track_paths(metas),
    decreases metas.len(),
{
    let f = |b: BucketView| track_paths(b.tracks);
    if metas.len() == 0 {
        lemma_paths_one(metas[0]);
        assert(metas =~= Seq::empty());
        assert(group::bucketed(metas).map_values(f) =~= Seq::empty());
    } else {
        let front = metas.drop_last();
        let m = metas.last();
        lemma_bucketed_paths(front);
        let bs = group::bucketed(front);
        let dir = util::album_dir_of(m.path@);
        let i = group::bucket_at(bs, dir, group::album_key(m), 0);
        lemma_bucket_at(bs, dir, group::album_key(m), 0);
        lemma_paths_concat(front, seq![m]);
        assert(front + seq![m] =~= metas);
        let ms = bs.map_values(f);
        if i < bs.len() {
            let b = group::extended(bs[i], seq![m]);
            assert(bs.update(i, b).map_values(f) =~= ms.update(i, f(b)));
            lemma_gathered_update(ms, i, f(b));
            lemma_paths_concat(bs[i].tracks, seq![m]);
            assert(gathered(ms.update(i, f(b))) =~= gathered(ms).add(track_paths(seq![m])));
        } else {
            let b = BucketView { dir, key: group::album_key(m), tracks: seq![m] };
            assert(bs.push(b).map_values(f) =~= ms.push(f(b)));
            assert(ms.push(f(b)).drop_last() =~= ms);
        }
    }
}

proof fn lemma_fold_one_paths(bs: Seq<BucketView>, dir: PathView, short: Seq<char>)
    ensures
        bucket_paths(group::fold_one(bs, dir, short)) == bucket_paths(bs),
{
    let f = |b: BucketView| track_paths(b.tracks);
    let t = group::fold_target(bs, dir, short, bs.len() as int);
    let i = group::bucket_at(bs, dir, short, 0);
    lemma_fold_target(bs, dir, short, bs.len() as int);
    lemma_bucket_at(bs, dir, short, 0);
    if t >= 0 && i < bs.len() {
        let joined = group::extended(bs[t], bs[i].tracks);
        let ms = bs.map_values(f);
        let up = ms.update(t, f(joined));
        assert(bs.update(t, joined).remove(i).map_values(f) =~= up.remove(i));
        lemma_paths_concat(bs[t].tracks, bs[i].tracks);
        lemma_gathered_update(ms, t, f(joined));
        lemma_gathered_update(up, i, up[i]);
        assert(up[i] == ms[i]);
        assert(gathered(up) =~= gathered(ms).add(ms[i]));
        let (a, b) = (gathered(up.remove(i)), gathered(ms));
        assert forall|v: PathView| #[trigger] a.count(v) == b.count(v) by {
            assert(a.add(ms[i]).count(v) == b.add(ms[i]).count(v));
        }
        assert(a =~= b);
    }
}

proof fn lemma_fold_each_paths(bs: Seq<BucketView>, short: Seq<(PathView, Seq<char>)>)
    ensures
        bucket_paths(group::fold_each(bs, short)) == bucket_paths(bs),
    decreases short.len(),
{
    if short.len() > 0 {
        lemma_fold_each_paths(bs, short.drop_last());
        lemma_fold_one_paths(
            group::fold_each(bs, short.drop_last()),
            short.last().0,
            short.last().1,
        );
    }
}

proof fn lemma_resolved_paths(
    bs: Seq<BucketView>,
    roots: Seq<PathView>,
    listings: Seq<ListingView>,
)
    ensures
        album_paths(group::resolved_all(bs, roots, listings)) == bucket_paths(bs),
{
    let ds = group::resolved_all(bs, roots, listings);
    let f = |b: BucketView| track_paths(b.tracks);
    let g = |d: DraftView| track_paths(d.tracks);
    assert forall|k: int| 0 <= k < bs.len() implies #[trigger] ds.map_values(g)[k]
        == bs.map_values(f)[k] by {
        lemma_play_order_paths(bs[k].tracks);
    }
    assert(ds.map_values(g) =~= bs.map_values(f));
}

/// The paths of every track of a list of groups.
pub open spec fn group_paths(gs: Seq<Seq<DraftView>>) -> Multiset<PathView> {
    gathered(gs.map_values(|g: Seq<DraftView>| album_paths(g)))
}

proof fn lemma_album_paths_push(g: Seq<DraftView>, d: DraftView)
    ensures
        album_paths(g.push(d)) == album_paths(g).add(track_paths(d.tracks)),
{
    let f = |d: DraftView| track_paths(d.tracks);
    assert(g.push(d).map_values(f).drop_last() =~= g.map_values(f));
}

proof fn lemma_album_paths_one(d: DraftView)
    ensures
        album_paths(seq![d]) == track_paths(d.tracks),
        album_paths(Seq::empty()) == Multiset::<PathView>::empty(),
{
    let none = Seq::<DraftView>::empty();
    lemma_album_paths_push(none, d);
    assert(none.push(d) =~= seq![d]);
    assert(none.map_values(|d: DraftView| track_paths(d.tracks)) =~= Seq::empty());
    assert(album_paths(seq![d]) =~= track_paths(d.tracks));
}

proof fn lemma_group_at(gs: Seq<Seq<DraftView>>, key: Seq<char>, i: int)
    requires
        0 <= i <= gs.len(),
    ensures
        i <= group::group_at(gs, key, i) <= gs.len(),
    decreases gs.len() - i,
{
    if i < gs.len() && gs[i][0].group_key != key {
        lemma_group_at(gs, key, i + 1);
    }
}

proof fn lemma_by_identity_paths(ds: Seq<DraftView>)
    ensures
        group_paths(group::by_identity(ds)) == album_paths(ds),
    decreases ds.len(),
{
    let f = |g: Seq<DraftView>| album_paths(g);
    if ds.len() == 0 {
        assert(group::by_identity(ds).map_values(f) =~= Seq::empty());
        assert(ds.map_values(|d: DraftView| track_paths(d.tracks)) =~= Seq::empty());
    } else {
        let front = ds.drop_last();
        let d = ds.last();
        lemma_by_identity_paths(front);
        lemma_album_paths_push(front, d);
        assert(front.push(d) =~= ds);
        let gs = group::by_identity(front);
        let ms = gs.map_values(f);
        let i = group::group_at(gs, d.group_key, 0);
        lemma_group_at(gs, d.group_key, 0);
        if i < gs.len() {
            let g = gs[i].push(d);
            lemma_album_paths_push(gs[i], d);
            assert(gs.update(i, g).map_values(f) =~= ms.update(i, f(g)));
            lemma_gathered_update(ms, i, f(g));
            assert(gathered(ms.update(i, f(g))) =~= gathered(ms).add(track_paths(d.tracks)));
        } else {
            lemma_album_paths_one(d);
            assert(gs.push(seq![d]).map_values(f) =~= ms.push(f(seq![d])));
            assert(ms.push(f(seq![d])).drop_last() =~= ms);
        }
    }
}

proof fn lemma_fused_paths(g: Seq<DraftView>, renumber: bool)
    ensures
        track_paths(group::fused_tracks(g, renumber)) == album_paths(g),
    decreases g.len(),
{
    if g.len() == 0 {
        lemma_paths_one(g[0].tracks[0]);
        lemma_album_paths_one(g[0]);
        assert(g =~= Seq::empty());
    } else {
        let front = g.drop_last();
        let d = g.last();
        lemma_fused_paths(front, renumber);
        lemma_album_paths_push(front, d);
        assert(front.push(d) =~= g);
        let more = if renumber {
            group::on_disc(d.tracks, g.len() as u32)
        } else {
            d.tracks
        };
        lemma_paths_concat(group::fused_tracks(front, renumber), more);
        let f = |t: TrackMeta| t.path@;
        assert(more.map_values(f) =~= d.tracks.map_values(f));
    }
}

proof fn lemma_merged_group_paths(g: Seq<DraftView>, roots: Seq<PathView>)
    ensures
        album_paths(group::merged_group(g, roots)) == album_paths(g),
{
    let s = order::sorted::<AlbumDraft, FolderOrder>(g);
    lemma_sorted_album_paths::<FolderOrder>(g);
    if g.len() != 1 {
        if s.len() > group::MAX_MERGED_FOLDERS {
            let f = |d: DraftView| track_paths(d.tracks);
            let r = s.map_values(|d: DraftView| group::retitled(d, roots));
            assert(r.map_values(f) =~= s.map_values(f));
        } else {
            let ts = group::fused_tracks(s, group::undifferentiated(s));
            lemma_fused_paths(s, group::undifferentiated(s));
            lemma_play_order_paths(ts);
            lemma_album_paths_one(group::fused(s));
        }
    }
}

proof fn lemma_merged_groups_paths(gs: Seq<Seq<DraftView>>, roots: Seq<PathView>)
    ensures
        album_paths(group::merged_groups(gs, roots)) == group_paths(gs),
    decreases gs.len(),
{
    let f = |g: Seq<DraftView>| album_paths(g);
    if gs.len() == 0 {
        lemma_album_paths_one(gs[0][0]);
        assert(gs.map_values(f) =~= Seq::empty());
    } else {
        let front = gs.drop_last();
        lemma_merged_groups_paths(front, roots);
        lemma_merged_group_paths(gs.last(), roots);
        let h = |d: DraftView| track_paths(d.tracks);
        let a = group::merged_groups(front, roots);
        let b = group::merged_group(gs.last(), roots);
        assert((a + b).map_values(h) =~= a.map_values(h) + b.map_values(h));
        lemma_gathered_concat(a.map_values(h), b.map_values(h));
        assert(gs.map_values(f).drop_last() =~= front.map_values(f));
    }
}

/// Grouping loses no file and invents none: the paths of all tracks of all
/// albums are the paths of the files that went in.
pub proof fn grouping_keeps_every_file(
    metas: Seq<TrackMeta>,
    roots: Seq<PathView>,
    listings: Seq<ListingView>,
)
    ensures
        album_paths(group::albums_of(metas, roots, listings)) == track_paths(metas),
{
    let bs = group::bucketed(metas);
    let fs = group::folded(bs);
    let ds = group::resolved_all(fs, roots, listings);
    let merged = group::merged_groups(group::by_identity(ds), roots);
    lemma_bucketed_paths(metas);
    lemma_fold_each_paths(bs, group::candidates(bs));
    lemma_resolved_paths(fs, roots, listings);
    lemma_by_identity_paths(ds);
    lemma_merged_groups_paths(group::by_identity(ds), roots);
    lemma_sorted_album_paths::<ShelfOrder>(merged);
}

/// Buckets that hold what their directory and key say, and no two alike.
pub open spec fn buckets_apart(bs: Seq<BucketView>) -> bool {
    &&& forall|i: int, j: int|
        #![trigger bs[i], bs[j]]
        0 <= i < j < bs.len() ==> bs[i].dir != bs[j].dir || bs[i].key != bs[j].key
    &&& forall|i: int, k: int|
        #![trigger bs[i].tracks[k]]
        0 <= i < bs.len() && 0 <= k < bs[i].tracks.len() ==> {
            &&& util::album_dir_of(bs[i].tracks[k].path@) == bs[i].dir
            &&& group::album_key(bs[i].tracks[k]) == bs[i].key
        }
}

/// Files of one album directory that share an album title land in one bucket,
/// whoever their artists are, so a compilation does not shatter; files of
/// different directories or titles land in different ones.
pub proof fn one_bucket_per_folder_and_title(metas: Seq<TrackMeta>)
    ensures
        buckets_apart(group::bucketed(metas)),
    decreases metas.len(),
{
    if metas.len() > 0 {
        let front = metas.drop_last();
        one_bucket_per_folder_and_title(front);
        let bs = group::bucketed(front);
        let m = metas.last();
        let dir = util::album_dir_of(m.path@);
        lemma_bucket_at(bs, dir, group::album_key(m), 0);
        let out = group::bucketed(metas);
        let i = group::bucket_at(bs, dir, group::album_key(m), 0);
        assert forall|a: int, k: int|
            #![trigger out[a].tracks[k]]
            0 <= a < out.len() && 0 <= k < out[a].tracks.len() implies {
            &&& util::album_dir_of(out[a].tracks[k].path@) == out[a].dir
            &&& group::album_key(out[a].tracks[k]) == out[a].key
        } by {
            if a < bs.len() && k < bs[a].tracks.len() {
                assert(out[a].tracks[k] == bs[a].tracks[k]);
            }
        }
        assert forall|a: int, b: int|
            #![trigger out[a], out[b]]
            0 <= a < b < out.len() implies out[a].dir != out[b].dir || out[a].key != out[b].key by {
            if b < bs.len() {
                assert(out[a].dir == bs[a].dir && out[a].key == bs[a].key);
                assert(out[b].dir == bs[b].dir && out[b].key == bs[b].key);
            } else {
                assert(out[a] == bs[a]);
            }
        }
    }
}

/// Every track of every bucket lies in the bucket's directory.
pub open spec fn in_their_folders(bs: Seq<BucketView>) -> bool {
    forall|i: int, k: int|
        #![trigger bs[i].tracks[k]]
        0 <= i < bs.len() && 0 <= k < bs[i].tracks.len() ==> util::album_dir_of(
            bs[i].tracks[k].path@,
        ) == bs[i].dir
}

proof fn lemma_fold_stays(bs: Seq<BucketView>, short: Seq<(PathView, Seq<char>)>)
    requires
        in_their_folders(bs),
    ensures
        in_their_folders(group::fold_each(bs, short)),
    decreases short.len(),
{
    if short.len() > 0 {
        lemma_fold_stays(bs, short.drop_last());
        let now = group::fold_each(bs, short.drop_last());
        let dir = short.last().0;
        let key = short.last().1;
        let t = group::fold_target(now, dir, key, now.len() as int);
        let i = group::bucket_at(now, dir, key, 0);
        lemma_fold_target(now, dir, key, now.len() as int);
        lemma_bucket_at(now, dir, key, 0);
        let out = group::fold_one(now, dir, key);
        if t >= 0 && i < now.len() {
            assert forall|a: int, k: int|
                #![trigger out[a].tracks[k]]
                0 <= a < out.len() && 0 <= k < out[a].tracks.len() implies util::album_dir_of(
                out[a].tracks[k].path@,
            ) == out[a].dir by {
                let b = if a < i {
                    a
                } else {
                    a + 1
                };
                if b == t {
                    if k < now[t].tracks.len() {
                        assert(out[a].tracks[k] == now[t].tracks[k]);
                    } else {
                        assert(out[a].tracks[k] == now[i].tracks[k - now[t].tracks.len()]);
                    }
                } else {
                    assert(out[a] == now[b]);
                    assert(out[a].tracks[k] == now[b].tracks[k]);
                }
            }
        }
    }
}

/// Folding cut-short titles never joins files of different folders.
pub proof fn folding_stays_inside_one_folder(metas: Seq<TrackMeta>)
    ensures
        in_their_folders(group::folded(group::bucketed(metas))),
{
    let bs = group::bucketed(metas);
    one_bucket_per_folder_and_title(metas);
    lemma_fold_stays(bs, group::candidates(bs));
}

/// When nothing told the discs of a merged release apart, each folder becomes a
/// disc of its own: the tracks of the folder at `i` are all on disc `i + 1`.
pub proof fn merged_folders_become_discs(g: Seq<DraftView>, i: int, k: int)
    requires
        0 <= i < g.len() <= u32::MAX,
        0 <= k < g[i].tracks.len(),
    ensures
        ({
            let t = TrackMeta { disc_no: (i + 1) as u32, ..g[i].tracks[k] };
            group::fused_tracks(g, true).contains(t)
        }),
    decreases g.len(),
{
    let n = g.len() - 1;
    let front = group::fused_tracks(g.drop_last(), true);
    let back = group::on_disc(g.last().tracks, g.len() as u32);
    let t = TrackMeta { disc_no: (i + 1) as u32, ..g[i].tracks[k] };
    if i < n {
        merged_folders_become_discs(g.drop_last(), i, k);
        let j = choose|j: int| 0 <= j < front.len() && front[j] == t;
        assert((front + back)[j] == t);
    } else {
        assert(back[k] == t);
        assert((front + back)[front.len() + k] == t);
    }
}

/// Drafts of one identity become one album of all their folders, up to the limit
/// on sibling folders, and one album per folder, identified by it, beyond.
pub proof fn box_sets_split_and_doubles_merge(g: Seq<DraftView>, roots: Seq<PathView>)
    requires
        g.len() > 1,
    ensures
        g.len() <= group::MAX_MERGED_FOLDERS ==> {
            &&& group::merged_group(g, roots).len() == 1
            &&& group::merged_group(g, roots)[0].source_dirs == g.len()
        },
        g.len() > group::MAX_MERGED_FOLDERS ==> {
            &&& group::merged_group(g, roots).len() == g.len()
            &&& forall|i: int|
                0 <= i < g.len() ==> {
                    &&& (#[trigger] group::merged_group(g, roots)[i]).source_dirs == 1
                    &&& group::merged_group(g, roots)[i].identity == IdentitySource::Directory
                }
        },
{
    order::sorting_permutes::<AlbumDraft, FolderOrder>(g);
}

proof fn lemma_play_order()
    ensures
        order::is_order::<TrackMeta, PlayOrder>(),
{
    assert forall|a: TrackMeta, b: TrackMeta|
        #![trigger PlayOrder::less(a, b)]
        !(PlayOrder::less(a, b) && PlayOrder::less(b, a)) by {
        path::path_order_is_total(a.path@, b.path@);
    }
    assert forall|a: TrackMeta, b: TrackMeta, c: TrackMeta|
        #![trigger PlayOrder::less(b, a), PlayOrder::less(c, b)]
        !PlayOrder::less(b, a) && !PlayOrder::less(c, b) implies !PlayOrder::less(c, a) by {
        path::path_order_is_total(a.path@, b.path@);
        path::path_order_is_total(b.path@, c.path@);
        path::path_order_is_total(a.path@, c.path@);
        if path::path_before(a.path@, b.path@) && path::path_before(b.path@, c.path@) {
            path::path_order_is_transitive(a.path@, b.path@, c.path@);
        }
    }
}

proof fn lemma_shelf_order()
    ensures
        order::is_order::<AlbumDraft, ShelfOrder>(),
{
    assert forall|a: DraftView, b: DraftView|
        #![trigger ShelfOrder::less(a, b)]
        !(ShelfOrder::less(a, b) && ShelfOrder::less(b, a)) by {
        text::text_order_is_total(
            group::filed_under(a.album_artist),
            group::filed_under(b.album_artist),
        );
        text::text_order_is_total(group::filed_under(a.title), group::filed_under(b.title));
    }
    assert forall|a: DraftView, b: DraftView, c: DraftView|
        #![trigger ShelfOrder::less(b, a), ShelfOrder::less(c, b)]
        !ShelfOrder::less(b, a) && !ShelfOrder::less(c, b) implies !ShelfOrder::less(c, a) by {
        lemma_text_chain(
            group::filed_under(a.album_artist),
            group::filed_under(b.album_artist),
            group::filed_under(c.album_artist),
        );
        lemma_text_chain(
            group::filed_under(a.title),
            group::filed_under(b.title),
            group::filed_under(c.title),
        );
    }
}

proof fn lemma_text_chain(a: Seq<char>, b: Seq<char>, c: Seq<char>)
    ensures
        text::text_before(a, b) || text::text_before(b, a) || a == b,
        text::text_before(b, c) || text::text_before(c, b) || b == c,
        text::text_before(a, c) || text::text_before(c, a) || a == c,
        !(text::text_before(a, b) && text::text_before(b, a)),
        !(text::text_before(b, c) && text::text_before(c, b)),
        !(text::text_before(a, c) && text::text_before(c, a)),
        text::text_before(a, b) && text::text_before(b, c) ==> text::text_before(a, c),
        !text::text_before(a, a) && !text::text_before(b, b) && !text::text_before(c, c),
{
    text::text_order_is_total(a, b);
    text::text_order_is_total(b, c);
    text::text_order_is_total(a, c);
    text::text_order_is_total(b, b);
    text::text_order_is_total(c, c);
    if text::text_before(a, b) && text::text_before(b, c) {
        text::text_order_is_transitive(a, b, c);
    }
}

/// An album's tracks stand in the order in which they play: no later track has a
/// lower disc number, or a lower track number on the same disc.
pub proof fn tracks_stand_in_play_order(tracks: Seq<TrackMeta>)
    ensures
        forall|i: int, j: int|
            0 <= i < j < group::in_play_order(tracks).len() ==> !group::plays_before(
                #[trigger] group::in_play_order(tracks)[j],
                #[trigger] group::in_play_order(tracks)[i],
            ),
{
    lemma_play_order();
    order::sorting_orders::<TrackMeta, PlayOrder>(tracks);
    let s = group::in_play_order(tracks);
    assert forall|i: int, j: int| 0 <= i < j < s.len() implies !group::plays_before(
        #[trigger] s[j],
        #[trigger] s[i],
    ) by {
        assert(!PlayOrder::less(s[j], s[i]));
    }
}

/// Albums come out by artist, then year, then title.
pub proof fn albums_stand_in_shelf_order(
    metas: Seq<TrackMeta>,
    roots: Seq<PathView>,
    listings: Seq<ListingView>,
)
    ensures
        forall|i: int, j: int|
            0 <= i < j < group::albums_of(metas, roots, listings).len() ==> !group::shelved_before(
                #[trigger] group::albums_of(metas, roots, listings)[j],
                #[trigger] group::albums_of(metas, roots, listings)[i],
            ),
{
    lemma_shelf_order();
    let merged = group::merged_groups(
        group::by_identity(
            group::resolved_all(group::folded(group::bucketed(metas)), roots, listings),
        ),
        roots,
    );
    order::sorting_orders::<AlbumDraft, ShelfOrder>(merged);
    let s = group::albums_of(metas, roots, listings);
    assert forall|i: int, j: int| 0 <= i < j < s.len() implies !group::shelved_before(
        #[trigger] s[j],
        #[trigger] s[i],
    ) by {
        assert(!ShelfOrder::less(s[j], s[i]));
    }
}

/// An album with tracks, which stand in the order in which they play.
pub open spec fn playable(d: DraftView) -> bool {
    &&& d.tracks.len() > 0
    &&& forall|i: int, j: int|
        0 <= i < j < d.tracks.len() ==> !group::plays_before(
            #[trigger] d.tracks[j],
            #[trigger] d.tracks[i],
        )
}

spec fn all_playable(ds: Seq<DraftView>) -> bool {
    forall|i: int| 0 <= i < ds.len() ==> playable(#[trigger] ds[i])
}

spec fn none_empty(bs: Seq<BucketView>) -> bool {
    forall|i: int| 0 <= i < bs.len() ==> (#[trigger] bs[i]).tracks.len() > 0
}

proof fn lemma_bucketed_none_empty(metas: Seq<TrackMeta>)
    ensures
        none_empty(group::bucketed(metas)),
    decreases metas.len(),
{
    if metas.len() > 0 {
        lemma_bucketed_none_empty(metas.drop_last());
        let bs = group::bucketed(metas.drop_last());
        let m = metas.last();
        lemma_bucket_at(bs, util::album_dir_of(m.path@), group::album_key(m), 0);
    }
}

proof fn lemma_fold_none_empty(bs: Seq<BucketView>, short: Seq<(PathView, Seq<char>)>)
    requires
        none_empty(bs),
    ensures
        none_empty(group::fold_each(bs, short)),
    decreases short.len(),
{
    if short.len() > 0 {
        lemma_fold_none_empty(bs, short.drop_last());
        let now = group::fold_each(bs, short.drop_last());
        let (dir, key) = short.last();
        lemma_fold_target(now, dir, key, now.len() as int);
        lemma_bucket_at(now, dir, key, 0);
        let to = group::fold_target(now, dir, key, now.len() as int);
        let at = group::bucket_at(now, dir, key, 0);
        if to >= 0 && at < now.len() {
            let out = group::fold_one(now, dir, key);
            assert forall|i: int| 0 <= i < out.len() implies (#[trigger] out[i]).tracks.len()
                > 0 by {
                let k = if i < at {
                    i
                } else {
                    i + 1
                };
                assert(now[k].tracks.len() > 0);
            }
        }
    }
}

proof fn lemma_play_order_len(ts: Seq<TrackMeta>)
    ensures
        group::in_play_order(ts).len() == ts.len(),
{
    order::sorting_permutes::<TrackMeta, PlayOrder>(ts);
}

spec fn groups_playable(gs: Seq<Seq<DraftView>>) -> bool {
    forall|i: int| 0 <= i < gs.len() ==> (#[trigger] gs[i]).len() > 0 && all_playable(gs[i])
}

proof fn lemma_by_identity_playable(ds: Seq<DraftView>)
    requires
        all_playable(ds),
    ensures
        groups_playable(group::by_identity(ds)),
    decreases ds.len(),
{
    if ds.len() > 0 {
        let (front, d) = (ds.drop_last(), ds.last());
        assert forall|i: int| 0 <= i < front.len() implies playable(#[trigger] front[i]) by {
            assert(playable(ds[i]));
        }
        assert(playable(ds[ds.len() - 1]));
        lemma_by_identity_playable(front);
        let gs = group::by_identity(front);
        lemma_group_at(gs, d.group_key, 0);
        let out = group::by_identity(ds);
        assert forall|i: int| 0 <= i < out.len() implies (#[trigger] out[i]).len() > 0
            && all_playable(out[i]) by {
            if i < gs.len() {
                assert(all_playable(gs[i]));
            }
            assert forall|k: int| 0 <= k < out[i].len() implies playable(#[trigger] out[i][k]) by {
                if i < gs.len() && k < gs[i].len() {
                    assert(playable(gs[i][k]));
                }
            }
        }
    }
}

proof fn lemma_sorted_playable<O: Order<AlbumDraft, Model = DraftView>>(ds: Seq<DraftView>)
    requires
        all_playable(ds),
    ensures
        all_playable(order::sorted::<AlbumDraft, O>(ds)),
        order::sorted::<AlbumDraft, O>(ds).len() == ds.len(),
    decreases ds.len(),
{
    if ds.len() > 0 {
        let (front, x) = (ds.drop_last(), ds.last());
        assert forall|i: int| 0 <= i < front.len() implies playable(#[trigger] front[i]) by {
            assert(playable(ds[i]));
        }
        assert(playable(ds[ds.len() - 1]));
        lemma_sorted_playable::<O>(front);
        let before = order::sorted::<AlbumDraft, O>(front);
        lemma_place_bounds::<AlbumDraft, O>(before, x, 0);
    }
}

proof fn lemma_fused_some(g: Seq<DraftView>, renumber: bool)
    requires
        g.len() > 0,
        all_playable(g),
    ensures
        group::fused_tracks(g, renumber).len() > 0,
{
    assert(playable(g[g.len() - 1]));
}

proof fn lemma_merged_group_playable(g: Seq<DraftView>, roots: Seq<PathView>)
    requires
        g.len() > 0,
        all_playable(g),
    ensures
        all_playable(group::merged_group(g, roots)),
{
    lemma_sorted_playable::<FolderOrder>(g);
    let s = order::sorted::<AlbumDraft, FolderOrder>(g);
    let out = group::merged_group(g, roots);
    if g.len() > 1 && s.len() > group::MAX_MERGED_FOLDERS {
        assert forall|i: int| 0 <= i < out.len() implies playable(#[trigger] out[i]) by {
            assert(playable(s[i]));
            assert(out[i].tracks == s[i].tracks);
        }
    } else if g.len() > 1 {
        let ts = group::fused_tracks(s, group::undifferentiated(s));
        lemma_fused_some(s, group::undifferentiated(s));
        lemma_play_order_len(ts);
        tracks_stand_in_play_order(ts);
        assert(out[0].tracks == group::in_play_order(ts));
    }
}

proof fn lemma_merged_groups_playable(gs: Seq<Seq<DraftView>>, roots: Seq<PathView>)
    requires
        groups_playable(gs),
    ensures
        all_playable(group::merged_groups(gs, roots)),
    decreases gs.len(),
{
    if gs.len() > 0 {
        let front = gs.drop_last();
        assert forall|i: int| 0 <= i < front.len() implies (#[trigger] front[i]).len() > 0
            && all_playable(front[i]) by {
            assert(all_playable(gs[i]));
        }
        lemma_merged_groups_playable(front, roots);
        assert(all_playable(gs[gs.len() - 1]));
        lemma_merged_group_playable(gs.last(), roots);
    }
}

/// No album comes out empty, and the tracks of each stand in the order in which
/// they play.
pub proof fn every_album_can_be_played(
    metas: Seq<TrackMeta>,
    roots: Seq<PathView>,
    listings: Seq<ListingView>,
)
    ensures
        forall|i: int|
            0 <= i < group::albums_of(metas, roots, listings).len() ==> playable(
                #[trigger] group::albums_of(metas, roots, listings)[i],
            ),
{
    lemma_bucketed_none_empty(metas);
    let b0 = group::bucketed(metas);
    lemma_fold_none_empty(b0, group::candidates(b0));
    let bs = group::folded(b0);
    let ds = group::resolved_all(bs, roots, listings);
    assert forall|i: int| 0 <= i < ds.len() implies playable(#[trigger] ds[i]) by {
        assert(bs[i].tracks.len() > 0);
        lemma_play_order_len(bs[i].tracks);
        tracks_stand_in_play_order(bs[i].tracks);
        assert(ds[i].tracks == group::in_play_order(bs[i].tracks));
    }
    lemma_by_identity_playable(ds);
    lemma_merged_groups_playable(group::by_identity(ds), roots);
    lemma_sorted_playable::<ShelfOrder>(group::merged_groups(group::by_identity(ds), roots));
}

} // verus!
