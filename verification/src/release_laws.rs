//! How files come together into releases: what an album takes over from its
//! tracks, whose credit counts, which files are filed together, and where a
//! release that spans folders stands.

use vstd::prelude::*;

use crate::group;
use crate::group::{BucketView, FolderOrder, ListingView, ShelfOrder};
use crate::identity_laws;
use crate::model::{AlbumDraft, DraftView, TrackMeta};
use crate::order;
use crate::order::Order;
use crate::path;
use crate::path::PathView;
use crate::text;
use crate::util;

verus! {

/// An album takes its facts from its tracks: its year from the earliest, its
/// credit from the artist most of them name for the album, else from their own,
/// and it is a compilation if one of them says so. Its cover is looked for in its
/// own folder.
pub proof fn albums_take_after_their_tracks(
    dir: PathView,
    tracks: Seq<TrackMeta>,
    roots: Seq<PathView>,
    listings: Seq<ListingView>,
    named: Seq<Option<Seq<char>>>,
)
    requires
        named.len() == group::in_play_order(tracks).len(),
        forall|i: int|
            0 <= i < named.len() ==> #[trigger] named[i] == text::opt_text(
                group::in_play_order(tracks)[i].album_artist_raw,
            ),
    ensures
        ({
            let d = group::resolved(dir, tracks, roots, listings);
            let ts = group::in_play_order(tracks);
            let flagged = exists|i: int| 0 <= i < ts.len() && (#[trigger] ts[i]).compilation;
            let credit = group::album_credit(
                util::majority_of(named),
                flagged,
                group::artists(ts),
                dir,
                roots,
            );
            &&& d.year == group::first_year(ts)
            &&& d.album_artist == credit.0
            &&& d.is_compilation == credit.1
            &&& flagged ==> d.is_compilation
            &&& d.art_path == group::cover_of(dir, listings, 0)
        }),
{
    let ts = group::in_play_order(tracks);
    assert(group::album_artists(ts) =~= named);
}

/// A cover comes from the listing of the album's own folder and from no other.
pub proof fn covers_come_from_the_album_folder(dir: PathView, listings: Seq<ListingView>, i: int, k: int)
    requires
        0 <= k <= i < listings.len(),
        forall|j: int| k <= j < i ==> (#[trigger] listings[j]).dir != dir,
    ensures
        listings[i].dir == dir ==> group::cover_of(dir, listings, k) == group::cover_from(
            listings[i].files,
            0,
            0,
        ),
        i == listings.len() - 1 && listings[i].dir != dir ==> group::cover_of(dir, listings, k)
            is None,
    decreases i - k,
{
    if k < i {
        covers_come_from_the_album_folder(dir, listings, i, k + 1);
    } else {
        assert(i == listings.len() - 1 ==> group::cover_of(dir, listings, i + 1) is None);
    }
}

/// Every credit is the name that some track gives, never a blank one, and each
/// track that names an artist is credited under some spelling.
pub proof fn credits_come_from_the_tracks(tracks: Seq<TrackMeta>)
    ensures
        forall|k: int|
            0 <= k < group::artists(tracks).len() ==> exists|i: int|
                0 <= i < tracks.len() && #[trigger] text::opt_text(tracks[i].artist_raw) == Some(
                    #[trigger] group::artists(tracks)[k],
                ) && !text::is_blank(group::artists(tracks)[k]),
        group::artists(tracks).len() == 0 <==> forall|i: int|
            0 <= i < tracks.len() ==> (#[trigger] tracks[i]).artist_raw is None || text::is_blank(
                tracks[i].artist_raw.unwrap()@,
            ),
        group::artists(tracks).len() <= tracks.len(),
    decreases tracks.len(),
{
    let all = group::artists(tracks);
    if tracks.len() > 0 {
        let front = tracks.drop_last();
        let before = group::artists(front);
        credits_come_from_the_tracks(front);
        let last = tracks[tracks.len() - 1];
        assert(last == tracks.last());
        let named = last.artist_raw is Some && !text::is_blank(last.artist_raw.unwrap()@);
        if named {
            lemma_credit_at(before, last.artist_raw.unwrap()@, 0);
        }
        assert forall|k: int| 0 <= k < all.len() implies exists|i: int|
            0 <= i < tracks.len() && #[trigger] text::opt_text(tracks[i].artist_raw) == Some(
                #[trigger] all[k],
            ) && !text::is_blank(all[k]) by {
            if k < before.len() && all[k] == before[k] {
                let i = choose|i: int|
                    0 <= i < front.len() && #[trigger] text::opt_text(front[i].artist_raw) == Some(
                        before[k],
                    ) && !text::is_blank(before[k]);
                assert(tracks[i] == front[i]);
                assert(text::opt_text(tracks[i].artist_raw) == Some(all[k]));
            } else {
                assert(text::opt_text(tracks[tracks.len() - 1].artist_raw) == Some(all[k]));
            }
        }
        if all.len() == 0 {
            assert forall|i: int| 0 <= i < tracks.len() implies (#[trigger] tracks[i]).artist_raw
                is None || text::is_blank(tracks[i].artist_raw.unwrap()@) by {
                if i < front.len() {
                    assert(front[i] == tracks[i]);
                }
            }
        } else {
            if !named {
                let i = choose|i: int|
                    0 <= i < front.len() && !((#[trigger] front[i]).artist_raw is None
                        || text::is_blank(front[i].artist_raw.unwrap()@));
                assert(tracks[i] == front[i]);
            }
        }
    }
}

proof fn lemma_credit_at(seen: Seq<Seq<char>>, name: Seq<char>, i: int)
    requires
        0 <= i <= seen.len(),
    ensures
        i <= group::credit_at(seen, name, i) <= seen.len(),
        group::credit_at(seen, name, i) < seen.len() ==> group::credits_match(
            seen[group::credit_at(seen, name, i)],
            name,
        ),
        forall|k: int|
            i <= k < group::credit_at(seen, name, i) ==> !group::credits_match(
                #[trigger] seen[k],
                name,
            ),
    decreases seen.len() - i,
{
    if i < seen.len() && !group::credits_match(seen[i], name) {
        lemma_credit_at(seen, name, i + 1);
    }
}

/// A further track adds a credit only for an artist that matches none so far; for
/// one that does, the longer spelling stays.
pub proof fn a_further_track_adds_a_new_artist_only(tracks: Seq<TrackMeta>, t: TrackMeta, i: int)
    requires
        t.artist_raw is Some,
        !text::is_blank(t.artist_raw.unwrap()@),
        0 <= i < group::artists(tracks).len(),
    ensures
        ({
            let before = group::artists(tracks);
            let after = group::artists(tracks.push(t));
            let name = t.artist_raw.unwrap()@;
            &&& (forall|k: int| 0 <= k < before.len() ==> !group::credits_match(#[trigger] before[k], name))
                ==> after == before.push(name)
            &&& group::credits_match(before[i], name) && (forall|k: int|
                0 <= k < i ==> !group::credits_match(#[trigger] before[k], name)) ==> {
                &&& after.len() == before.len()
                &&& text::byte_len(name) > text::byte_len(before[i]) ==> after[i] == name
                &&& text::byte_len(name) <= text::byte_len(before[i]) ==> after == before
                &&& forall|k: int| 0 <= k < before.len() && k != i ==> #[trigger] after[k] == before[k]
            }
        }),
{
    let before = group::artists(tracks);
    let name = t.artist_raw.unwrap()@;
    assert(tracks.push(t).drop_last() =~= tracks);
    lemma_credit_at(before, name, 0);
    let at = group::credit_at(before, name, 0);
    if group::credits_match(before[i], name) && (forall|k: int|
        0 <= k < i ==> !group::credits_match(#[trigger] before[k], name)) {
        assert(at == i) by {
            if at < i {
                assert(!group::credits_match(before[at], name));
            }
        }
    }
}

/// A track that names no artist adds no credit.
pub proof fn unnamed_artists_add_no_credit(tracks: Seq<TrackMeta>, t: TrackMeta)
    requires
        t.artist_raw is None || text::is_blank(t.artist_raw.unwrap()@),
    ensures
        group::artists(tracks.push(t)) == group::artists(tracks),
{
    assert(tracks.push(t).drop_last() =~= tracks);
}

/// Every file is filed under its own folder and title.
pub open spec fn filed_properly(bs: Seq<BucketView>) -> bool {
    forall|i: int, k: int|
        #![trigger bs[i].tracks[k]]
        0 <= i < bs.len() && 0 <= k < bs[i].tracks.len() ==> util::album_dir_of(
            bs[i].tracks[k].path@,
        ) == bs[i].dir && group::album_key(bs[i].tracks[k]) == bs[i].key
}

/// Files come together exactly by folder and title: those that are filed together
/// share both.
pub proof fn files_are_filed_by_folder_and_title(metas: Seq<TrackMeta>)
    ensures
        filed_properly(group::bucketed(metas)),
        forall|i: int|
            0 <= i < group::bucketed(metas).len() ==> (#[trigger] group::bucketed(
                metas,
            )[i]).tracks.len() > 0,
    decreases metas.len(),
{
    if metas.len() > 0 {
        let m = metas.last();
        let before = group::bucketed(metas.drop_last());
        let after = group::bucketed(metas);
        files_are_filed_by_folder_and_title(metas.drop_last());
        let dir = util::album_dir_of(m.path@);
        let at = group::bucket_at(before, dir, group::album_key(m), 0);
        lemma_bucket_at(before, dir, group::album_key(m), 0);
        assert forall|i: int, k: int|
            #![trigger after[i].tracks[k]]
            0 <= i < after.len() && 0 <= k < after[i].tracks.len() implies util::album_dir_of(
            after[i].tracks[k].path@,
        ) == after[i].dir && group::album_key(after[i].tracks[k]) == after[i].key by {
            if i == at {
                if at < before.len() {
                    if k < before[i].tracks.len() {
                        assert(after[i].tracks[k] == before[i].tracks[k]);
                    } else {
                        assert(after[i].tracks[k] == m);
                    }
                } else {
                    assert(after[i].tracks[k] == m);
                }
            } else {
                assert(after[i] == before[i]);
                assert(before[i].tracks[k] == after[i].tracks[k]);
            }
        }
        assert forall|i: int| 0 <= i < after.len() implies (#[trigger] after[i]).tracks.len() > 0 by {
            if i < before.len() {
                assert(before[i].tracks.len() > 0);
            }
        }
    }
}

proof fn lemma_bucket_at(bs: Seq<BucketView>, dir: PathView, key: Seq<char>, i: int)
    requires
        0 <= i <= bs.len(),
    ensures
        i <= group::bucket_at(bs, dir, key, i) <= bs.len(),
        group::bucket_at(bs, dir, key, i) < bs.len() ==> bs[group::bucket_at(bs, dir, key, i)].dir
            == dir && bs[group::bucket_at(bs, dir, key, i)].key == key,
        forall|k: int|
            i <= k < group::bucket_at(bs, dir, key, i) ==> (#[trigger] bs[k]).dir != dir || bs[k].key
                != key,
    decreases bs.len() - i,
{
    if i < bs.len() && !(bs[i].dir == dir && bs[i].key == key) {
        lemma_bucket_at(bs, dir, key, i + 1);
    }
}

/// Folding a cut title puts its files behind those of the title it continues as,
/// and touches no other; without such a title nothing changes.
pub proof fn folding_moves_files_over(bs: Seq<BucketView>, dir: PathView, short: Seq<char>, i: int)
    requires
        0 <= i < bs.len(),
        bs[i].dir == dir,
        bs[i].key == short,
        forall|k: int| 0 <= k < i ==> (#[trigger] bs[k]).dir != dir || bs[k].key != short,
    ensures
        ({
            let t = group::fold_target(bs, dir, short, bs.len() as int);
            let after = group::fold_one(bs, dir, short);
            &&& t < 0 ==> after == bs
            &&& 0 <= t < bs.len() && t != i ==> {
                let at = if t < i {
                    t
                } else {
                    t - 1
                };
                &&& after.len() == bs.len() - 1
                &&& after[at].tracks == bs[t].tracks + bs[i].tracks
                &&& after[at].dir == bs[t].dir && after[at].key == bs[t].key
                &&& forall|k: int|
                    0 <= k < bs.len() && k != i && k != t ==> #[trigger] bs[k] == after[if k < i {
                        k
                    } else {
                        k - 1
                    }]
            }
        }),
{
    lemma_bucket_at(bs, dir, short, 0);
    let at = group::bucket_at(bs, dir, short, 0);
    assert(at == i) by {
        if at < i {
            assert(bs[at].dir == dir && bs[at].key == short);
        }
    }
}

/// A title counts as cut where every file that bears it has one of thirty bytes.
pub proof fn wholly_cut_titles_are_folded(b: BucketView, k: int)
    requires
        b.key.len() > 0,
        0 <= k < b.tracks.len(),
    ensures
        (forall|i: int|
            0 <= i < b.tracks.len() ==> (#[trigger] b.tracks[i]).album_raw is Some && text::byte_len(
                util::without_disc(b.tracks[i].album_raw.unwrap()@).0,
            ) == 30) ==> group::cut_short(b),
        b.tracks[k].album_raw is None ==> !group::cut_short(b),
{
    if forall|i: int|
        0 <= i < b.tracks.len() ==> (#[trigger] b.tracks[i]).album_raw is Some && text::byte_len(
            util::without_disc(b.tracks[i].album_raw.unwrap()@).0,
        ) == 30 {
        assert forall|i: int| 0 <= i < b.tracks.len() implies group::cut_title(
            #[trigger] b.tracks[i],
        ) by {}
    }
    if b.tracks[k].album_raw is None {
        assert(!group::cut_title(b.tracks[k]));
    }
}

/// What two paths share is the longest run of components that both begin with.
pub proof fn paths_share_their_longest_beginning(a: Seq<Seq<char>>, b: Seq<Seq<char>>)
    ensures
        ({
            let s = group::shared_parts(a, b);
            &&& s.is_prefix_of(a)
            &&& s.is_prefix_of(b)
            &&& s.len() < a.len() && s.len() < b.len() ==> a[s.len() as int] != b[s.len() as int]
        }),
    decreases a.len(),
{
    let s = group::shared_parts(a, b);
    if a.len() > 0 && b.len() > 0 && a[0] == b[0] {
        let (x, y) = (a.drop_first(), b.drop_first());
        let t = group::shared_parts(x, y);
        paths_share_their_longest_beginning(x, y);
        assert(s == seq![a[0]] + t);
        assert(t =~= x.take(t.len() as int));
        assert(t =~= y.take(t.len() as int));
        assert forall|i: int| 0 <= i < s.len() implies s[i] == a[i] && s[i] == b[i] by {
            if i > 0 {
                assert(s[i] == t[i - 1]);
                assert(t[i - 1] == x[i - 1]);
                assert(t[i - 1] == y[i - 1]);
            }
        }
        if s.len() < a.len() && s.len() < b.len() {
            assert(x[t.len() as int] == a[s.len() as int]);
            assert(y[t.len() as int] == b[s.len() as int]);
        }
    }
    assert(s =~= a.take(s.len() as int));
    assert(s =~= b.take(s.len() as int));
}

/// A release that spans folders stands in the folder that holds them all.
pub proof fn releases_stand_above_their_folders(paths: Seq<PathView>, i: int)
    requires
        0 <= i < paths.len(),
    ensures
        ({
            let top = group::shared_by_all(paths);
            &&& !top.is_empty() ==> group::ancestor(paths) == top
            &&& !top.is_empty() ==> paths[i].rooted == top.rooted && top.parts.is_prefix_of(
                paths[i].parts,
            )
            &&& top.is_empty() ==> group::ancestor(paths) == paths[0]
        }),
    decreases paths.len(),
{
    let top = group::shared_by_all(paths);
    if paths.len() == 1 {
        assert(paths[0].parts.take(paths[0].parts.len() as int) =~= paths[0].parts);
    } else {
        let front = paths.drop_last();
        let above = group::shared_by_all(front);
        paths_share_their_longest_beginning(above.parts, paths.last().parts);
        if i < front.len() {
            releases_stand_above_their_folders(front, i);
            assert(front[i] == paths[i]);
            if !top.is_empty() {
                assert(above.rooted == paths.last().rooted);
                assert(!above.is_empty()) by {
                    if above.is_empty() {
                        assert(top.parts.len() == 0);
                    }
                }
                let p = paths[i].parts;
                assert forall|k: int| 0 <= k < top.parts.len() implies top.parts[k] == p[k] by {
                    assert(above.parts.take(top.parts.len() as int)[k] == above.parts[k]);
                    assert(p.take(above.parts.len() as int)[k] == p[k]);
                }
                assert(top.parts =~= p.take(top.parts.len() as int));
            }
        }
    }
    assert(top.is_empty() <==> !top.rooted && top.parts.len() == 0);
}

/// Folders that tell their discs apart keep their numbering when they are merged;
/// those that all claim to be the first disc do not.
pub proof fn numbered_discs_are_kept(g: Seq<DraftView>, i: int, k: int)
    requires
        0 <= i < g.len(),
        0 <= k < g[i].tracks.len(),
    ensures
        group::fused_tracks(g, false).contains(g[i].tracks[k]),
        g[i].tracks[k].disc_no != 1 ==> !group::undifferentiated(g),
    decreases g.len(),
{
    let front = group::fused_tracks(g.drop_last(), false);
    let back = g.last().tracks;
    let t = g[i].tracks[k];
    if i < g.len() - 1 {
        numbered_discs_are_kept(g.drop_last(), i, k);
        let j = choose|j: int| 0 <= j < front.len() && front[j] == t;
        assert((front + back)[j] == t);
    } else {
        assert((front + back)[front.len() + k] == t);
    }
}

/// An album in a single folder is left as it is. One in two to four folders takes
/// its names from the folder that sorts first.
pub proof fn the_first_folder_names_the_release(g: Seq<DraftView>, roots: Seq<PathView>)
    requires
        0 < g.len() <= 4,
    ensures
        g.len() == 1 ==> group::merged_group(g, roots) == g,
        g.len() > 1 ==> exists|i: int|
            {
                let one = group::merged_group(g, roots)[0];
                &&& 0 <= i < g.len()
                &&& one.title == (#[trigger] g[i]).title
                &&& one.album_artist == g[i].album_artist
                &&& one.group_key == g[i].group_key
                &&& one.mb_album_id == g[i].mb_album_id
                &&& one.identity == g[i].identity
                &&& forall|j: int|
                    0 <= j < g.len() ==> !path::path_before(
                        (#[trigger] g[j]).dir_path,
                        g[i].dir_path,
                    )
            },
{
    if g.len() > 1 {
        let s = order::sorted::<AlbumDraft, FolderOrder>(g);
        order::sorting_permutes::<AlbumDraft, FolderOrder>(g);
        lemma_folder_order();
        order::sorting_orders::<AlbumDraft, FolderOrder>(g);
        lemma_same_items(s, g);
        assert(g.contains(s[0]));
        let i = choose|i: int| 0 <= i < g.len() && g[i] == s[0];
        assert forall|j: int| 0 <= j < g.len() implies !path::path_before(
            (#[trigger] g[j]).dir_path,
            g[i].dir_path,
        ) by {
            lemma_same_items(g, s);
            assert(s.contains(g[j]));
            let k = choose|k: int| 0 <= k < s.len() && s[k] == g[j];
            if k > 0 {
                assert(!FolderOrder::less(s[k], s[0]));
            } else {
                path::path_order_is_total(g[j].dir_path, g[i].dir_path);
            }
        }
        assert(group::merged_group(g, roots)[0].title == g[i].title);
    }
}

proof fn lemma_same_items(a: Seq<DraftView>, b: Seq<DraftView>)
    requires
        a.to_multiset() == b.to_multiset(),
    ensures
        forall|i: int| 0 <= i < a.len() ==> b.contains(#[trigger] a[i]),
{
    broadcast use vstd::seq_lib::group_to_multiset_ensures;

    assert forall|i: int| 0 <= i < a.len() implies b.contains(#[trigger] a[i]) by {
        assert(a.contains(a[i]));
        assert(a.to_multiset().count(a[i]) > 0);
        assert(b.to_multiset().count(a[i]) > 0);
    }
}

proof fn lemma_folder_order()
    ensures
        order::is_order::<AlbumDraft, FolderOrder>(),
{
    assert forall|a: DraftView, b: DraftView|
        #![trigger FolderOrder::less(a, b)]
        !(FolderOrder::less(a, b) && FolderOrder::less(b, a)) by {
        path::path_order_is_total(a.dir_path, b.dir_path);
    }
    assert forall|a: DraftView, b: DraftView, c: DraftView|
        #![trigger FolderOrder::less(b, a), FolderOrder::less(c, b)]
        !FolderOrder::less(b, a) && !FolderOrder::less(c, b) implies !FolderOrder::less(c, a) by {
        path::path_order_is_total(a.dir_path, b.dir_path);
        path::path_order_is_total(b.dir_path, c.dir_path);
        path::path_order_is_total(a.dir_path, c.dir_path);
        if path::path_before(a.dir_path, b.dir_path) && path::path_before(b.dir_path, c.dir_path) {
            path::path_order_is_transitive(a.dir_path, b.dir_path, c.dir_path);
        }
    }
}

/// The titles to fold are those that are wholly cut, in the order of their buckets.
pub proof fn cut_titles_are_the_ones_to_fold(a: Seq<BucketView>, b: Seq<BucketView>, one: BucketView)
    ensures
        group::candidates(a + b) == group::candidates(a) + group::candidates(b),
        group::cut_short(one) ==> group::candidates(seq![one]) == seq![(one.dir, one.key)],
        !group::cut_short(one) ==> group::candidates(seq![one]).len() == 0,
    decreases b.len(),
{
    assert(seq![one].drop_last() =~= Seq::empty());
    assert(group::candidates(seq![one].drop_last()) =~= Seq::empty());
    if group::cut_short(one) {
        assert(group::candidates(seq![one]) =~= seq![(one.dir, one.key)]);
    }
    if b.len() == 0 {
        assert(a + b =~= a);
        assert(group::candidates(a) + group::candidates(b) =~= group::candidates(a));
    } else {
        cut_titles_are_the_ones_to_fold(a, b.drop_last(), one);
        assert((a + b).drop_last() =~= a + b.drop_last());
        assert((a + b).last() == b.last());
        assert(group::candidates(a + b) =~= group::candidates(a) + group::candidates(b));
    }
}

proof fn lemma_no_candidates(bs: Seq<BucketView>)
    requires
        forall|k: int| 0 <= k < bs.len() ==> !group::cut_short(#[trigger] bs[k]),
    ensures
        group::candidates(bs) == Seq::<(PathView, Seq<char>)>::empty(),
    decreases bs.len(),
{
    if bs.len() > 0 {
        let front = bs.drop_last();
        assert forall|k: int| 0 <= k < front.len() implies !group::cut_short(#[trigger] front[k]) by {
            assert(front[k] == bs[k]);
        }
        lemma_no_candidates(front);
        assert(!group::cut_short(bs[bs.len() - 1]));
    }
}

/// A cut title beside the whole one joins it: where one title alone is cut, and
/// another in its folder continues it, their files end up together.
pub proof fn a_cut_title_joins_the_whole_one(bs: Seq<BucketView>, i: int, t: int)
    requires
        0 <= i < bs.len(),
        0 <= t < bs.len(),
        i != t,
        group::cut_short(bs[i]),
        forall|k: int| 0 <= k < bs.len() && k != i ==> !group::cut_short(#[trigger] bs[k]),
        forall|k: int|
            0 <= k < i ==> (#[trigger] bs[k]).dir != bs[i].dir || bs[k].key != bs[i].key,
        t == group::fold_target(bs, bs[i].dir, bs[i].key, bs.len() as int),
    ensures
        ({
            let after = group::folded(bs);
            let at = if t < i {
                t
            } else {
                t - 1
            };
            &&& after.len() == bs.len() - 1
            &&& after[at].tracks == bs[t].tracks + bs[i].tracks
            &&& after[at].key == bs[t].key
        }),
{
    let (a, one, b) = (bs.take(i), bs[i], bs.skip(i + 1));
    assert(bs =~= a + seq![one] + b);
    assert forall|k: int| 0 <= k < a.len() implies !group::cut_short(#[trigger] a[k]) by {
        assert(a[k] == bs[k]);
    }
    assert forall|k: int| 0 <= k < b.len() implies !group::cut_short(#[trigger] b[k]) by {
        assert(b[k] == bs[i + 1 + k]);
    }
    lemma_no_candidates(a);
    lemma_no_candidates(b);
    cut_titles_are_the_ones_to_fold(a + seq![one], b, one);
    cut_titles_are_the_ones_to_fold(a, seq![one], one);
    let short = seq![(one.dir, one.key)];
    assert(group::candidates(bs) =~= short);
    assert(short.drop_last() =~= Seq::empty());
    assert(group::fold_each(bs, short.drop_last()) == bs);
    folding_moves_files_over(bs, one.dir, one.key, i);
}

/// No two albums share an identity, as long as none spans so many folders that it
/// is split up again: what has one identity becomes one album.
pub proof fn one_album_per_identity(
    metas: Seq<TrackMeta>,
    roots: Seq<PathView>,
    listings: Seq<ListingView>,
)
    requires
        ({
            let drafts = group::resolved_all(
                group::folded(group::bucketed(metas)),
                roots,
                listings,
            );
            forall|i: int|
                0 <= i < group::by_identity(drafts).len() ==> (#[trigger] group::by_identity(
                    drafts,
                )[i]).len() <= 4
        }),
    ensures
        forall|i: int, j: int|
            0 <= i < j < group::albums_of(metas, roots, listings).len() ==> (
            #[trigger] group::albums_of(metas, roots, listings)[i]).group_key != (
            #[trigger] group::albums_of(metas, roots, listings)[j]).group_key,
        ({
            let drafts = group::resolved_all(
                group::folded(group::bucketed(metas)),
                roots,
                listings,
            );
            group::albums_of(metas, roots, listings).len() == group::by_identity(drafts).len()
        }),
{
    let drafts = group::resolved_all(group::folded(group::bucketed(metas)), roots, listings);
    let gs = group::by_identity(drafts);
    identity_laws::only_one_identity_is_merged(drafts);
    lemma_merged_keys(gs, roots);
    let s = group::merged_groups(gs, roots);
    let t = group::albums_of(metas, roots, listings);
    assert forall|i: int, j: int| 0 <= i < j < s.len() implies s[i] != s[j] by {
        assert(s[i].group_key == gs[i][0].group_key);
        assert(s[j].group_key == gs[j][0].group_key);
    }
    assert(s.no_duplicates());
    order::sorting_permutes::<AlbumDraft, ShelfOrder>(s);
    s.lemma_multiset_has_no_duplicates();
    t.lemma_multiset_has_no_duplicates_conv();
    lemma_same_items(t, s);
    assert forall|i: int, j: int| 0 <= i < j < t.len() implies (#[trigger] t[i]).group_key != (
    #[trigger] t[j]).group_key by {
        assert(s.contains(t[i]) && s.contains(t[j]));
        let x = choose|x: int| 0 <= x < s.len() && s[x] == t[i];
        let y = choose|y: int| 0 <= y < s.len() && s[y] == t[j];
        assert(x != y);
        assert(s[x].group_key == gs[x][0].group_key);
        assert(s[y].group_key == gs[y][0].group_key);
        if x < y {
            assert(gs[x][0].group_key != gs[y][0].group_key);
        } else {
            assert(gs[y][0].group_key != gs[x][0].group_key);
        }
    }
}

proof fn lemma_merged_keys(gs: Seq<Seq<DraftView>>, roots: Seq<PathView>)
    requires
        forall|i: int| 0 <= i < gs.len() ==> 0 < (#[trigger] gs[i]).len() <= 4,
        forall|i: int, k: int|
            #![trigger gs[i][k]]
            0 <= i < gs.len() && 0 <= k < gs[i].len() ==> gs[i][k].group_key == gs[i][0].group_key,
    ensures
        group::merged_groups(gs, roots).len() == gs.len(),
        forall|i: int|
            0 <= i < gs.len() ==> (#[trigger] group::merged_groups(gs, roots)[i]).group_key
                == gs[i][0].group_key,
    decreases gs.len(),
{
    if gs.len() > 0 {
        let front = gs.drop_last();
        let g = gs.last();
        assert(g == gs[gs.len() - 1]);
        assert forall|i: int| 0 <= i < front.len() implies 0 < (#[trigger] front[i]).len() <= 4 by {
            assert(front[i] == gs[i]);
        }
        assert forall|i: int, k: int|
            #![trigger front[i][k]]
            0 <= i < front.len() && 0 <= k < front[i].len() implies front[i][k].group_key
            == front[i][0].group_key by {
            assert(front[i] == gs[i]);
            assert(gs[i][k].group_key == gs[i][0].group_key);
        }
        lemma_merged_keys(front, roots);
        let before = group::merged_groups(front, roots);
        let one = group::merged_group(g, roots);
        let s = order::sorted::<AlbumDraft, FolderOrder>(g);
        order::sorting_permutes::<AlbumDraft, FolderOrder>(g);
        lemma_same_items(s, g);
        assert(one.len() == 1);
        assert(one[0].group_key == g[0].group_key) by {
            if g.len() > 1 {
                assert(g.contains(s[0]));
                let k = choose|k: int| 0 <= k < g.len() && g[k] == s[0];
                assert(gs[gs.len() - 1][k].group_key == gs[gs.len() - 1][0].group_key);
            }
        }
        assert forall|i: int| 0 <= i < gs.len() implies (#[trigger] group::merged_groups(
            gs,
            roots,
        )[i]).group_key == gs[i][0].group_key by {
            if i < front.len() {
                assert((before + one)[i] == before[i]);
                assert(front[i] == gs[i]);
            } else {
                assert((before + one)[i] == one[0]);
            }
        }
    }
}

} // verus!
