//! What albums are told apart by and what they are called: identities, credits,
//! titles, years, covers and the order on the shelf.

use vstd::prelude::*;

use crate::group;
use crate::group::{BucketView, ListingView};
use crate::model::{DraftView, IdentitySource, TrackMeta};
use crate::path;
use crate::path::PathView;
use crate::text;
use crate::text_laws;
use crate::util;

verus! {

/// The year as it stands in an identity.
pub open spec fn year_text(year: Option<i32>) -> Seq<char> {
    match year {
        Some(y) => text::int_text(y as int),
        None => Seq::empty(),
    }
}

proof fn lemma_year_text(a: Option<i32>, b: Option<i32>)
    ensures
        year_text(a) == year_text(b) <==> a == b,
{
    if let Some(x) = a {
        if let Some(y) = b {
            text_laws::different_numbers_are_written_differently(x as int, y as int);
        }
        text_laws::different_numbers_are_written_differently(x as int, x as int);
    }
    if let Some(y) = b {
        text_laws::different_numbers_are_written_differently(y as int, y as int);
    }
}

proof fn lemma_bar(a: Seq<char>, t: Seq<char>, y: Seq<char>)
    ensures
        "aa:"@ + a + "|"@ + t + "|"@ + y == "aa:"@ + (a + seq!['|'] + (t + seq!['|'] + y)),
{
    reveal_strlit("|");
    assert("|"@ =~= seq!['|']);
    assert("aa:"@ + a + "|"@ + t + "|"@ + y =~= "aa:"@ + (a + seq!['|'] + (t + seq!['|'] + y)));
}

/// An identity made of artist, title and year tells all three apart: two albums
/// with complete titles share one only when artist and title agree, case and gaps
/// aside, and the year is the same. A bar in a name could be taken for the one
/// between the parts, so names hold none.
pub proof fn identities_tell_artist_title_and_year_apart(
    artist: Seq<char>,
    title: Seq<char>,
    year: Option<i32>,
    dir: PathView,
    artist2: Seq<char>,
    title2: Seq<char>,
    year2: Option<i32>,
    dir2: PathView,
    roots: Seq<PathView>,
)
    requires
        !group::truncated(title),
        !group::truncated(title2),
        !util::norm(artist).contains('|'),
        !util::norm(artist2).contains('|'),
        !util::norm(title).contains('|'),
        !util::norm(title2).contains('|'),
    ensures
        group::title_identity(artist, title, year, dir, roots) == group::title_identity(
            artist2,
            title2,
            year2,
            dir2,
            roots,
        ) <==> util::norm(artist) == util::norm(artist2) && util::norm(title) == util::norm(title2)
            && year == year2,
{
    let (a, t, y) = (util::norm(artist), util::norm(title), year_text(year));
    let (b, u, z) = (util::norm(artist2), util::norm(title2), year_text(year2));
    let k = group::title_identity(artist, title, year, dir, roots);
    let l = group::title_identity(artist2, title2, year2, dir2, roots);
    lemma_bar(a, t, y);
    lemma_bar(b, u, z);
    let (m, n) = (a + seq!['|'] + (t + seq!['|'] + y), b + seq!['|'] + (u + seq!['|'] + z));
    assert(k == "aa:"@ + m);
    assert(l == "aa:"@ + n);
    if k == l {
        assert(m =~= k.skip("aa:"@.len() as int));
        assert(n =~= l.skip("aa:"@.len() as int));
        text_laws::joined_texts_come_apart(a, t + seq!['|'] + y, b, u + seq!['|'] + z, '|');
        text_laws::joined_texts_come_apart(t, y, u, z, '|');
    }
    lemma_year_text(year, year2);
}

/// Releases of one artist under one title in different years are different albums.
pub proof fn different_years_are_different_albums(
    artist: Seq<char>,
    title: Seq<char>,
    year: Option<i32>,
    other: Option<i32>,
    dir: PathView,
    dir2: PathView,
    roots: Seq<PathView>,
)
    requires
        !group::truncated(title),
        year != other,
    ensures
        group::title_identity(artist, title, year, dir, roots) != group::title_identity(
            artist,
            title,
            other,
            dir2,
            roots,
        ),
{
    let (a, t) = (util::norm(artist), util::norm(title));
    lemma_bar(a, t, year_text(year));
    lemma_bar(a, t, year_text(other));
    lemma_year_text(year, other);
    let k = group::title_identity(artist, title, year, dir, roots);
    let l = group::title_identity(artist, title, other, dir2, roots);
    let head = "aa:"@ + a + "|"@ + t + "|"@;
    assert(k =~= head + year_text(year));
    assert(l =~= head + year_text(other));
    if k == l {
        assert(year_text(year) =~= k.skip(head.len() as int));
        assert(year_text(other) =~= l.skip(head.len() as int));
    }
}

/// A title that may have been cut short is told apart by its directory as well: two
/// such albums of one artist, title and year share an identity only in one place.
pub proof fn cut_titles_keep_to_their_directory(
    artist: Seq<char>,
    title: Seq<char>,
    year: Option<i32>,
    dir: PathView,
    dir2: PathView,
    roots: Seq<PathView>,
)
    requires
        text::byte_len(title) == 30,
    ensures
        group::title_identity(artist, title, year, dir, roots) == group::title_identity(
            artist,
            title,
            year,
            dir2,
            roots,
        ) <==> group::relative_to(dir, roots, 0) == group::relative_to(dir2, roots, 0),
{
    let head = "aa:"@ + util::norm(artist) + "|"@ + util::norm(title) + "|"@ + year_text(year)
        + "|dir:"@;
    let k = group::title_identity(artist, title, year, dir, roots);
    let l = group::title_identity(artist, title, year, dir2, roots);
    let (x, y) = (group::relative_to(dir, roots, 0), group::relative_to(dir2, roots, 0));
    assert(k =~= head + x);
    assert(l =~= head + y);
    if k == l {
        assert(x =~= k.skip(head.len() as int));
        assert(y =~= l.skip(head.len() as int));
    }
}

/// A title is taken to be cut short when it fills the thirty bytes of an old tag
/// exactly, and only then.
pub proof fn thirty_bytes_look_cut(title: Seq<char>)
    ensures
        group::truncated(title) <==> text::byte_len(title) == 30,
{
}

/// Directories share an identity only when they lie at the same place below their
/// root.
pub proof fn folder_identities_tell_folders_apart(dir: PathView, dir2: PathView, roots: Seq<PathView>)
    ensures
        group::folder_identity(dir, roots) == group::folder_identity(dir2, roots)
            <==> group::relative_to(dir, roots, 0) == group::relative_to(dir2, roots, 0),
        "dir:"@.is_prefix_of(group::folder_identity(dir, roots)),
{
    let (k, l) = (group::folder_identity(dir, roots), group::folder_identity(dir2, roots));
    let (x, y) = (group::relative_to(dir, roots, 0), group::relative_to(dir2, roots, 0));
    assert("dir:"@ =~= k.subrange(0, "dir:"@.len() as int));
    if k == l {
        assert(x =~= k.skip("dir:"@.len() as int));
        assert(y =~= l.skip("dir:"@.len() as int));
    }
}

/// What an album is known by, best evidence first: a release ID when the tags agree
/// on one, else artist, title and year when any album tag is there, and the folder
/// only for want of both.
pub proof fn identities_rest_on_the_best_evidence(
    dir: PathView,
    tracks: Seq<TrackMeta>,
    roots: Seq<PathView>,
    listings: Seq<ListingView>,
)
    ensures
        ({
            let d = group::resolved(dir, tracks, roots, listings);
            let ts = group::in_play_order(tracks);
            let mb = util::majority_of(group::release_ids(ts));
            let tagged = exists|i: int| 0 <= i < ts.len() && (#[trigger] ts[i]).album_raw is Some;
            &&& d.mb_album_id == mb
            &&& mb matches Some(id) ==> d.identity == IdentitySource::MusicBrainz && d.group_key
                == "mb:"@ + id
            &&& mb is None && tagged ==> d.identity == IdentitySource::ArtistTitle && d.group_key
                == group::title_identity(d.album_artist, d.title, d.year, dir, roots)
            &&& mb is None && !tagged ==> d.identity == IdentitySource::Directory && d.group_key
                == group::folder_identity(dir, roots)
        }),
{
}

/// Identities of different kinds never collide.
pub proof fn kinds_of_identity_never_collide(
    id: Seq<char>,
    artist: Seq<char>,
    title: Seq<char>,
    year: Option<i32>,
    dir: PathView,
    dir2: PathView,
    roots: Seq<PathView>,
)
    ensures
        "mb:"@ + id != group::title_identity(artist, title, year, dir, roots),
        "mb:"@ + id != group::folder_identity(dir2, roots),
        group::title_identity(artist, title, year, dir, roots) != group::folder_identity(
            dir2,
            roots,
        ),
{
    reveal_strlit("mb:");
    reveal_strlit("aa:");
    reveal_strlit("dir:");
    assert(("mb:"@ + id)[0] == 'm');
    assert(group::title_identity(artist, title, year, dir, roots)[0] == 'a');
    assert(group::folder_identity(dir2, roots)[0] == 'd');
}

/// What an album is called: by the title that most tracks agree on, without its
/// disc marker, or else by its folder.
pub proof fn albums_are_called_by_their_tags(
    dir: PathView,
    tracks: Seq<TrackMeta>,
    roots: Seq<PathView>,
    listings: Seq<ListingView>,
)
    ensures
        ({
            let d = group::resolved(dir, tracks, roots, listings);
            let ts = group::in_play_order(tracks);
            &&& match util::majority_of(group::titles(ts)) {
                Some(t) => d.title == t,
                None => match dir.file_name() {
                    Some(name) => d.title == name,
                    None => d.title == "Unknown Album"@,
                },
            }
            &&& group::titles(ts).len() == ts.len()
            &&& forall|i: int|
                0 <= i < ts.len() ==> #[trigger] group::titles(ts)[i] == match ts[i].album_raw {
                    Some(a) => Some(util::without_disc(a@).0),
                    None => None,
                }
            &&& d.dir_path == dir
            &&& d.source_dirs == 1
            &&& d.tracks == ts
        }),
{
}

/// Who an album is by. A tagged album artist wins. Without one, a flagged
/// compilation is by various artists; so is an album whose tracks credit several.
/// One artist throughout is the artist; and with no credit at all the folder above
/// tells, unless that is a library root.
pub proof fn credits_are_decided_in_order(
    tagged: Option<Seq<char>>,
    flagged: bool,
    credited: Seq<Seq<char>>,
    dir: PathView,
    roots: Seq<PathView>,
)
    ensures
        ({
            let c = group::album_credit(tagged, flagged, credited, dir, roots);
            &&& tagged matches Some(a) ==> c.0 == a
            &&& tagged is None && (flagged || credited.len() > 1) ==> c == ("Various Artists"@, true)
            &&& tagged is None && !flagged && credited.len() == 1 ==> c == (credited[0], false)
            &&& tagged is None && !flagged && credited.len() == 0 ==> !c.1
            &&& flagged ==> c.1
            &&& tagged is Some && !flagged ==> c.1 == (util::norm(tagged.unwrap())
                == "various artists"@)
            &&& tagged is None && !flagged && credited.len() == 0 && dir.parts.len() > 0
                && roots.contains(
                PathView { rooted: dir.rooted, parts: dir.parts.drop_last() },
            ) ==> c.0 == "Unknown Artist"@
            &&& tagged is None && !flagged && credited.len() == 0 && dir.parts.len() > 1
                && !roots.contains(PathView { rooted: dir.rooted, parts: dir.parts.drop_last() })
                && dir.parts[dir.parts.len() - 2] != path::dot() && dir.parts[dir.parts.len() - 2]
                != path::dot_dot() && !text::is_blank(dir.parts[dir.parts.len() - 2]) ==> c.0
                == dir.parts[dir.parts.len() - 2]
        }),
{
    if dir.parts.len() > 1 {
        assert(dir.parts.drop_last().last() == dir.parts[dir.parts.len() - 2]);
    }
}

/// The year of an album is the earliest that any of its tracks names; it has none
/// only when none of them does.
pub proof fn albums_are_dated_by_their_earliest_track(tracks: Seq<TrackMeta>)
    ensures
        match group::first_year(tracks) {
            Some(y) => {
                &&& exists|i: int| 0 <= i < tracks.len() && (#[trigger] tracks[i]).year == Some(y)
                &&& forall|i: int|
                    0 <= i < tracks.len() && (#[trigger] tracks[i]).year is Some
                        ==> tracks[i].year.unwrap() >= y
            },
            None => forall|i: int| 0 <= i < tracks.len() ==> (#[trigger] tracks[i]).year is None,
        },
    decreases tracks.len(),
{
    if tracks.len() > 0 {
        let front = tracks.drop_last();
        albums_are_dated_by_their_earliest_track(front);
        let n = tracks.len() - 1;
        assert forall|i: int| 0 <= i < n implies #[trigger] tracks[i] == front[i] by {}
        if let Some(y) = group::first_year(front) {
            let i = choose|i: int| 0 <= i < front.len() && (#[trigger] front[i]).year == Some(y);
            assert(tracks[i].year == Some(y));
        }
        assert(tracks[n] == tracks.last());
    }
}

/// Two credits name one artist when they agree, case and gaps aside, or when one
/// fills thirty bytes and the other goes on from it. Which comes first does not
/// matter.
pub proof fn one_artist_under_two_spellings(a: Seq<char>, b: Seq<char>)
    ensures
        group::credits_match(a, b) == group::credits_match(b, a),
        group::credits_match(a, a),
        util::norm(a) == util::norm(b) ==> group::credits_match(a, b),
        text::byte_len(a) == 30 && util::norm(a).is_prefix_of(util::norm(b))
            ==> group::credits_match(a, b),
        text::byte_len(a) != 30 && text::byte_len(b) != 30 && util::norm(a) != util::norm(b)
            ==> !group::credits_match(a, b),
        !util::norm(a).is_prefix_of(util::norm(b)) && !util::norm(b).is_prefix_of(util::norm(a))
            ==> !group::credits_match(a, b),
{
    let n = util::norm(a);
    assert(n =~= n.subrange(0, n.len() as int));
}

/// Tracks play by disc, then by number, then by path.
pub proof fn discs_then_numbers_then_paths(a: TrackMeta, b: TrackMeta)
    ensures
        a.disc_no < b.disc_no ==> group::plays_before(a, b) && !group::plays_before(b, a),
        a.disc_no == b.disc_no && a.track_no < b.track_no ==> group::plays_before(a, b)
            && !group::plays_before(b, a),
        a.disc_no == b.disc_no && a.track_no == b.track_no ==> group::plays_before(a, b)
            == path::path_before(a.path@, b.path@),
{
}

/// Albums stand on the shelf by artist, then by year, the undated first, then by
/// title; artists and titles without their articles.
pub proof fn artists_then_years_then_titles(a: DraftView, b: DraftView)
    ensures
        ({
            let (x, y) = (group::filed_under(a.album_artist), group::filed_under(b.album_artist));
            &&& x == util::without_article(util::norm(a.album_artist))
            &&& x != y ==> group::shelved_before(a, b) == text::text_before(x, y)
            &&& x == y && a.year is None && b.year is Some ==> group::shelved_before(a, b)
                && !group::shelved_before(b, a)
            &&& x == y && a.year is Some && b.year is Some && a.year.unwrap() < b.year.unwrap()
                ==> group::shelved_before(a, b) && !group::shelved_before(b, a)
            &&& x == y && a.year == b.year ==> group::shelved_before(a, b) == text::text_before(
                group::filed_under(a.title),
                group::filed_under(b.title),
            )
        }),
{
    let (x, y) = (group::filed_under(a.album_artist), group::filed_under(b.album_artist));
    text::text_order_is_total(x, y);
    text::text_order_is_total(x, x);
}

/// The album directory of a file is the folder it lies in, or the one above for a
/// folder that only numbers a disc.
pub proof fn disc_folders_belong_to_the_album_above(file: PathView)
    requires
        file.parts.len() >= 2,
        file.parts[file.parts.len() - 2] != path::dot(),
        file.parts[file.parts.len() - 2] != path::dot_dot(),
    ensures
        ({
            let folder = file.parts[file.parts.len() - 2];
            let dir = util::album_dir_of(file);
            &&& dir.rooted == file.rooted
            &&& util::dir_disc(folder) is None ==> dir.parts == file.parts.take(
                file.parts.len() - 1,
            )
            &&& util::dir_disc(folder) is Some ==> dir.parts == file.parts.take(
                file.parts.len() - 2,
            )
        }),
{
    let up = file.parts.drop_last();
    assert(up.last() == file.parts[file.parts.len() - 2]);
    assert(up =~= file.parts.take(file.parts.len() - 1));
    assert(up.drop_last() =~= file.parts.take(file.parts.len() - 2));
}

/// Files group by their album title without its disc marker, case and gaps aside;
/// files without one by the name of their folder.
pub proof fn files_group_by_title_or_folder(m: TrackMeta)
    ensures
        m.album_raw matches Some(a) ==> util::norm(util::without_disc(a@).0).len() > 0
            ==> group::album_key(m) == util::norm(util::without_disc(a@).0),
        m.album_raw is None ==> (util::album_dir_of(m.path@).file_name() matches Some(name)
            ==> group::album_key(m) == util::norm(name)),
{
}

proof fn lemma_group_at(gs: Seq<Seq<DraftView>>, key: Seq<char>, i: int)
    requires
        0 <= i <= gs.len(),
    ensures
        i <= group::group_at(gs, key, i) <= gs.len(),
        group::group_at(gs, key, i) < gs.len() ==> gs[group::group_at(gs, key, i)][0].group_key
            == key,
        forall|k: int|
            i <= k < group::group_at(gs, key, i) ==> (#[trigger] gs[k])[0].group_key != key,
    decreases gs.len() - i,
{
    if i < gs.len() && gs[i][0].group_key != key {
        lemma_group_at(gs, key, i + 1);
    }
}

/// Only folders of one identity are brought together, and all of them are: each
/// group holds one identity, and no two groups hold the same.
pub proof fn only_one_identity_is_merged(ds: Seq<DraftView>)
    ensures
        ({
            let gs = group::by_identity(ds);
            &&& forall|i: int, k: int|
                #![trigger gs[i][k]]
                0 <= i < gs.len() && 0 <= k < gs[i].len() ==> gs[i][k].group_key
                    == gs[i][0].group_key
            &&& forall|i: int| 0 <= i < gs.len() ==> (#[trigger] gs[i]).len() > 0
            &&& forall|i: int, j: int|
                0 <= i < j < gs.len() ==> (#[trigger] gs[i])[0].group_key != (#[trigger] gs[j])[0].group_key
        }),
    decreases ds.len(),
{
    if ds.len() > 0 {
        let front = ds.drop_last();
        only_one_identity_is_merged(front);
        let gs = group::by_identity(front);
        let d = ds.last();
        lemma_group_at(gs, d.group_key, 0);
        let at = group::group_at(gs, d.group_key, 0);
        let out = group::by_identity(ds);
        if at < gs.len() {
            assert(gs[at].len() > 0);
        }
        assert forall|i: int| 0 <= i < out.len() implies (#[trigger] out[i]).len() > 0 && out[i][0].group_key
            == if i < gs.len() {
            gs[i][0].group_key
        } else {
            d.group_key
        } by {
            if i < gs.len() {
                assert(gs[i].len() > 0);
            }
        }
        assert forall|i: int, k: int|
            #![trigger out[i][k]]
            0 <= i < out.len() && 0 <= k < out[i].len() implies out[i][k].group_key
            == out[i][0].group_key by {
            assert(out[i].len() > 0);
            if i < gs.len() && k < gs[i].len() {
                assert(gs[i][k].group_key == gs[i][0].group_key);
            }
        }
        assert forall|i: int, j: int| 0 <= i < j < out.len() implies (#[trigger] out[i])[0].group_key
            != (#[trigger] out[j])[0].group_key by {
            if j < gs.len() {
                assert(gs[i][0].group_key != gs[j][0].group_key);
            } else {
                assert(gs[i][0].group_key != d.group_key);
            }
        }
    }
}

/// What several folders of one release make up: dated by the earliest of them, a
/// compilation when any is, with the cover of the first that has one, and counting
/// how many they were.
pub proof fn merged_releases_keep_the_best_of_each(g: Seq<DraftView>)
    requires
        g.len() > 0,
    ensures
        ({
            let f = group::fused(g);
            &&& f.group_key == g[0].group_key
            &&& f.title == g[0].title
            &&& f.album_artist == g[0].album_artist
            &&& f.source_dirs == g.len()
            &&& f.is_compilation == exists|i: int|
                0 <= i < g.len() && (#[trigger] g[i]).is_compilation
            &&& match f.year {
                Some(y) => (exists|i: int| 0 <= i < g.len() && (#[trigger] g[i]).year == Some(y))
                    && forall|i: int|
                    0 <= i < g.len() && (#[trigger] g[i]).year is Some ==> g[i].year.unwrap() >= y,
                None => forall|i: int| 0 <= i < g.len() ==> (#[trigger] g[i]).year is None,
            }
            &&& match f.art_path {
                Some(p) => exists|i: int|
                    0 <= i < g.len() && (#[trigger] g[i]).art_path == Some(p) && forall|k: int|
                        0 <= k < i ==> (#[trigger] g[k]).art_path is None,
                None => forall|i: int| 0 <= i < g.len() ==> (#[trigger] g[i]).art_path is None,
            }
        }),
{
    lemma_group_fields(g);
}

proof fn lemma_group_fields(g: Seq<DraftView>)
    ensures
        group::group_compilation(g) == exists|i: int|
            0 <= i < g.len() && (#[trigger] g[i]).is_compilation,
        match group::group_year(g) {
            Some(y) => (exists|i: int| 0 <= i < g.len() && (#[trigger] g[i]).year == Some(y))
                && forall|i: int|
                0 <= i < g.len() && (#[trigger] g[i]).year is Some ==> g[i].year.unwrap() >= y,
            None => forall|i: int| 0 <= i < g.len() ==> (#[trigger] g[i]).year is None,
        },
        match group::first_cover(g) {
            Some(p) => exists|i: int|
                0 <= i < g.len() && (#[trigger] g[i]).art_path == Some(p) && forall|k: int|
                    0 <= k < i ==> (#[trigger] g[k]).art_path is None,
            None => forall|i: int| 0 <= i < g.len() ==> (#[trigger] g[i]).art_path is None,
        },
    decreases g.len(),
{
    if g.len() > 0 {
        let front = g.drop_last();
        let n = g.len() - 1;
        lemma_group_fields(front);
        assert forall|i: int| 0 <= i < n implies #[trigger] g[i] == front[i] by {}
        assert(g[n] == g.last());
        if group::group_compilation(front) {
            let i = choose|i: int| 0 <= i < front.len() && (#[trigger] front[i]).is_compilation;
            assert(g[i].is_compilation);
        }
        if let Some(y) = group::group_year(front) {
            let i = choose|i: int| 0 <= i < front.len() && (#[trigger] front[i]).year == Some(y);
            assert(g[i].year == Some(y));
        }
        if let Some(p) = group::first_cover(front) {
            let i = choose|i: int|
                0 <= i < front.len() && (#[trigger] front[i]).art_path == Some(p) && forall|k: int|
                    0 <= k < i ==> (#[trigger] front[k]).art_path is None;
            assert(g[i].art_path == Some(p));
            assert forall|k: int| 0 <= k < i implies (#[trigger] g[k]).art_path is None by {
                assert(front[k].art_path is None);
            }
        } else {
            assert forall|k: int| 0 <= k < n implies (#[trigger] g[k]).art_path is None by {
                assert(front[k].art_path is None);
            }
        }
    }
}

/// How many folders one release may be spread over: up to four become one album,
/// more stay one album each under the name of their folder.
pub proof fn up_to_four_folders_are_one_release(g: Seq<DraftView>, roots: Seq<PathView>)
    requires
        g.len() > 1,
    ensures
        g.len() <= 4 ==> group::merged_group(g, roots).len() == 1,
        g.len() > 4 ==> group::merged_group(g, roots).len() == g.len(),
{
    crate::order::sorting_permutes::<crate::model::AlbumDraft, group::FolderOrder>(g);
}

/// A folder that keeps to itself is named after itself and known by its place.
pub proof fn split_box_sets_are_named_by_folder(d: DraftView, roots: Seq<PathView>)
    ensures
        ({
            let r = group::retitled(d, roots);
            &&& d.dir_path.file_name() matches Some(name) ==> r.title == name
            &&& d.dir_path.file_name() is None ==> r.title == d.title
            &&& r.group_key == group::folder_identity(d.dir_path, roots)
            &&& r.identity == IdentitySource::Directory
            &&& r.tracks == d.tracks
            &&& r.album_artist == d.album_artist
            &&& r.year == d.year
            &&& r.source_dirs == 1
        }),
{
}

/// A cover that is found is a file of the listing with one of the known names, and
/// no file of the listing has a name that ranks before it.
pub proof fn covers_go_by_rank(files: Seq<PathView>, a: int, b: int)
    requires
        0 <= a <= 6,
        0 <= b <= 5,
    ensures
        match group::cover_from(files, a, b) {
            Some(p) => exists|x: int, y: int|
                #![trigger group::cover_stems()[x], group::cover_extensions()[y]]
                {
                    &&& 0 <= x < 6
                    &&& 0 <= y < 5
                    &&& files.contains(p)
                    &&& group::named(p, group::cover_stems()[x], group::cover_extensions()[y])
                    &&& x > a || (x == a && y >= b)
                    &&& forall|i: int, u: int, v: int|
                        #![trigger group::named(files[i], group::cover_stems()[u], group::cover_extensions()[v])]
                        0 <= i < files.len() && 0 <= u < 6 && 0 <= v < 5 && (u > a || (u == a && v
                            >= b)) && (u < x || (u == x && v < y)) ==> !group::named(
                            files[i],
                            group::cover_stems()[u],
                            group::cover_extensions()[v],
                        )
                },
            None => forall|i: int, u: int, v: int|
                #![trigger group::named(files[i], group::cover_stems()[u], group::cover_extensions()[v])]
                0 <= i < files.len() && 0 <= u < 6 && 0 <= v < 5 && (u > a || (u == a && v >= b))
                    ==> !group::named(
                    files[i],
                    group::cover_stems()[u],
                    group::cover_extensions()[v],
                ),
        },
    decreases 6 - a, 5 - b,
{
    if a < 6 {
        if b >= 5 {
            covers_go_by_rank(files, a + 1, 0);
        } else {
            let (s, e) = (group::cover_stems()[a], group::cover_extensions()[b]);
            lemma_file_named(files, s, e, 0);
            if group::file_named(files, s, e, 0) is None {
                covers_go_by_rank(files, a, b + 1);
            }
        }
    }
}

proof fn lemma_file_named(files: Seq<PathView>, stem: Seq<char>, ext: Seq<char>, i: int)
    requires
        0 <= i <= files.len(),
    ensures
        match group::file_named(files, stem, ext, i) {
            Some(p) => files.contains(p) && group::named(p, stem, ext),
            None => forall|k: int|
                i <= k < files.len() ==> !group::named(#[trigger] files[k], stem, ext),
        },
    decreases files.len() - i,
{
    if i < files.len() {
        lemma_file_named(files, stem, ext, i + 1);
    }
}

/// The known cover names and formats, best first.
pub proof fn cover_names_rank_so()
    ensures
        group::cover_stems().len() == 6,
        group::cover_stems()[0] == "cover"@,
        group::cover_stems()[1] == "folder"@,
        group::cover_stems()[2] == "front"@,
        group::cover_stems()[3] == "album"@,
        group::cover_stems()[4] == "albumart"@,
        group::cover_stems()[5] == "art"@,
        group::cover_extensions().len() == 5,
        group::cover_extensions()[0] == "jpg"@,
        group::cover_extensions()[1] == "jpeg"@,
        group::cover_extensions()[2] == "png"@,
        group::cover_extensions()[3] == "webp"@,
        group::cover_extensions()[4] == "avif"@,
{
}

/// A short bucket is folded only into one of its own folder whose key goes on from
/// its own, and into the closest of those.
pub proof fn cut_titles_fold_into_the_closest(
    bs: Seq<BucketView>,
    dir: PathView,
    short: Seq<char>,
    n: int,
)
    requires
        0 <= n <= bs.len(),
    ensures
        ({
            let t = group::fold_target(bs, dir, short, n);
            &&& t >= 0 ==> {
                &&& t < n
                &&& bs[t].dir == dir
                &&& short.is_prefix_of(bs[t].key)
                &&& short.len() < bs[t].key.len()
                &&& forall|i: int|
                    0 <= i < n && (#[trigger] bs[i]).dir == dir && short.is_prefix_of(bs[i].key)
                        && short.len() < bs[i].key.len() ==> text::byte_len(bs[t].key)
                        <= text::byte_len(bs[i].key)
            }
            &&& t < 0 ==> forall|i: int|
                0 <= i < n && (#[trigger] bs[i]).dir == dir && short.is_prefix_of(bs[i].key)
                    ==> short.len() >= bs[i].key.len()
        }),
    decreases n,
{
    if n > 0 {
        cut_titles_fold_into_the_closest(bs, dir, short, n - 1);
    }
}

/// A bucket may be folded only when every title in it fills thirty bytes.
pub proof fn only_cut_titles_are_folded(b: BucketView, i: int)
    requires
        group::cut_short(b),
        0 <= i < b.tracks.len(),
    ensures
        b.tracks[i].album_raw matches Some(a) && text::byte_len(util::without_disc(a@).0) == 30,
{
    assert(group::cut_title(b.tracks[i]));
}

} // verus!
