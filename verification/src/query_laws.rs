//! What the questions put to the database mean: which way a listing is ordered,
//! what a search finds, and what each check looks for.

use vstd::prelude::*;

use crate::model::Real;
use crate::path;
use crate::query;
use crate::query::{AlbumSort, ArtView};
use crate::text;

verus! {

/// A text that ends in another.
pub open spec fn ends_in(s: Seq<char>, end: Seq<char>) -> bool {
    s.len() >= end.len() && s.skip(s.len() - end.len()) == end
}

/// Most played, newest, latest and most recently played albums come first in the
/// listings by those; by artist and by title the listing runs from A to Z.
pub proof fn listings_run_the_right_way(sort: AlbumSort)
    ensures
        sort == AlbumSort::Plays ==> "play_count DESC, ar.sort_name"@.is_prefix_of(
            query::sort_columns(sort),
        ),
        sort == AlbumSort::Added ==> "al.added_at DESC"@.is_prefix_of(query::sort_columns(sort)),
        sort == AlbumSort::Year ==> "al.year DESC NULLS LAST"@.is_prefix_of(
            query::sort_columns(sort),
        ),
        sort == AlbumSort::LastPlayed ==> "last_played DESC NULLS LAST"@.is_prefix_of(
            query::sort_columns(sort),
        ),
        sort == AlbumSort::Artist ==> query::sort_columns(sort)
            == "ar.sort_name, al.year, al.sort_title"@,
        sort == AlbumSort::Title ==> query::sort_columns(sort) == "al.sort_title"@,
{
    reveal_strlit("play_count DESC, ar.sort_name");
    reveal_strlit("play_count DESC, ar.sort_name, al.sort_title");
    reveal_strlit("al.added_at DESC");
    reveal_strlit("al.added_at DESC, al.sort_title");
    reveal_strlit("al.year DESC NULLS LAST");
    reveal_strlit("al.year DESC NULLS LAST, ar.sort_name");
    reveal_strlit("last_played DESC NULLS LAST");
    reveal_strlit("last_played DESC NULLS LAST, al.sort_title");
    match sort {
        AlbumSort::Plays => {
            let p = "play_count DESC, ar.sort_name"@;
            assert(p =~= query::sort_columns(sort).subrange(0, p.len() as int));
        },
        AlbumSort::Added => {
            let p = "al.added_at DESC"@;
            assert(p =~= query::sort_columns(sort).subrange(0, p.len() as int));
        },
        AlbumSort::Year => {
            let p = "al.year DESC NULLS LAST"@;
            assert(p =~= query::sort_columns(sort).subrange(0, p.len() as int));
        },
        AlbumSort::LastPlayed => {
            let p = "last_played DESC NULLS LAST"@;
            assert(p =~= query::sort_columns(sort).subrange(0, p.len() as int));
        },
        _ => {},
    }
}

/// The names of the sort options, in any case of their letters; no other name is
/// one, and no two options share a name.
pub proof fn sort_options_go_by_their_names(name: Seq<char>)
    ensures
        ({
            let n = text::ascii_lowered(name);
            &&& query::sort_named(name) == Some(AlbumSort::Artist) <==> n == "artist"@
            &&& query::sort_named(name) == Some(AlbumSort::Title) <==> n == "title"@
            &&& query::sort_named(name) == Some(AlbumSort::Year) <==> n == "year"@
            &&& query::sort_named(name) == Some(AlbumSort::Plays) <==> n == "plays"@
            &&& query::sort_named(name) == Some(AlbumSort::Added) <==> n == "added"@
            &&& query::sort_named(name) == Some(AlbumSort::LastPlayed) <==> n == "last"@ || n
                == "last-played"@
        }),
{
    reveal_strlit("artist");
    reveal_strlit("title");
    reveal_strlit("year");
    reveal_strlit("plays");
    reveal_strlit("added");
    reveal_strlit("last");
    reveal_strlit("last-played");
    assert("artist"@.len() == 6);
    assert("title"@.len() == 5 && "title"@[0] == 't');
    assert("year"@.len() == 4 && "year"@[0] == 'y');
    assert("plays"@.len() == 5 && "plays"@[0] == 'p');
    assert("added"@.len() == 5 && "added"@[0] == 'a');
    assert("last"@.len() == 4 && "last"@[0] == 'l');
    assert("last-played"@.len() == 11);
}

/// A listing ends in its order and then in its limit; only the limit is left out
/// when there is none.
pub proof fn listings_are_ordered_then_cut(
    sort: AlbumSort,
    searching: bool,
    include_missing: bool,
    n: i64,
)
    ensures
        ends_in(
            query::albums_query(sort, searching, include_missing, None),
            " ORDER BY "@ + query::sort_columns(sort),
        ),
        query::albums_query(sort, searching, include_missing, Some(n)) == query::albums_query(
            sort,
            searching,
            include_missing,
            None,
        ) + " LIMIT "@ + text::int_text(n as int),
        query::limit_clause(None).len() == 0,
        query::limit_clause(Some(n)) == " LIMIT "@ + text::int_text(n as int),
{
    let all = query::albums_query(sort, searching, include_missing, None);
    let end = " ORDER BY "@ + query::sort_columns(sort);
    assert(all.skip(all.len() - end.len()) =~= end);
    assert(query::albums_query(sort, searching, include_missing, Some(n)) =~= all + " LIMIT "@
        + text::int_text(n as int));
}

/// What a listing leaves out: albums that are gone, unless they are asked for, and
/// what does not match a search, when there is one. Everything else stays the same.
pub proof fn listings_leave_out_what_is_gone(sort: AlbumSort, searching: bool, limit: Option<i64>)
    ensures
        exists|head: Seq<char>, tail: Seq<char>|
            #![trigger head + tail]
            {
                &&& query::albums_query(sort, searching, true, limit) == head + tail
                &&& query::albums_query(sort, searching, false, limit) == head
                    + " AND al.present = 1"@ + tail
                &&& ends_in(head, " WHERE 1 = 1"@)
            },
        exists|head: Seq<char>, tail: Seq<char>|
            #![trigger head + tail]
            {
                &&& query::albums_query(sort, false, true, limit) == head + tail
                &&& query::albums_query(sort, true, true, limit) == head
                    + " AND (al.title LIKE ?1 ESCAPE '\\' OR ar.name LIKE ?1 ESCAPE '\\')"@ + tail
            },
{
    let head = query::ALBUMS_SELECT@;
    let order = " ORDER BY "@ + query::sort_columns(sort) + query::limit_clause(limit);
    let search = if searching {
        query::MATCHES_SEARCH@
    } else {
        Seq::empty()
    };
    let tail = search + order;
    assert(query::albums_query(sort, searching, true, limit) =~= head + tail);
    assert(query::albums_query(sort, searching, false, limit) =~= head + " AND al.present = 1"@
        + tail);
    lemma_select();
    assert(query::albums_query(sort, false, true, limit) =~= head + order);
    assert(query::albums_query(sort, true, true, limit) =~= head
        + " AND (al.title LIKE ?1 ESCAPE '\\' OR ar.name LIKE ?1 ESCAPE '\\')"@ + order);
}

proof fn lemma_select()
    ensures
        ends_in(query::ALBUMS_SELECT@, " WHERE 1 = 1"@),
{
    reveal_strlit(" WHERE 1 = 1");
    reveal_strlit(
        "SELECT al.id, al.title, ar.name, al.year, al.track_count, al.disc_count,
        al.duration_ms, al.is_compilation, al.dir_path, al.source_dirs,
        COALESCE(pc.play_count, 0) AS play_count,
        pc.last_played AS last_played
 FROM album al
 JOIN artist ar ON ar.id = al.album_artist_id
 LEFT JOIN album_play_counts pc ON pc.album_id = al.id
 WHERE 1 = 1",
    );
    let s = query::ALBUMS_SELECT@;
    assert(s.skip(s.len() - 12) =~= " WHERE 1 = 1"@);
}

/// Whether a pattern matches a text, the letters' case aside: `%` stands for any
/// run of characters, `_` for any one, and a character behind a backslash for
/// itself.
pub open spec fn like(pattern: Seq<char>, s: Seq<char>) -> bool
    decreases pattern.len(), s.len(),
{
    if pattern.len() == 0 {
        s.len() == 0
    } else if pattern[0] == '%' {
        like(pattern.drop_first(), s) || (s.len() > 0 && like(pattern, s.drop_first()))
    } else if pattern[0] == '\\' && pattern.len() > 1 {
        s.len() > 0 && s[0] == pattern[1] && like(pattern.skip(2), s.drop_first())
    } else if pattern[0] == '_' {
        s.len() > 0 && like(pattern.drop_first(), s.drop_first())
    } else {
        s.len() > 0 && s[0] == pattern[0] && like(pattern.drop_first(), s.drop_first())
    }
}

proof fn lemma_any(s: Seq<char>)
    ensures
        like(seq!['%'], s),
    decreases s.len(),
{
    let none = seq!['%'].drop_first();
    assert(none =~= Seq::empty());
    assert(like(none, s) == (s.len() == 0));
    if s.len() > 0 {
        lemma_any(s.drop_first());
    }
}

proof fn lemma_like_term(term: Seq<char>, s: Seq<char>)
    ensures
        like(text::escaped(term, query::wildcards()) + seq!['%'], s) == term.is_prefix_of(s),
    decreases term.len(),
{
    let set = query::wildcards();
    let pattern = text::escaped(term, set) + seq!['%'];
    if term.len() == 0 {
        assert(text::escaped(term, set) =~= Seq::empty());
        assert(pattern =~= seq!['%']);
        lemma_any(s);
        assert(term =~= s.subrange(0, 0));
    } else {
        text::lemma_escape_first(term, set);
        let rest = text::escaped(term.drop_first(), set) + seq!['%'];
        let c = term[0];
        assert(set[0] == '\\' && set[1] == '%' && set[2] == '_');
        if set.contains(c) {
            assert(pattern =~= seq!['\\', c] + rest);
            assert(pattern.skip(2) =~= rest);
        } else {
            assert(c != '\\' && c != '%' && c != '_');
            assert(pattern =~= seq![c] + rest);
            assert(pattern.drop_first() =~= rest);
        }
        if s.len() > 0 {
            lemma_like_term(term.drop_first(), s.drop_first());
            let (t, u) = (term.drop_first(), s.drop_first());
            if s[0] == c && t.is_prefix_of(u) {
                assert(term =~= s.subrange(0, term.len() as int)) by {
                    assert forall|i: int| 0 <= i < term.len() implies term[i] == s[i] by {
                        if i > 0 {
                            assert(t[i - 1] == u[i - 1]);
                        }
                    }
                }
            }
            if term.is_prefix_of(s) {
                assert(s[0] == c);
                assert(t =~= u.subrange(0, t.len() as int)) by {
                    assert forall|i: int| 0 <= i < t.len() implies t[i] == u[i] by {
                        assert(term[i + 1] == s[i + 1]);
                    }
                }
            }
        }
    }
}

proof fn lemma_like_anywhere(term: Seq<char>, s: Seq<char>)
    ensures
        like(query::pattern_for(term), s) == exists|i: int|
            0 <= i <= s.len() && term.is_prefix_of(#[trigger] s.skip(i)),
    decreases s.len(),
{
    let p = query::pattern_for(term);
    let rest = text::escaped(term, query::wildcards()) + seq!['%'];
    assert(p[0] == '%');
    assert(p.drop_first() =~= rest);
    lemma_like_term(term, s);
    assert(s.skip(0) =~= s);
    if s.len() > 0 {
        let u = s.drop_first();
        lemma_like_anywhere(term, u);
        if like(p, u) {
            let i = choose|i: int| 0 <= i <= u.len() && term.is_prefix_of(#[trigger] u.skip(i));
            assert(u.skip(i) =~= s.skip(i + 1));
        }
        if exists|i: int| 0 <= i <= s.len() && term.is_prefix_of(#[trigger] s.skip(i)) {
            let i = choose|i: int| 0 <= i <= s.len() && term.is_prefix_of(#[trigger] s.skip(i));
            if i > 0 {
                assert(u.skip(i - 1) =~= s.skip(i));
            }
        }
    } else {
        assert forall|i: int| 0 <= i <= s.len() implies #[trigger] s.skip(i) == s by {
            assert(s.skip(i) =~= s);
        }
    }
}

/// A search finds exactly the texts in which the term occurs somewhere, wildcards
/// and all.
pub proof fn searches_find_the_term_anywhere(term: Seq<char>, s: Seq<char>)
    ensures
        like(query::pattern_for(term), s) <==> exists|i: int|
            0 <= i <= s.len() && term.is_prefix_of(#[trigger] s.skip(i)),
{
    lemma_like_anywhere(term, s);
}

/// A tagged gain wins over a measured one and brings its own peak; without one the
/// measurement counts, gain and peak together.
pub proof fn tagged_gain_wins(
    tagged: (Option<Real>, Option<Real>),
    measured: (Option<Real>, Option<Real>),
)
    ensures
        tagged.0 is Some ==> query::preferred_gain(tagged, measured).0 == tagged.0
            && query::preferred_gain(tagged, measured).1 == tagged.1,
        tagged.0 is None ==> query::preferred_gain(tagged, measured).0 == measured.0
            && query::preferred_gain(tagged, measured).1 == measured.1,
{
}

/// An image in the album's folder wins over a fetched one, which counts when it is
/// the only one.
pub proof fn folder_art_wins(folder: Option<Seq<char>>, cached: Option<Seq<char>>)
    ensures
        query::preferred_art(None) is None,
        folder matches Some(f) ==> query::preferred_art(Some((folder, cached))) == Some(
            ArtView::Folder(path::path_of(f)),
        ),
        folder is None ==> (query::preferred_art(Some((folder, cached))) matches Some(a) ==> cached
            matches Some(c) && a == ArtView::Cached(c)),
        folder is None && cached is Some ==> query::preferred_art(Some((folder, cached))) is Some,
{
}

/// The check asks of each kind of problem for the albums that have it: those named
/// by their folder alone, without an artist, with tracks unnumbered or numbered
/// twice, of one track, of several folders, without a cover, without a gain or in
/// several formats; always of what is still there only.
pub proof fn checks_ask_for_what_they_name(i: int)
    requires
        0 <= i < 9,
    ensures
        query::check_list().len() == 9,
        ({
            let (kind, sql) = query::check_list()[i];
            &&& kind == "no-album-tag"@ ==> ends_in(
                sql,
                "
 WHERE al.present = 1 AND al.identity_source = 'directory'
 ORDER BY al.dir_path"@,
            )
            &&& kind == "unknown-artist"@ ==> ends_in(
                sql,
                "
 WHERE al.present = 1 AND ar.name = 'Unknown Artist'
 ORDER BY al.dir_path"@,
            )
            &&& kind == "missing-track-numbers"@ ==> ends_in(
                sql,
                "
 WHERE t.present = 1 AND al.present = 1 AND t.track_no = 0
 GROUP BY al.id
 ORDER BY ar.sort_name, al.sort_title"@,
            )
            &&& kind == "duplicate-track-numbers"@ ==> ends_in(
                sql,
                "
 WHERE t.present = 1 AND al.present = 1 AND t.track_no > 0
 GROUP BY al.id, t.disc_no, t.track_no
 HAVING COUNT(*) > 1
 ORDER BY ar.sort_name, al.sort_title"@,
            )
            &&& kind == "single-track-album"@ ==> ends_in(
                sql,
                "
 WHERE al.present = 1 AND al.track_count = 1
 ORDER BY al.dir_path"@,
            )
            &&& kind == "merged-from-several-folders"@ ==> ends_in(
                sql,
                "
 WHERE al.present = 1 AND al.source_dirs > 1
 ORDER BY al.source_dirs DESC, ar.sort_name"@,
            )
            &&& kind == "no-cover-art"@ ==> ends_in(
                sql,
                "
 WHERE al.present = 1 AND al.art_path IS NULL AND al.art_cache_path IS NULL
 ORDER BY ar.sort_name, al.sort_title"@,
            )
            &&& kind == "no-album-replaygain"@ ==> ends_in(
                sql,
                "
 WHERE al.present = 1
   AND al.rg_gain_db IS NULL
   AND NOT EXISTS (SELECT 1 FROM track t
                    WHERE t.album_id = al.id AND t.rg_album_gain IS NOT NULL)
 ORDER BY ar.sort_name, al.sort_title"@,
            )
            &&& kind == "mixed-codecs"@ ==> ends_in(
                sql,
                "
 WHERE t.present = 1 AND al.present = 1 AND t.codec IS NOT NULL
 GROUP BY al.id
 HAVING COUNT(DISTINCT t.codec) > 1
 ORDER BY ar.sort_name, al.sort_title"@,
            )
            &&& i == 0 ==> kind == "no-album-tag"@
            &&& i == 1 ==> kind == "unknown-artist"@
            &&& i == 2 ==> kind == "missing-track-numbers"@
            &&& i == 3 ==> kind == "duplicate-track-numbers"@
            &&& i == 4 ==> kind == "single-track-album"@
            &&& i == 5 ==> kind == "merged-from-several-folders"@
            &&& i == 6 ==> kind == "no-cover-art"@
            &&& i == 7 ==> kind == "no-album-replaygain"@
            &&& i == 8 ==> kind == "mixed-codecs"@
        }),
{
    lemma_kinds_differ();
    lemma_no_album_tag();
    lemma_unknown_artist();
    lemma_missing_track_numbers();
    lemma_duplicate_track_numbers();
    lemma_single_track_album();
    lemma_merged_folders();
    lemma_no_cover_art();
    lemma_no_album_replaygain();
    lemma_mixed_codecs();
}

proof fn lemma_kinds_differ()
    ensures
        forall|i: int, j: int|
            0 <= i < j < 9 ==> (#[trigger] query::check_list()[i]).0 != (#[trigger] query::check_list()[j]).0,
{
    reveal_strlit("no-album-tag");
    reveal_strlit("unknown-artist");
    reveal_strlit("missing-track-numbers");
    reveal_strlit("duplicate-track-numbers");
    reveal_strlit("single-track-album");
    reveal_strlit("merged-from-several-folders");
    reveal_strlit("no-cover-art");
    reveal_strlit("no-album-replaygain");
    reveal_strlit("mixed-codecs");
    assert("no-album-tag"@[3] != "no-cover-art"@[3]);
    assert("no-album-tag"@[0] != "mixed-codecs"@[0]);
    assert("no-cover-art"@[0] != "mixed-codecs"@[0]);
    assert("no-album-tag"@.len() == 12 && "unknown-artist"@.len() == 14
        && "missing-track-numbers"@.len() == 21 && "duplicate-track-numbers"@.len() == 23
        && "single-track-album"@.len() == 18 && "merged-from-several-folders"@.len() == 27
        && "no-cover-art"@.len() == 12 && "no-album-replaygain"@.len() == 19
        && "mixed-codecs"@.len() == 12);
}

proof fn lemma_no_album_tag()
    ensures
        ends_in(
            query::NO_ALBUM_TAG@,
            "
 WHERE al.present = 1 AND al.identity_source = 'directory'
 ORDER BY al.dir_path"@,
        ),
{
    reveal_strlit("SELECT al.id, ar.name || ' — ' || al.title || '  (' || al.dir_path || ')'
 FROM album al JOIN artist ar ON ar.id = al.album_artist_id
 WHERE al.present = 1 AND al.identity_source = 'directory'
 ORDER BY al.dir_path");
    reveal_strlit("
 WHERE al.present = 1 AND al.identity_source = 'directory'
 ORDER BY al.dir_path");
    let all = "SELECT al.id, ar.name || ' — ' || al.title || '  (' || al.dir_path || ')'
 FROM album al JOIN artist ar ON ar.id = al.album_artist_id
 WHERE al.present = 1 AND al.identity_source = 'directory'
 ORDER BY al.dir_path"@;
    let end = "
 WHERE al.present = 1 AND al.identity_source = 'directory'
 ORDER BY al.dir_path"@;
    assert(all.skip(all.len() - end.len()) =~= end);
}

proof fn lemma_unknown_artist()
    ensures
        ends_in(
            query::UNKNOWN_ARTIST@,
            "
 WHERE al.present = 1 AND ar.name = 'Unknown Artist'
 ORDER BY al.dir_path"@,
        ),
{
    reveal_strlit("SELECT al.id, al.title || '  (' || al.dir_path || ')'
 FROM album al JOIN artist ar ON ar.id = al.album_artist_id
 WHERE al.present = 1 AND ar.name = 'Unknown Artist'
 ORDER BY al.dir_path");
    reveal_strlit("
 WHERE al.present = 1 AND ar.name = 'Unknown Artist'
 ORDER BY al.dir_path");
    let all = "SELECT al.id, al.title || '  (' || al.dir_path || ')'
 FROM album al JOIN artist ar ON ar.id = al.album_artist_id
 WHERE al.present = 1 AND ar.name = 'Unknown Artist'
 ORDER BY al.dir_path"@;
    let end = "
 WHERE al.present = 1 AND ar.name = 'Unknown Artist'
 ORDER BY al.dir_path"@;
    assert(all.skip(all.len() - end.len()) =~= end);
}

proof fn lemma_missing_track_numbers()
    ensures
        ends_in(
            query::MISSING_TRACK_NUMBERS@,
            "
 WHERE t.present = 1 AND al.present = 1 AND t.track_no = 0
 GROUP BY al.id
 ORDER BY ar.sort_name, al.sort_title"@,
        ),
{
    reveal_strlit("SELECT al.id,
        ar.name || ' — ' || al.title || '  (' ||
        COUNT(*) || ' of ' || al.track_count || ' tracks unnumbered)'
 FROM track t
 JOIN album al ON al.id = t.album_id
 JOIN artist ar ON ar.id = al.album_artist_id
 WHERE t.present = 1 AND al.present = 1 AND t.track_no = 0
 GROUP BY al.id
 ORDER BY ar.sort_name, al.sort_title");
    reveal_strlit("
 WHERE t.present = 1 AND al.present = 1 AND t.track_no = 0
 GROUP BY al.id
 ORDER BY ar.sort_name, al.sort_title");
    let all = "SELECT al.id,
        ar.name || ' — ' || al.title || '  (' ||
        COUNT(*) || ' of ' || al.track_count || ' tracks unnumbered)'
 FROM track t
 JOIN album al ON al.id = t.album_id
 JOIN artist ar ON ar.id = al.album_artist_id
 WHERE t.present = 1 AND al.present = 1 AND t.track_no = 0
 GROUP BY al.id
 ORDER BY ar.sort_name, al.sort_title"@;
    let end = "
 WHERE t.present = 1 AND al.present = 1 AND t.track_no = 0
 GROUP BY al.id
 ORDER BY ar.sort_name, al.sort_title"@;
    assert(all.skip(all.len() - end.len()) =~= end);
}

proof fn lemma_duplicate_track_numbers()
    ensures
        ends_in(
            query::DUPLICATE_TRACK_NUMBERS@,
            "
 WHERE t.present = 1 AND al.present = 1 AND t.track_no > 0
 GROUP BY al.id, t.disc_no, t.track_no
 HAVING COUNT(*) > 1
 ORDER BY ar.sort_name, al.sort_title"@,
        ),
{
    reveal_strlit("SELECT al.id,
        ar.name || ' — ' || al.title || '  (disc ' || t.disc_no ||
        ' track ' || t.track_no || ' appears ' || COUNT(*) || ' times)'
 FROM track t
 JOIN album al ON al.id = t.album_id
 JOIN artist ar ON ar.id = al.album_artist_id
 WHERE t.present = 1 AND al.present = 1 AND t.track_no > 0
 GROUP BY al.id, t.disc_no, t.track_no
 HAVING COUNT(*) > 1
 ORDER BY ar.sort_name, al.sort_title");
    reveal_strlit("
 WHERE t.present = 1 AND al.present = 1 AND t.track_no > 0
 GROUP BY al.id, t.disc_no, t.track_no
 HAVING COUNT(*) > 1
 ORDER BY ar.sort_name, al.sort_title");
    let all = "SELECT al.id,
        ar.name || ' — ' || al.title || '  (disc ' || t.disc_no ||
        ' track ' || t.track_no || ' appears ' || COUNT(*) || ' times)'
 FROM track t
 JOIN album al ON al.id = t.album_id
 JOIN artist ar ON ar.id = al.album_artist_id
 WHERE t.present = 1 AND al.present = 1 AND t.track_no > 0
 GROUP BY al.id, t.disc_no, t.track_no
 HAVING COUNT(*) > 1
 ORDER BY ar.sort_name, al.sort_title"@;
    let end = "
 WHERE t.present = 1 AND al.present = 1 AND t.track_no > 0
 GROUP BY al.id, t.disc_no, t.track_no
 HAVING COUNT(*) > 1
 ORDER BY ar.sort_name, al.sort_title"@;
    assert(all.skip(all.len() - end.len()) =~= end);
}

proof fn lemma_single_track_album()
    ensures
        ends_in(
            query::SINGLE_TRACK_ALBUM@,
            "
 WHERE al.present = 1 AND al.track_count = 1
 ORDER BY al.dir_path"@,
        ),
{
    reveal_strlit("SELECT al.id, ar.name || ' — ' || al.title || '  (' || al.dir_path || ')'
 FROM album al JOIN artist ar ON ar.id = al.album_artist_id
 WHERE al.present = 1 AND al.track_count = 1
 ORDER BY al.dir_path");
    reveal_strlit("
 WHERE al.present = 1 AND al.track_count = 1
 ORDER BY al.dir_path");
    let all = "SELECT al.id, ar.name || ' — ' || al.title || '  (' || al.dir_path || ')'
 FROM album al JOIN artist ar ON ar.id = al.album_artist_id
 WHERE al.present = 1 AND al.track_count = 1
 ORDER BY al.dir_path"@;
    let end = "
 WHERE al.present = 1 AND al.track_count = 1
 ORDER BY al.dir_path"@;
    assert(all.skip(all.len() - end.len()) =~= end);
}

proof fn lemma_merged_folders()
    ensures
        ends_in(
            query::MERGED_FOLDERS@,
            "
 WHERE al.present = 1 AND al.source_dirs > 1
 ORDER BY al.source_dirs DESC, ar.sort_name"@,
        ),
{
    reveal_strlit("SELECT al.id, ar.name || ' — ' || al.title || '  (' || al.source_dirs ||
        ' folders under ' || al.dir_path || ')'
 FROM album al JOIN artist ar ON ar.id = al.album_artist_id
 WHERE al.present = 1 AND al.source_dirs > 1
 ORDER BY al.source_dirs DESC, ar.sort_name");
    reveal_strlit("
 WHERE al.present = 1 AND al.source_dirs > 1
 ORDER BY al.source_dirs DESC, ar.sort_name");
    let all = "SELECT al.id, ar.name || ' — ' || al.title || '  (' || al.source_dirs ||
        ' folders under ' || al.dir_path || ')'
 FROM album al JOIN artist ar ON ar.id = al.album_artist_id
 WHERE al.present = 1 AND al.source_dirs > 1
 ORDER BY al.source_dirs DESC, ar.sort_name"@;
    let end = "
 WHERE al.present = 1 AND al.source_dirs > 1
 ORDER BY al.source_dirs DESC, ar.sort_name"@;
    assert(all.skip(all.len() - end.len()) =~= end);
}

proof fn lemma_no_cover_art()
    ensures
        ends_in(
            query::NO_COVER_ART@,
            "
 WHERE al.present = 1 AND al.art_path IS NULL AND al.art_cache_path IS NULL
 ORDER BY ar.sort_name, al.sort_title"@,
        ),
{
    reveal_strlit("SELECT al.id, ar.name || ' — ' || al.title || '  (' || al.dir_path || ')'
 FROM album al JOIN artist ar ON ar.id = al.album_artist_id
 WHERE al.present = 1 AND al.art_path IS NULL AND al.art_cache_path IS NULL
 ORDER BY ar.sort_name, al.sort_title");
    reveal_strlit("
 WHERE al.present = 1 AND al.art_path IS NULL AND al.art_cache_path IS NULL
 ORDER BY ar.sort_name, al.sort_title");
    let all = "SELECT al.id, ar.name || ' — ' || al.title || '  (' || al.dir_path || ')'
 FROM album al JOIN artist ar ON ar.id = al.album_artist_id
 WHERE al.present = 1 AND al.art_path IS NULL AND al.art_cache_path IS NULL
 ORDER BY ar.sort_name, al.sort_title"@;
    let end = "
 WHERE al.present = 1 AND al.art_path IS NULL AND al.art_cache_path IS NULL
 ORDER BY ar.sort_name, al.sort_title"@;
    assert(all.skip(all.len() - end.len()) =~= end);
}

proof fn lemma_no_album_replaygain()
    ensures
        ends_in(
            query::NO_ALBUM_REPLAYGAIN@,
            "
 WHERE al.present = 1
   AND al.rg_gain_db IS NULL
   AND NOT EXISTS (SELECT 1 FROM track t
                    WHERE t.album_id = al.id AND t.rg_album_gain IS NOT NULL)
 ORDER BY ar.sort_name, al.sort_title"@,
        ),
{
    reveal_strlit("SELECT al.id, ar.name || ' — ' || al.title
 FROM album al JOIN artist ar ON ar.id = al.album_artist_id
 WHERE al.present = 1
   AND al.rg_gain_db IS NULL
   AND NOT EXISTS (SELECT 1 FROM track t
                    WHERE t.album_id = al.id AND t.rg_album_gain IS NOT NULL)
 ORDER BY ar.sort_name, al.sort_title");
    reveal_strlit("
 WHERE al.present = 1
   AND al.rg_gain_db IS NULL
   AND NOT EXISTS (SELECT 1 FROM track t
                    WHERE t.album_id = al.id AND t.rg_album_gain IS NOT NULL)
 ORDER BY ar.sort_name, al.sort_title");
    let all = "SELECT al.id, ar.name || ' — ' || al.title
 FROM album al JOIN artist ar ON ar.id = al.album_artist_id
 WHERE al.present = 1
   AND al.rg_gain_db IS NULL
   AND NOT EXISTS (SELECT 1 FROM track t
                    WHERE t.album_id = al.id AND t.rg_album_gain IS NOT NULL)
 ORDER BY ar.sort_name, al.sort_title"@;
    let end = "
 WHERE al.present = 1
   AND al.rg_gain_db IS NULL
   AND NOT EXISTS (SELECT 1 FROM track t
                    WHERE t.album_id = al.id AND t.rg_album_gain IS NOT NULL)
 ORDER BY ar.sort_name, al.sort_title"@;
    assert(all.skip(all.len() - end.len()) =~= end);
}

proof fn lemma_mixed_codecs()
    ensures
        ends_in(
            query::MIXED_CODECS@,
            "
 WHERE t.present = 1 AND al.present = 1 AND t.codec IS NOT NULL
 GROUP BY al.id
 HAVING COUNT(DISTINCT t.codec) > 1
 ORDER BY ar.sort_name, al.sort_title"@,
        ),
{
    reveal_strlit("SELECT al.id,
        ar.name || ' — ' || al.title || '  (' ||
        GROUP_CONCAT(DISTINCT t.codec) || ')'
 FROM track t
 JOIN album al ON al.id = t.album_id
 JOIN artist ar ON ar.id = al.album_artist_id
 WHERE t.present = 1 AND al.present = 1 AND t.codec IS NOT NULL
 GROUP BY al.id
 HAVING COUNT(DISTINCT t.codec) > 1
 ORDER BY ar.sort_name, al.sort_title");
    reveal_strlit("
 WHERE t.present = 1 AND al.present = 1 AND t.codec IS NOT NULL
 GROUP BY al.id
 HAVING COUNT(DISTINCT t.codec) > 1
 ORDER BY ar.sort_name, al.sort_title");
    let all = "SELECT al.id,
        ar.name || ' — ' || al.title || '  (' ||
        GROUP_CONCAT(DISTINCT t.codec) || ')'
 FROM track t
 JOIN album al ON al.id = t.album_id
 JOIN artist ar ON ar.id = al.album_artist_id
 WHERE t.present = 1 AND al.present = 1 AND t.codec IS NOT NULL
 GROUP BY al.id
 HAVING COUNT(DISTINCT t.codec) > 1
 ORDER BY ar.sort_name, al.sort_title"@;
    let end = "
 WHERE t.present = 1 AND al.present = 1 AND t.codec IS NOT NULL
 GROUP BY al.id
 HAVING COUNT(DISTINCT t.codec) > 1
 ORDER BY ar.sort_name, al.sort_title"@;
    assert(all.skip(all.len() - end.len()) =~= end);
}

/// Artists are listed by how often their albums were played, then their tracks,
/// then by name, and only those with an album that is there.
pub proof fn artists_are_listed_by_plays()
    ensures
        ends_in(
            query::ARTISTS_SELECT@,
            "
 WHERE album_count > 0
 ORDER BY album_plays DESC, track_plays DESC, ar.sort_name"@,
        ),
{
    reveal_strlit("SELECT ar.id, ar.name,
        (SELECT COUNT(*) FROM album al
          WHERE al.album_artist_id = ar.id AND al.present = 1) AS album_count,
        COALESCE(pc.track_plays, 0),
        COALESCE(pc.album_plays, 0),
        pc.last_played
 FROM artist ar
 LEFT JOIN artist_play_counts pc ON pc.artist_id = ar.id
 WHERE album_count > 0
 ORDER BY album_plays DESC, track_plays DESC, ar.sort_name");
    reveal_strlit("
 WHERE album_count > 0
 ORDER BY album_plays DESC, track_plays DESC, ar.sort_name");
    let all = "SELECT ar.id, ar.name,
        (SELECT COUNT(*) FROM album al
          WHERE al.album_artist_id = ar.id AND al.present = 1) AS album_count,
        COALESCE(pc.track_plays, 0),
        COALESCE(pc.album_plays, 0),
        pc.last_played
 FROM artist ar
 LEFT JOIN artist_play_counts pc ON pc.artist_id = ar.id
 WHERE album_count > 0
 ORDER BY album_plays DESC, track_plays DESC, ar.sort_name"@;
    let end = "
 WHERE album_count > 0
 ORDER BY album_plays DESC, track_plays DESC, ar.sort_name"@;
    assert(all.skip(all.len() - end.len()) =~= end);
}

/// Albums that tie come in the order of their artists and titles, from A to Z.
pub proof fn ties_go_from_a_to_z(sort: AlbumSort)
    ensures
        sort == AlbumSort::Plays ==> query::sort_columns(sort)
            == "play_count DESC"@ + ", ar.sort_name, al.sort_title"@,
        sort == AlbumSort::Added ==> query::sort_columns(sort) == "al.added_at DESC"@ + ", al.sort_title"@,
        sort == AlbumSort::Year ==> query::sort_columns(sort)
            == "al.year DESC NULLS LAST"@ + ", ar.sort_name"@,
        sort == AlbumSort::LastPlayed ==> query::sort_columns(sort)
            == "last_played DESC NULLS LAST"@ + ", al.sort_title"@,
{
    reveal_strlit("play_count DESC");
    reveal_strlit(", ar.sort_name, al.sort_title");
    reveal_strlit("play_count DESC, ar.sort_name, al.sort_title");
    reveal_strlit("al.added_at DESC");
    reveal_strlit(", al.sort_title");
    reveal_strlit("al.added_at DESC, al.sort_title");
    reveal_strlit("al.year DESC NULLS LAST");
    reveal_strlit(", ar.sort_name");
    reveal_strlit("al.year DESC NULLS LAST, ar.sort_name");
    reveal_strlit("last_played DESC NULLS LAST");
    reveal_strlit("last_played DESC NULLS LAST, al.sort_title");
    assert("play_count DESC"@ + ", ar.sort_name, al.sort_title"@
        =~= "play_count DESC, ar.sort_name, al.sort_title"@);
    assert("al.added_at DESC"@ + ", al.sort_title"@ =~= "al.added_at DESC, al.sort_title"@);
    assert("al.year DESC NULLS LAST"@ + ", ar.sort_name"@ =~= "al.year DESC NULLS LAST, ar.sort_name"@);
    assert("last_played DESC NULLS LAST"@ + ", al.sort_title"@
        =~= "last_played DESC NULLS LAST, al.sort_title"@);
}

/// A listing takes its albums from the library with their artists and their plays,
/// none counting as no plays.
pub proof fn listings_join_artists_and_plays(
    sort: AlbumSort,
    searching: bool,
    include_missing: bool,
    limit: Option<i64>,
)
    ensures
        exists|head: Seq<char>, tail: Seq<char>|
            #![trigger head + tail]
            {
                &&& query::albums_query(sort, searching, include_missing, limit) == head + tail
                &&& ends_in(
                    head,
                    "        COALESCE(pc.play_count, 0) AS play_count,
        pc.last_played AS last_played
 FROM album al
 JOIN artist ar ON ar.id = al.album_artist_id
 LEFT JOIN album_play_counts pc ON pc.album_id = al.id
 WHERE 1 = 1"@,
                )
                &&& include_missing && !searching ==> tail == " ORDER BY "@ + query::sort_columns(
                    sort,
                ) + query::limit_clause(limit)
            },
{
    reveal_strlit("SELECT al.id, al.title, ar.name, al.year, al.track_count, al.disc_count,
        al.duration_ms, al.is_compilation, al.dir_path, al.source_dirs,
        COALESCE(pc.play_count, 0) AS play_count,
        pc.last_played AS last_played
 FROM album al
 JOIN artist ar ON ar.id = al.album_artist_id
 LEFT JOIN album_play_counts pc ON pc.album_id = al.id
 WHERE 1 = 1");
    reveal_strlit("        COALESCE(pc.play_count, 0) AS play_count,
        pc.last_played AS last_played
 FROM album al
 JOIN artist ar ON ar.id = al.album_artist_id
 LEFT JOIN album_play_counts pc ON pc.album_id = al.id
 WHERE 1 = 1");
    let head = "SELECT al.id, al.title, ar.name, al.year, al.track_count, al.disc_count,
        al.duration_ms, al.is_compilation, al.dir_path, al.source_dirs,
        COALESCE(pc.play_count, 0) AS play_count,
        pc.last_played AS last_played
 FROM album al
 JOIN artist ar ON ar.id = al.album_artist_id
 LEFT JOIN album_play_counts pc ON pc.album_id = al.id
 WHERE 1 = 1"@;
    let end = "        COALESCE(pc.play_count, 0) AS play_count,
        pc.last_played AS last_played
 FROM album al
 JOIN artist ar ON ar.id = al.album_artist_id
 LEFT JOIN album_play_counts pc ON pc.album_id = al.id
 WHERE 1 = 1"@;
    assert(head.skip(head.len() - end.len()) =~= end);
    let present = if include_missing {
        Seq::empty()
    } else {
        query::PRESENT_ONLY@
    };
    let search = if searching {
        query::MATCHES_SEARCH@
    } else {
        Seq::empty()
    };
    let order = " ORDER BY "@ + query::sort_columns(sort) + query::limit_clause(limit);
    let tail = present + search + order;
    assert(query::albums_query(sort, searching, include_missing, limit) =~= head + tail);
    if include_missing && !searching {
        assert(tail =~= order);
    }
}

} // verus!
