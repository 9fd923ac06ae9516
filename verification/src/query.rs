//! Read-side queries: how listings are asked for and what is made of the
//! answers. Every play statistic is derived from the event log, never read from
//! a stored counter.

use vstd::prelude::*;

use crate::error::Error;
use crate::model::Real;
use crate::path;
use crate::path::FilePath;
use crate::path::PathView;
use crate::text;
use crate::text::{append_chars, append_text, chars_of, escape, int_chars, lower_ascii_all, same_chars, text_of};

verus! {

/// Where an album's cover image lives.
#[derive(Debug, PartialEq, Eq)]
pub enum AlbumArt {
    /// An image sitting in the album's own folder, as an absolute path.
    Folder(FilePath),
    /// A cover we fetched, named relative to the caller's art cache directory.
    /// Relative on purpose: the cache is at a different absolute path on a host
    /// than inside a container, and the database has to survive the move.
    Cached(String),
}

/// What an [`AlbumArt`] says.
pub enum ArtView {
    Folder(PathView),
    Cached(Seq<char>),
}

impl View for AlbumArt {
    type V = ArtView;

    open spec fn view(&self) -> ArtView {
        match self {
            AlbumArt::Folder(p) => ArtView::Folder(p@),
            AlbumArt::Cached(n) => ArtView::Cached(n@),
        }
    }
}

impl AlbumArt {
    /// Resolve to a real path, given where the cover cache lives.
    pub fn resolve(&self, cache_dir: &FilePath) -> (r: FilePath)
        ensures
            r@ == match self@ {
                ArtView::Folder(p) => p,
                ArtView::Cached(name) => cache_dir@.join(path::path_of(name)),
            },
    {
        match self {
            AlbumArt::Folder(p) => p.clone(),
            AlbumArt::Cached(name) => cache_dir.join(&FilePath::parse(name)),
        }
    }
}

/// The cover image that counts, of the one in the folder and the one fetched.
pub open spec fn preferred_art(
    row: Option<(Option<Seq<char>>, Option<Seq<char>>)>,
) -> Option<ArtView> {
    match row {
        Some((Some(folder), _)) => Some(ArtView::Folder(path::path_of(folder))),
        Some((None, Some(cached))) => Some(ArtView::Cached(cached)),
        _ => None,
    }
}

/// The texts of a row of optional paths.
pub open spec fn art_texts(
    row: Option<(Option<String>, Option<String>)>,
) -> Option<(Option<Seq<char>>, Option<Seq<char>>)> {
    match row {
        Some((a, b)) => Some((text::opt_text(a), text::opt_text(b))),
        None => None,
    }
}

/// The best cover image for an album, from the paths its row holds: of the image
/// in its folder, and of the one that was fetched. A file sitting in the album
/// folder is preferred: it is what the user chose to put there.
pub fn album_art(row: Option<(Option<String>, Option<String>)>) -> (r: Option<AlbumArt>)
    ensures
        match r {
            Some(art) => preferred_art(art_texts(row)) == Some(art@),
            None => preferred_art(art_texts(row)) is None,
        },
{
    match row {
        Some((Some(folder), _)) => Some(AlbumArt::Folder(FilePath::parse(&folder))),
        Some((None, Some(cached))) => Some(AlbumArt::Cached(cached)),
        _ => None,
    }
}

/// The gain and peak that count, of the tagged ones and the measured ones.
pub open spec fn preferred_gain(
    tagged: (Option<Real>, Option<Real>),
    measured: (Option<Real>, Option<Real>),
) -> (Option<Real>, Option<Real>) {
    if tagged.0 is Some {
        tagged
    } else {
        measured
    }
}

/// The album's ReplayGain, gain and peak, from the tagged values and the measured
/// ones.
///
/// Tagged values win. Whoever wrote the tags may have used a different reference
/// level, and silently overriding their metadata would be presumptuous; our own
/// measurement is the fallback for the great majority of records that carry no
/// tags at all.
pub fn album_replaygain(
    tagged: (Option<Real>, Option<Real>),
    measured: (Option<Real>, Option<Real>),
) -> (r: (Option<Real>, Option<Real>))
    ensures
        r == preferred_gain(tagged, measured),
{
    if tagged.0.is_some() {
        tagged
    } else {
        measured
    }
}

/// Whether an album without rows of tracks is there at all, of which so many rows
/// exist.
pub fn album_exists(album_id: i64, rows: i64) -> (r: Result<(), Error>)
    ensures
        rows != 0 ==> r is Ok,
        rows == 0 ==> (r matches Err(Error::NotFound { kind, id }) && kind@ == "album"@ && id
            == album_id),
{
    if rows == 0 {
        Err(Error::NotFound { kind: "album", id: album_id })
    } else {
        Ok(())
    }
}

/// Ordering options for album listings.
#[derive(Debug, Clone, Copy, PartialEq, Eq, Structural)]
pub enum AlbumSort {
    Artist,
    Title,
    Year,
    Plays,
    Added,
    LastPlayed,
}

/// The columns that a sort option orders by.
pub open spec fn sort_columns(sort: AlbumSort) -> Seq<char> {
    match sort {
        AlbumSort::Artist => "ar.sort_name, al.year, al.sort_title"@,
        AlbumSort::Title => "al.sort_title"@,
        AlbumSort::Year => "al.year DESC NULLS LAST, ar.sort_name"@,
        AlbumSort::Plays => "play_count DESC, ar.sort_name, al.sort_title"@,
        AlbumSort::Added => "al.added_at DESC, al.sort_title"@,
        AlbumSort::LastPlayed => "last_played DESC NULLS LAST, al.sort_title"@,
    }
}

/// The sort option a name stands for, ASCII case aside.
pub open spec fn sort_named(name: Seq<char>) -> Option<AlbumSort> {
    let n = text::ascii_lowered(name);
    if n == "artist"@ {
        Some(AlbumSort::Artist)
    } else if n == "title"@ {
        Some(AlbumSort::Title)
    } else if n == "year"@ {
        Some(AlbumSort::Year)
    } else if n == "plays"@ {
        Some(AlbumSort::Plays)
    } else if n == "added"@ {
        Some(AlbumSort::Added)
    } else if n == "last"@ || n == "last-played"@ {
        Some(AlbumSort::LastPlayed)
    } else {
        None
    }
}

impl AlbumSort {
    pub fn order_by(self) -> (r: &'static str)
        ensures
            r@ == sort_columns(self),
    {
        match self {
            AlbumSort::Artist => "ar.sort_name, al.year, al.sort_title",
            AlbumSort::Title => "al.sort_title",
            AlbumSort::Year => "al.year DESC NULLS LAST, ar.sort_name",
            AlbumSort::Plays => "play_count DESC, ar.sort_name, al.sort_title",
            AlbumSort::Added => "al.added_at DESC, al.sort_title",
            AlbumSort::LastPlayed => "last_played DESC NULLS LAST, al.sort_title",
        }
    }

    pub fn parse(s: &str) -> (r: Option<AlbumSort>)
        ensures
            r == sort_named(s@),
    {
        let n = lower_ascii_all(&chars_of(s));
        if same_chars(&n, &chars_of("artist")) {
            Some(AlbumSort::Artist)
        } else if same_chars(&n, &chars_of("title")) {
            Some(AlbumSort::Title)
        } else if same_chars(&n, &chars_of("year")) {
            Some(AlbumSort::Year)
        } else if same_chars(&n, &chars_of("plays")) {
            Some(AlbumSort::Plays)
        } else if same_chars(&n, &chars_of("added")) {
            Some(AlbumSort::Added)
        } else if same_chars(&n, &chars_of("last")) || same_chars(&n, &chars_of("last-played")) {
            Some(AlbumSort::LastPlayed)
        } else {
            None
        }
    }
}

/// Filter applied to album and artist listings.
#[derive(Debug, Clone, Default)]
pub struct AlbumFilter {
    /// Substring match against album title or album artist.
    pub search: Option<String>,
    /// Include albums whose files are no longer on disk.
    pub include_missing: bool,
    pub limit: Option<i64>,
}

/// What every album listing selects.
pub const ALBUMS_SELECT: &'static str = "SELECT al.id, al.title, ar.name, al.year, al.track_count, al.disc_count,
        al.duration_ms, al.is_compilation, al.dir_path, al.source_dirs,
        COALESCE(pc.play_count, 0) AS play_count,
        pc.last_played AS last_played
 FROM album al
 JOIN artist ar ON ar.id = al.album_artist_id
 LEFT JOIN album_play_counts pc ON pc.album_id = al.id
 WHERE 1 = 1";

/// The condition that leaves out albums whose files are gone.
pub const PRESENT_ONLY: &'static str = " AND al.present = 1";

/// The condition that an album or its artist matches the search pattern.
pub const MATCHES_SEARCH: &'static str = " AND (al.title LIKE ?1 ESCAPE '\\' OR ar.name LIKE ?1 ESCAPE '\\')";

/// What every artist listing selects.
pub const ARTISTS_SELECT: &'static str = "SELECT ar.id, ar.name,
        (SELECT COUNT(*) FROM album al
          WHERE al.album_artist_id = ar.id AND al.present = 1) AS album_count,
        COALESCE(pc.track_plays, 0),
        COALESCE(pc.album_plays, 0),
        pc.last_played
 FROM artist ar
 LEFT JOIN artist_play_counts pc ON pc.artist_id = ar.id
 WHERE album_count > 0
 ORDER BY album_plays DESC, track_plays DESC, ar.sort_name";

/// The clause that ends a listing after so many rows.
pub open spec fn limit_clause(limit: Option<i64>) -> Seq<char> {
    match limit {
        Some(n) => " LIMIT "@ + text::int_text(n as int),
        None => Seq::empty(),
    }
}

/// The query of an album listing.
pub open spec fn albums_query(
    sort: AlbumSort,
    searching: bool,
    include_missing: bool,
    limit: Option<i64>,
) -> Seq<char> {
    let present = if include_missing {
        Seq::empty()
    } else {
        PRESENT_ONLY@
    };
    let search = if searching {
        MATCHES_SEARCH@
    } else {
        Seq::empty()
    };
    ALBUMS_SELECT@ + present + search + " ORDER BY "@ + sort_columns(sort) + limit_clause(limit)
}

fn append_limit(sql: &mut Vec<char>, limit: Option<i64>)
    ensures
        final(sql)@ == old(sql)@ + limit_clause(limit),
{
    let ghost start = sql@;
    match limit {
        Some(n) => {
            append_text(sql, " LIMIT ");
            append_chars(sql, &int_chars(n));
            assert(sql@ =~= start + (" LIMIT "@ + text::int_text(n as int)));
        },
        None => {
            assert(start + Seq::<char>::empty() =~= start);
        },
    }
}

/// The query of an album listing, whose one parameter is the search pattern.
pub fn albums_sql(sort: AlbumSort, filter: &AlbumFilter) -> (r: String)
    ensures
        r@ == albums_query(sort, filter.search is Some, filter.include_missing, filter.limit),
{
    let mut sql = chars_of(ALBUMS_SELECT);
    if !filter.include_missing {
        append_text(&mut sql, PRESENT_ONLY);
    } else {
        assert(sql@ + Seq::<char>::empty() =~= sql@);
    }
    if filter.search.is_some() {
        append_text(&mut sql, MATCHES_SEARCH);
    } else {
        assert(sql@ + Seq::<char>::empty() =~= sql@);
    }
    append_text(&mut sql, " ORDER BY ");
    append_text(&mut sql, sort.order_by());
    append_limit(&mut sql, filter.limit);
    text_of(&sql)
}

/// The query of an artist listing.
pub fn artists_sql(limit: Option<i64>) -> (r: String)
    ensures
        r@ == ARTISTS_SELECT@ + limit_clause(limit),
{
    let mut sql = chars_of(ARTISTS_SELECT);
    append_limit(&mut sql, limit);
    text_of(&sql)
}

/// The characters that mean something in a pattern.
pub open spec fn wildcards() -> Seq<char> {
    seq!['\\', '%', '_']
}

/// The pattern that asks for a term anywhere in a text.
pub open spec fn pattern_for(term: Seq<char>) -> Seq<char> {
    seq!['%'] + text::escaped(term, wildcards()) + seq!['%']
}

/// Build a LIKE pattern with wildcards escaped, so a search for `100%` does not
/// match everything.
pub fn like_pattern(term: &str) -> (r: String)
    ensures
        r@ == pattern_for(term@),
{
    let set: Vec<char> = vec!['\\', '%', '_'];
    assert(set@ =~= wildcards());
    let mut out: Vec<char> = Vec::new();
    out.push('%');
    append_chars(&mut out, &escape(&chars_of(term), &set));
    out.push('%');
    assert(out@ =~= pattern_for(term@));
    text_of(&out)
}

/// A search term survives escaping: read back, the pattern stands for exactly the
/// characters of the term, whichever wildcards it holds.
pub proof fn patterns_stand_for_their_term(term: Seq<char>)
    ensures
        text::unescaped(text::escaped(term, wildcards())) == term,
{
    assert(wildcards()[0] == '\\');
    text::escaping_is_undone_by_reading(term, wildcards());
}

/// A tagging problem worth a human's attention, reported by the library check.
#[derive(Debug, Clone)]
pub struct Anomaly {
    pub kind: &'static str,
    pub detail: String,
    pub album_id: Option<i64>,
}

/// One question of the library check: the kind of problem, and the query that
/// lists the albums that have it with a line of detail each.
#[derive(Debug, Clone, Copy)]
pub struct Check {
    pub kind: &'static str,
    pub sql: &'static str,
}

pub const NO_ALBUM_TAG: &'static str = "SELECT al.id, ar.name || ' — ' || al.title || '  (' || al.dir_path || ')'
 FROM album al JOIN artist ar ON ar.id = al.album_artist_id
 WHERE al.present = 1 AND al.identity_source = 'directory'
 ORDER BY al.dir_path";

pub const UNKNOWN_ARTIST: &'static str = "SELECT al.id, al.title || '  (' || al.dir_path || ')'
 FROM album al JOIN artist ar ON ar.id = al.album_artist_id
 WHERE al.present = 1 AND ar.name = 'Unknown Artist'
 ORDER BY al.dir_path";

/// Missing track numbers break album order, which is the whole point.
pub const MISSING_TRACK_NUMBERS: &'static str = "SELECT al.id,
        ar.name || ' — ' || al.title || '  (' ||
        COUNT(*) || ' of ' || al.track_count || ' tracks unnumbered)'
 FROM track t
 JOIN album al ON al.id = t.album_id
 JOIN artist ar ON ar.id = al.album_artist_id
 WHERE t.present = 1 AND al.present = 1 AND t.track_no = 0
 GROUP BY al.id
 ORDER BY ar.sort_name, al.sort_title";

pub const DUPLICATE_TRACK_NUMBERS: &'static str = "SELECT al.id,
        ar.name || ' — ' || al.title || '  (disc ' || t.disc_no ||
        ' track ' || t.track_no || ' appears ' || COUNT(*) || ' times)'
 FROM track t
 JOIN album al ON al.id = t.album_id
 JOIN artist ar ON ar.id = al.album_artist_id
 WHERE t.present = 1 AND al.present = 1 AND t.track_no > 0
 GROUP BY al.id, t.disc_no, t.track_no
 HAVING COUNT(*) > 1
 ORDER BY ar.sort_name, al.sort_title";

/// A one-track album is usually a stray single or a grouping failure.
pub const SINGLE_TRACK_ALBUM: &'static str = "SELECT al.id, ar.name || ' — ' || al.title || '  (' || al.dir_path || ')'
 FROM album al JOIN artist ar ON ar.id = al.album_artist_id
 WHERE al.present = 1 AND al.track_count = 1
 ORDER BY al.dir_path";

/// Merging is usually right, but it is the one heuristic that can fuse two
/// genuinely different releases, so it is always worth an eyeball.
pub const MERGED_FOLDERS: &'static str = "SELECT al.id, ar.name || ' — ' || al.title || '  (' || al.source_dirs ||
        ' folders under ' || al.dir_path || ')'
 FROM album al JOIN artist ar ON ar.id = al.album_artist_id
 WHERE al.present = 1 AND al.source_dirs > 1
 ORDER BY al.source_dirs DESC, ar.sort_name";

pub const NO_COVER_ART: &'static str = "SELECT al.id, ar.name || ' — ' || al.title || '  (' || al.dir_path || ')'
 FROM album al JOIN artist ar ON ar.id = al.album_artist_id
 WHERE al.present = 1 AND al.art_path IS NULL AND al.art_cache_path IS NULL
 ORDER BY ar.sort_name, al.sort_title";

/// Album-first playback wants album gain; track gain alone flattens the dynamics
/// the record was mastered with.
pub const NO_ALBUM_REPLAYGAIN: &'static str = "SELECT al.id, ar.name || ' — ' || al.title
 FROM album al JOIN artist ar ON ar.id = al.album_artist_id
 WHERE al.present = 1
   AND al.rg_gain_db IS NULL
   AND NOT EXISTS (SELECT 1 FROM track t
                    WHERE t.album_id = al.id AND t.rg_album_gain IS NOT NULL)
 ORDER BY ar.sort_name, al.sort_title";

pub const MIXED_CODECS: &'static str = "SELECT al.id,
        ar.name || ' — ' || al.title || '  (' ||
        GROUP_CONCAT(DISTINCT t.codec) || ')'
 FROM track t
 JOIN album al ON al.id = t.album_id
 JOIN artist ar ON ar.id = al.album_artist_id
 WHERE t.present = 1 AND al.present = 1 AND t.codec IS NOT NULL
 GROUP BY al.id
 HAVING COUNT(DISTINCT t.codec) > 1
 ORDER BY ar.sort_name, al.sort_title";

/// The kinds of problem and their queries, in the order in which they are
/// reported.
pub open spec fn check_list() -> Seq<(Seq<char>, Seq<char>)> {
    seq![
        ("no-album-tag"@, NO_ALBUM_TAG@),
        ("unknown-artist"@, UNKNOWN_ARTIST@),
        ("missing-track-numbers"@, MISSING_TRACK_NUMBERS@),
        ("duplicate-track-numbers"@, DUPLICATE_TRACK_NUMBERS@),
        ("single-track-album"@, SINGLE_TRACK_ALBUM@),
        ("merged-from-several-folders"@, MERGED_FOLDERS@),
        ("no-cover-art"@, NO_COVER_ART@),
        ("no-album-replaygain"@, NO_ALBUM_REPLAYGAIN@),
        ("mixed-codecs"@, MIXED_CODECS@),
    ]
}

/// Surface albums whose identity rests on weak evidence, or whose tags will make
/// album-order playback behave badly: the questions to ask, for auditing a real
/// library against the scanner's assumptions.
pub fn doctor() -> (r: Vec<Check>)
    ensures
        r@.map_values(|c: Check| (c.kind@, c.sql@)) == check_list(),
{
    let r: Vec<Check> = vec![
        Check { kind: "no-album-tag", sql: NO_ALBUM_TAG },
        Check { kind: "unknown-artist", sql: UNKNOWN_ARTIST },
        Check { kind: "missing-track-numbers", sql: MISSING_TRACK_NUMBERS },
        Check { kind: "duplicate-track-numbers", sql: DUPLICATE_TRACK_NUMBERS },
        Check { kind: "single-track-album", sql: SINGLE_TRACK_ALBUM },
        Check { kind: "merged-from-several-folders", sql: MERGED_FOLDERS },
        Check { kind: "no-cover-art", sql: NO_COVER_ART },
        Check { kind: "no-album-replaygain", sql: NO_ALBUM_REPLAYGAIN },
        Check { kind: "mixed-codecs", sql: MIXED_CODECS },
    ];
    assert(r@.map_values(|c: Check| (c.kind@, c.sql@)) =~= check_list());
    r
}

} // verus!
