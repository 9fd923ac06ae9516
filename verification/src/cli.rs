//! The command-line front end: what its commands print, and what its options and
//! keys stand for. Lines are given without their line feeds.

use vstd::prelude::*;

use crate::artwork;
use crate::model::{AlbumRow, ArtistRow, LibraryStats, Real, TrackRow};
use crate::path;
use crate::path::FilePath;
use crate::player::{album_from_library, Command, PlayerEvent};
use crate::query;
use crate::query::{AlbumSort, Anomaly};
use crate::queue;
use crate::queue::{clock_nanos, deal, QueuedAlbum, Repeat};
use crate::replaygain;
use crate::scan::ScanReport;
use crate::text;
use crate::text::{
    append_chars, append_text, chars_of, decimal_chars, int_chars, left_of, right_of, same_text, text_of, trim_of,
};

verus! {

/// Where the database stands: under the data directory of the user.
pub fn default_db_path(data_home: Option<String>, home: Option<String>) -> (r: Result<
    FilePath,
    String,
>)
    ensures
        match (data_home, home) {
            (Some(base), _) => r matches Ok(p) && p@ == path::path_of(base@).join(
                path::path_of("albumplayer/library.db"@),
            ),
            (None, Some(h)) => r matches Ok(p) && p@ == path::path_of(h@).join(
                path::path_of(".local/share"@),
            ).join(path::path_of("albumplayer/library.db"@)),
            (None, None) => r matches Err(m) && m@
                == "neither XDG_DATA_HOME nor HOME is set; pass --db"@,
        },
{
    let base = match data_home {
        Some(base) => FilePath::parse(&base),
        None => match home {
            Some(h) => FilePath::parse(&h).join(&FilePath::parse(".local/share")),
            None => {
                return Err("neither XDG_DATA_HOME nor HOME is set; pass --db".to_owned());
            },
        },
    };
    Ok(base.join(&FilePath::parse("albumplayer/library.db")))
}

/// Division that rounds toward zero.
pub open spec fn quotient(a: int, b: int) -> int {
    if a >= 0 {
        a / b
    } else {
        -((-a) / b)
    }
}

/// What division that rounds toward zero leaves over.
pub open spec fn remainder(a: int, b: int) -> int {
    a - quotient(a, b) * b
}

/// A number with at least two characters.
pub open spec fn two_places(n: int) -> Seq<char> {
    if 0 <= n < 10 {
        seq!['0'] + text::int_text(n)
    } else {
        text::int_text(n)
    }
}

/// A duration as hours, minutes and seconds, or minutes and seconds.
pub open spec fn duration_text(ms: int) -> Seq<char> {
    let total = quotient(ms, 1000);
    let h = quotient(total, 3600);
    let m = quotient(remainder(total, 3600), 60);
    let s = remainder(total, 60);
    if h > 0 {
        text::int_text(h) + ":"@ + two_places(m) + ":"@ + two_places(s)
    } else {
        text::int_text(m) + ":"@ + two_places(s)
    }
}

fn divide(a: i64, b: i64) -> (r: (i64, i64))
    requires
        b > 1,
    ensures
        r.0 == quotient(a as int, b as int),
        r.1 == remainder(a as int, b as int),
        a >= 0 ==> 0 <= r.0 <= a,
        a <= 0 ==> a <= r.0 <= 0,
        -b < r.1 < b,
{
    let wide: i128 = a as i128;
    let by: i128 = b as i128;
    let size: i128 = if wide >= 0 {
        wide
    } else {
        -wide
    };
    let q: i128 = size / by;
    let rest: i128 = size % by;
    assert(q * by + rest == size && 0 <= rest < by && 0 <= q <= size) by (nonlinear_arith)
        requires
            q == size / by,
            rest == size % by,
            by > 1,
            size >= 0,
    ;
    assert((-q) * by == -(q * by)) by (nonlinear_arith);
    if a >= 0 {
        (q as i64, rest as i64)
    } else {
        ((-q) as i64, (-rest) as i64)
    }
}

fn two_place_chars(n: i64) -> (out: Vec<char>)
    ensures
        out@ == two_places(n as int),
{
    if n >= 0 && n < 10 {
        let mut out: Vec<char> = vec!['0'];
        assert(out@ =~= seq!['0']);
        append_chars(&mut out, &int_chars(n));
        out
    } else {
        int_chars(n)
    }
}

/// Render a millisecond duration as `h:mm:ss` or `m:ss`.
pub fn fmt_duration(ms: i64) -> (r: String)
    ensures
        r@ == duration_text(ms as int),
{
    let (total, _) = divide(ms, 1000);
    let (h, within) = divide(total, 3600);
    let (m, _) = divide(within, 60);
    let (_, s) = divide(total, 60);
    let mut out: Vec<char>;
    if h > 0 {
        out = int_chars(h);
        append_text(&mut out, ":");
        append_chars(&mut out, &two_place_chars(m));
        append_text(&mut out, ":");
        append_chars(&mut out, &two_place_chars(s));
    } else {
        out = int_chars(m);
        append_text(&mut out, ":");
        append_chars(&mut out, &two_place_chars(s));
    }
    text_of(&out)
}

/// Append a line to what is printed.
fn put(out: &mut Vec<String>, line: &Vec<char>)
    ensures
        path::texts(final(out)@) == path::texts(old(out)@).push(line@),
{
    let ghost before = out@;
    let s = text_of(line);
    out.push(s);
    assert(path::texts(out@) =~= path::texts(before).push(line@));
}

/// Append a fixed line to what is printed.
fn put_text(out: &mut Vec<String>, line: &str)
    ensures
        path::texts(final(out)@) == path::texts(old(out)@).push(line@),
{
    put(out, &chars_of(line));
}

fn no_lines() -> (out: Vec<String>)
    ensures
        path::texts(out@) == Seq::<Seq<char>>::empty(),
{
    let out: Vec<String> = Vec::new();
    assert(path::texts(out@) =~= Seq::<Seq<char>>::empty());
    out
}

/// The order that a listing was asked for.
pub fn sort_for(sort: &str) -> (r: Result<AlbumSort, String>)
    ensures
        match query::sort_named(sort@) {
            Some(order) => r == Ok::<AlbumSort, String>(order),
            None => r matches Err(m) && m@ == "unknown sort '"@ + sort@
                + "' (artist|title|year|plays|added|last)"@,
        },
{
    match AlbumSort::parse(sort) {
        Some(order) => Ok(order),
        None => {
            let mut out = chars_of("unknown sort '");
            append_text(&mut out, sort);
            append_text(&mut out, "' (artist|title|year|plays|added|last)");
            Err(text_of(&out))
        },
    }
}

/// A number between two texts when it is more than `least`, and nothing otherwise.
pub open spec fn only_above(n: int, least: int, before: Seq<char>, after: Seq<char>) -> Seq<char> {
    if n > least {
        before + text::int_text(n) + after
    } else {
        Seq::empty()
    }
}

fn put_above(out: &mut Vec<char>, n: i64, least: i64, before: &str, after: &str)
    ensures
        final(out)@ == old(out)@ + only_above(n as int, least as int, before@, after@),
{
    let ghost start = out@;
    let mut part: Vec<char> = Vec::new();
    if n > least {
        part = chars_of(before);
        append_chars(&mut part, &int_chars(n));
        append_text(&mut part, after);
    } else {
        assert(part@ =~= Seq::<char>::empty());
    }
    append_chars(out, &part);
}

/// The line for one album of a listing.
pub open spec fn album_line(a: AlbumRow) -> Seq<char> {
    text::flush_right(text::int_text(a.id as int), 6) + "  "@ + (match a.year {
        Some(y) => text::int_text(y as int),
        None => "----"@,
    }) + "  "@ + text::flush_left(a.album_artist@, 28) + "  "@ + text::flush_left(a.title@, 40)
        + "  "@ + text::flush_right(text::int_text(a.track_count as int), 2) + "tr "@
        + text::flush_right(duration_text(a.duration_ms as int), 6) + only_above(
        a.disc_count as int,
        1,
        " ["@,
        "CD]"@,
    ) + only_above(a.play_count as int, 0, "  ▸"@, ""@)
}

fn album_chars(a: &AlbumRow) -> (out: Vec<char>)
    ensures
        out@ == album_line(*a),
{
    let mut out = right_of(&int_chars(a.id), 6);
    append_text(&mut out, "  ");
    match a.year {
        Some(y) => {
            append_chars(&mut out, &int_chars(y as i64));
        },
        None => {
            append_text(&mut out, "----");
        },
    }
    append_text(&mut out, "  ");
    append_chars(&mut out, &left_of(&chars_of(&a.album_artist), 28));
    append_text(&mut out, "  ");
    append_chars(&mut out, &left_of(&chars_of(&a.title), 40));
    append_text(&mut out, "  ");
    append_chars(&mut out, &right_of(&int_chars(a.track_count), 2));
    append_text(&mut out, "tr ");
    append_chars(&mut out, &right_of(&chars_of(&fmt_duration(a.duration_ms)), 6));
    put_above(&mut out, a.disc_count, 1, " [", "CD]");
    put_above(&mut out, a.play_count, 0, "  ▸", "");
    out
}

/// What the listing of albums prints.
pub open spec fn albums_shown(albums: Seq<AlbumRow>) -> Seq<Seq<char>> {
    if albums.len() == 0 {
        seq!["No albums. Run `albumplayer scan <DIR>` first."@]
    } else {
        albums.map_values(|a: AlbumRow| album_line(a)).push(""@).push(
            text::decimal_text(albums.len()) + " albums"@,
        )
    }
}

/// The listing of albums.
pub fn albums_listing(albums: &Vec<AlbumRow>) -> (out: Vec<String>)
    ensures
        path::texts(out@) == albums_shown(albums@),
{
    let mut out = no_lines();
    if albums.len() == 0 {
        put_text(&mut out, "No albums. Run `albumplayer scan <DIR>` first.");
        assert(path::texts(out@) =~= albums_shown(albums@));
        return out;
    }
    for i in 0..albums.len()
        invariant
            path::texts(out@) =~= albums@.take(i as int).map_values(|a: AlbumRow| album_line(a)),
    {
        put(&mut out, &album_chars(&albums[i]));
    }
    assert(albums@.take(albums@.len() as int) =~= albums@);
    put_text(&mut out, "");
    let mut total = decimal_chars(albums.len() as u64);
    append_text(&mut total, " albums");
    put(&mut out, &total);
    out
}

/// The line for one artist of a listing.
pub open spec fn artist_line(a: ArtistRow) -> Seq<char> {
    text::flush_left(a.name@, 40) + " "@ + text::flush_right(
        text::int_text(a.album_count as int),
        7,
    ) + " "@ + text::flush_right(text::int_text(a.album_plays as int), 12) + " "@
        + text::flush_right(text::int_text(a.track_plays as int), 12)
}

fn artist_chars(a: &ArtistRow) -> (out: Vec<char>)
    ensures
        out@ == artist_line(*a),
{
    let mut out = left_of(&chars_of(&a.name), 40);
    append_text(&mut out, " ");
    append_chars(&mut out, &right_of(&int_chars(a.album_count), 7));
    append_text(&mut out, " ");
    append_chars(&mut out, &right_of(&int_chars(a.album_plays), 12));
    append_text(&mut out, " ");
    append_chars(&mut out, &right_of(&int_chars(a.track_plays), 12));
    out
}

/// The heading over a listing of artists.
pub open spec fn artists_heading() -> Seq<char> {
    text::flush_left("ARTIST"@, 40) + " "@ + text::flush_right("ALBUMS"@, 7) + " "@
        + text::flush_right("ALBUM PLAYS"@, 12) + " "@ + text::flush_right("TRACK PLAYS"@, 12)
}

/// What the listing of artists prints.
pub open spec fn artists_shown(artists: Seq<ArtistRow>) -> Seq<Seq<char>> {
    if artists.len() == 0 {
        seq!["No artists yet."@]
    } else {
        seq![artists_heading()] + artists.map_values(|a: ArtistRow| artist_line(a))
    }
}

/// The listing of artists.
pub fn artists_listing(artists: &Vec<ArtistRow>) -> (out: Vec<String>)
    ensures
        path::texts(out@) == artists_shown(artists@),
{
    let mut out = no_lines();
    if artists.len() == 0 {
        put_text(&mut out, "No artists yet.");
        assert(path::texts(out@) =~= artists_shown(artists@));
        return out;
    }
    let mut heading = left_of(&chars_of("ARTIST"), 40);
    append_text(&mut heading, " ");
    append_chars(&mut heading, &right_of(&chars_of("ALBUMS"), 7));
    append_text(&mut heading, " ");
    append_chars(&mut heading, &right_of(&chars_of("ALBUM PLAYS"), 12));
    append_text(&mut heading, " ");
    append_chars(&mut heading, &right_of(&chars_of("TRACK PLAYS"), 12));
    put(&mut out, &heading);
    for i in 0..artists.len()
        invariant
            path::texts(out@) =~= seq![artists_heading()] + artists@.take(i as int).map_values(
                |a: ArtistRow| artist_line(a),
            ),
    {
        put(&mut out, &artist_chars(&artists[i]));
    }
    assert(artists@.take(artists@.len() as int) =~= artists@);
    out
}

/// The line for one track of an album.
pub open spec fn track_line(t: TrackRow) -> Seq<char> {
    "  "@ + text::flush_right(text::int_text(t.track_no as int), 3) + ". "@ + text::flush_left(
        t.title@,
        44,
    ) + " "@ + text::flush_right(duration_text(t.duration_ms as int), 7) + "  "@ + t.artist@
}

fn track_chars(t: &TrackRow) -> (out: Vec<char>)
    ensures
        out@ == track_line(*t),
{
    let mut out = chars_of("  ");
    append_chars(&mut out, &right_of(&int_chars(t.track_no), 3));
    append_text(&mut out, ". ");
    append_chars(&mut out, &left_of(&chars_of(&t.title), 44));
    append_text(&mut out, " ");
    append_chars(&mut out, &right_of(&chars_of(&fmt_duration(t.duration_ms)), 7));
    append_text(&mut out, "  ");
    append_text(&mut out, &t.artist);
    out
}

/// The tracks of an album. Where it has several discs, each change of disc gets a
/// line of its own.
pub open spec fn tracks_shown(tracks: Seq<TrackRow>, several_discs: bool) -> Seq<Seq<char>>
    decreases tracks.len(),
{
    if tracks.len() == 0 {
        Seq::empty()
    } else {
        let before = tracks_shown(tracks.drop_last(), several_discs);
        let disc_before = if tracks.len() == 1 {
            0
        } else {
            tracks[tracks.len() - 2].disc_no
        };
        let headed = if several_discs && tracks.last().disc_no != disc_before {
            before.push("  Disc "@ + text::int_text(tracks.last().disc_no as int))
        } else {
            before
        };
        headed.push(track_line(tracks.last()))
    }
}

fn put_tracks(out: &mut Vec<String>, tracks: &Vec<TrackRow>, several_discs: bool)
    ensures
        path::texts(final(out)@) == path::texts(old(out)@) + tracks_shown(tracks@, several_discs),
{
    let ghost start = path::texts(out@);
    assert(start + tracks_shown(tracks@.take(0), several_discs) =~= start);
    let mut disc: i64 = 0;
    for i in 0..tracks.len()
        invariant
            path::texts(out@) == start + tracks_shown(tracks@.take(i as int), several_discs),
            disc == if i == 0 {
                0
            } else {
                tracks@[i - 1].disc_no
            },
    {
        let ghost upto = tracks@.take(i + 1);
        assert(upto.drop_last() =~= tracks@.take(i as int));
        assert(i > 0 ==> upto[upto.len() - 2] == tracks@[i - 1]);
        let ghost before = path::texts(out@);
        let t = &tracks[i];
        if several_discs && t.disc_no != disc {
            let mut heading = chars_of("  Disc ");
            append_chars(&mut heading, &int_chars(t.disc_no));
            put(out, &heading);
        }
        disc = t.disc_no;
        put(out, &track_chars(t));
        assert(path::texts(out@) =~= start + tracks_shown(upto, several_discs));
    }
    assert(tracks@.take(tracks@.len() as int) =~= tracks@);
}

/// What the page of one album prints over its tracks. The cover and the gain have
/// a line each where there are any.
pub open spec fn album_heading(
    album: AlbumRow,
    cover: Option<Seq<char>>,
    gain: Option<Seq<char>>,
) -> Seq<Seq<char>> {
    let named = seq![
        album.album_artist@ + " — "@ + album.title@ + match album.year {
            Some(y) => " ("@ + text::int_text(y as int) + ")"@,
            None => Seq::empty(),
        },
        album.dir_path@,
    ];
    let covered = match cover {
        Some(c) => named.push("cover: "@ + c),
        None => named,
    };
    let gained = match gain {
        Some(g) => covered.push("replaygain: "@ + g),
        None => covered,
    };
    gained.push(
        text::int_text(album.track_count as int) + " tracks, "@ + duration_text(
            album.duration_ms as int,
        ) + only_above(album.disc_count as int, 1, ", "@, " discs"@) + if album.is_compilation {
            ", compilation"@
        } else {
            ""@
        },
    ).push(""@)
}

/// The page of one album: its heading and its tracks. What the cover and the gain
/// are shown as comes from outside.
pub fn album_page(
    album: &AlbumRow,
    tracks: &Vec<TrackRow>,
    cover: Option<String>,
    gain: Option<String>,
) -> (out: Vec<String>)
    ensures
        path::texts(out@) == album_heading(*album, text::opt_text(cover), text::opt_text(gain))
            + tracks_shown(tracks@, album.disc_count > 1),
{
    let mut out = no_lines();
    let mut name = chars_of(&album.album_artist);
    append_text(&mut name, " — ");
    append_text(&mut name, &album.title);
    let mut year: Vec<char> = Vec::new();
    if let Some(y) = album.year {
        year = chars_of(" (");
        append_chars(&mut year, &int_chars(y as i64));
        append_text(&mut year, ")");
    }
    assert(year@ =~= match album.year {
        Some(y) => " ("@ + text::int_text(y as int) + ")"@,
        None => Seq::empty(),
    });
    append_chars(&mut name, &year);
    put(&mut out, &name);
    put_text(&mut out, &album.dir_path);
    assert(path::texts(out@) =~= seq![name@, album.dir_path@]);
    if let Some(c) = cover {
        let mut line = chars_of("cover: ");
        append_text(&mut line, &c);
        put(&mut out, &line);
    }
    if let Some(g) = gain {
        let mut line = chars_of("replaygain: ");
        append_text(&mut line, &g);
        put(&mut out, &line);
    }
    let mut sums = int_chars(album.track_count);
    append_text(&mut sums, " tracks, ");
    append_text(&mut sums, &fmt_duration(album.duration_ms));
    put_above(&mut sums, album.disc_count, 1, ", ", " discs");
    append_text(
        &mut sums,
        if album.is_compilation {
            ", compilation"
        } else {
            ""
        },
    );
    put(&mut out, &sums);
    put_text(&mut out, "");
    put_tracks(&mut out, tracks, album.disc_count > 1);
    out
}

/// The line of a labelled number.
pub open spec fn labelled(label: Seq<char>, n: int) -> Seq<char> {
    label + text::int_text(n)
}

fn put_labelled(out: &mut Vec<String>, label: &str, n: i64)
    ensures
        path::texts(final(out)@) == path::texts(old(out)@).push(labelled(label@, n as int)),
{
    let mut line = chars_of(label);
    append_chars(&mut line, &int_chars(n));
    put(out, &line);
}

/// How much of the library has something.
pub open spec fn coverage(label: Seq<char>, n: int, all: int) -> Seq<char> {
    label + text::int_text(n) + " of "@ + text::int_text(all) + " albums"@
}

fn put_coverage(out: &mut Vec<String>, label: &str, n: i64, all: i64)
    ensures
        path::texts(final(out)@) == path::texts(old(out)@).push(
            coverage(label@, n as int, all as int),
        ),
{
    let mut line = chars_of(label);
    append_chars(&mut line, &int_chars(n));
    append_text(&mut line, " of ");
    append_chars(&mut line, &int_chars(all));
    append_text(&mut line, " albums");
    put(out, &line);
}

/// What the totals of the library print.
pub open spec fn stats_shown(s: LibraryStats, with_art: int, with_gain: int) -> Seq<Seq<char>> {
    let present = seq![
        labelled("Albums         "@, s.albums as int),
        labelled("  compilations "@, s.compilations as int),
        labelled("Artists        "@, s.artists as int),
        labelled("Tracks         "@, s.tracks as int),
        "Total time     "@ + duration_text(s.total_duration_ms as int),
        labelled("Album plays    "@, s.album_plays as int),
        labelled("Track plays    "@, s.track_plays as int),
        ""@,
        coverage("Cover art      "@, with_art, s.albums as int),
        coverage("ReplayGain     "@, with_gain, s.albums as int),
    ];
    if s.missing_albums > 0 || s.missing_tracks > 0 {
        present.push(""@).push(
            "No longer on disk: "@ + text::int_text(s.missing_albums as int) + " albums, "@
                + text::int_text(s.missing_tracks as int) + " tracks (history retained)"@,
        )
    } else {
        present
    }
}

/// The totals of the library, with the number of albums that have a cover and that
/// have a gain.
pub fn stats_lines(s: &LibraryStats, with_art: i64, with_gain: i64) -> (out: Vec<String>)
    ensures
        path::texts(out@) == stats_shown(*s, with_art as int, with_gain as int),
{
    let mut out = no_lines();
    put_labelled(&mut out, "Albums         ", s.albums);
    put_labelled(&mut out, "  compilations ", s.compilations);
    put_labelled(&mut out, "Artists        ", s.artists);
    put_labelled(&mut out, "Tracks         ", s.tracks);
    let mut time = chars_of("Total time     ");
    append_text(&mut time, &fmt_duration(s.total_duration_ms));
    put(&mut out, &time);
    put_labelled(&mut out, "Album plays    ", s.album_plays);
    put_labelled(&mut out, "Track plays    ", s.track_plays);
    put_text(&mut out, "");
    put_coverage(&mut out, "Cover art      ", with_art, s.albums);
    put_coverage(&mut out, "ReplayGain     ", with_gain, s.albums);
    if s.missing_albums > 0 || s.missing_tracks > 0 {
        put_text(&mut out, "");
        let mut line = chars_of("No longer on disk: ");
        append_chars(&mut line, &int_chars(s.missing_albums));
        append_text(&mut line, " albums, ");
        append_chars(&mut line, &int_chars(s.missing_tracks));
        append_text(&mut line, " tracks (history retained)");
        put(&mut out, &line);
    }
    assert(path::texts(out@) =~= stats_shown(*s, with_art as int, with_gain as int));
    out
}

/// How many unreadable files are shown unless all are asked for.
pub const SHOWN_ERRORS: usize = 5;

/// What is printed on the files that were read.
pub open spec fn files_line(r: ScanReport, seconds: Seq<char>) -> Seq<char> {
    "Scanned "@ + text::decimal_text(r.files_seen as nat) + " files in "@ + seconds + "s  ("@
        + text::decimal_text(r.files_parsed as nat) + " parsed, "@ + text::decimal_text(
        r.files_cached as nat,
    ) + " unchanged, "@ + text::decimal_text(r.files_failed as nat) + " failed)"@
}

/// What is printed on the albums that the files came to.
pub open spec fn albums_line(r: ScanReport) -> Seq<char> {
    text::decimal_text(r.albums as nat) + " albums ("@ + text::decimal_text(r.albums_new as nat)
        + " new)"@ + if r.albums_gone > 0 {
        ", "@ + text::decimal_text(r.albums_gone as nat) + " no longer on disk"@
    } else {
        Seq::empty()
    }
}

/// What is printed when too much failed to say what is gone.
pub open spec fn storage_warning(r: ScanReport) -> Seq<Seq<char>> {
    if r.absences_skipped {
        seq![
            ""@,
            "⚠ "@ + text::decimal_text(r.files_failed as nat) + " of "@ + text::decimal_text(
                r.files_seen as nat,
            ) + " files could not be read, so nothing was marked as missing."@,
            "  That failure rate usually means the storage was unavailable rather than"@,
            "  the music being gone. Rescan once it is healthy."@,
        ]
    } else {
        Seq::empty()
    }
}

/// What is printed for one unreadable file.
pub open spec fn error_line(e: (FilePath, String)) -> Seq<char> {
    "  "@ + e.0@.text() + ": "@ + e.1@
}

/// What is printed on unreadable files: all that are listed, or the first few.
pub open spec fn unreadable(r: ScanReport, verbose: bool) -> Seq<Seq<char>> {
    if r.files_failed == 0 {
        Seq::empty()
    } else {
        let all = r.errors@.map_values(|e: (FilePath, String)| error_line(e));
        let heading = seq![""@, "Unreadable files:"@];
        if verbose || all.len() <= SHOWN_ERRORS {
            heading + all
        } else {
            (heading + all.take(SHOWN_ERRORS as int)).push("  … and more; rerun with --verbose"@)
        }
    }
}

fn put_unreadable(out: &mut Vec<String>, r: &ScanReport, verbose: bool)
    ensures
        path::texts(final(out)@) == path::texts(old(out)@) + unreadable(*r, verbose),
{
    let ghost start = path::texts(out@);
    if r.files_failed == 0 {
        assert(start + unreadable(*r, verbose) =~= start);
        return;
    }
    let ghost all = r.errors@.map_values(|e: (FilePath, String)| error_line(e));
    let ghost heading = seq![""@, "Unreadable files:"@];
    let n: usize = r.errors.len();
    let cut = !verbose && n > SHOWN_ERRORS;
    let shown: usize = if cut {
        SHOWN_ERRORS
    } else {
        n
    };
    put_text(out, "");
    put_text(out, "Unreadable files:");
    assert(path::texts(out@) =~= start + (heading + all.take(0)));
    for i in 0..shown
        invariant
            shown <= n,
            n == r.errors@.len(),
            all == r.errors@.map_values(|e: (FilePath, String)| error_line(e)),
            path::texts(out@) =~= start + (heading + all.take(i as int)),
    {
        let mut line = chars_of("  ");
        append_text(&mut line, &r.errors[i].0.to_text());
        append_text(&mut line, ": ");
        append_text(&mut line, &r.errors[i].1);
        assert(line@ == error_line(r.errors@[i as int]));
        put(out, &line);
        assert(all.take(i + 1) =~= all.take(i as int).push(all[i as int]));
    }
    assert(all.take(n as int) =~= all);
    if cut {
        put_text(out, "  … and more; rerun with --verbose");
    }
    assert(path::texts(out@) =~= start + unreadable(*r, verbose));
}

/// What a scan prints. How long it took is written outside.
pub fn scan_lines(r: &ScanReport, seconds: &str, verbose: bool) -> (out: Vec<String>)
    ensures
        path::texts(out@) == seq![files_line(*r, seconds@), albums_line(*r)] + storage_warning(*r)
            + unreadable(*r, verbose) + seq![
            ""@,
            "Run `albumplayer doctor` to review how these resolved into albums."@,
        ],
{
    let mut out = no_lines();
    let mut files = chars_of("Scanned ");
    append_chars(&mut files, &decimal_chars(r.files_seen as u64));
    append_text(&mut files, " files in ");
    append_text(&mut files, seconds);
    append_text(&mut files, "s  (");
    append_chars(&mut files, &decimal_chars(r.files_parsed as u64));
    append_text(&mut files, " parsed, ");
    append_chars(&mut files, &decimal_chars(r.files_cached as u64));
    append_text(&mut files, " unchanged, ");
    append_chars(&mut files, &decimal_chars(r.files_failed as u64));
    append_text(&mut files, " failed)");
    put(&mut out, &files);
    let mut albums = decimal_chars(r.albums as u64);
    append_text(&mut albums, " albums (");
    append_chars(&mut albums, &decimal_chars(r.albums_new as u64));
    append_text(&mut albums, " new)");
    let mut gone: Vec<char> = Vec::new();
    if r.albums_gone > 0 {
        gone = chars_of(", ");
        append_chars(&mut gone, &decimal_chars(r.albums_gone as u64));
        append_text(&mut gone, " no longer on disk");
    } else {
        assert(gone@ =~= Seq::<char>::empty());
    }
    append_chars(&mut albums, &gone);
    assert(albums@ == albums_line(*r));
    put(&mut out, &albums);
    let ghost head = seq![files_line(*r, seconds@), albums_line(*r)];
    assert(path::texts(out@) =~= head);
    if r.absences_skipped {
        put_text(&mut out, "");
        let mut line = chars_of("⚠ ");
        append_chars(&mut line, &decimal_chars(r.files_failed as u64));
        append_text(&mut line, " of ");
        append_chars(&mut line, &decimal_chars(r.files_seen as u64));
        append_text(&mut line, " files could not be read, so nothing was marked as missing.");
        put(&mut out, &line);
        put_text(
            &mut out,
            "  That failure rate usually means the storage was unavailable rather than",
        );
        put_text(&mut out, "  the music being gone. Rescan once it is healthy.");
    }
    assert(path::texts(out@) =~= head + storage_warning(*r));
    put_unreadable(&mut out, r, verbose);
    let ghost before = path::texts(out@);
    put_text(&mut out, "");
    put_text(&mut out, "Run `albumplayer doctor` to review how these resolved into albums.");
    assert(path::texts(out@) =~= before + seq![
        ""@,
        "Run `albumplayer doctor` to review how these resolved into albums."@,
    ]);
    out
}

/// Why a kind of problem matters for album-first playback.
pub open spec fn explained(kind: Seq<char>) -> Seq<char> {
    if kind == "no-album-tag"@ {
        "  identity rests on the folder path; renaming it will orphan play history"@
    } else if kind == "unknown-artist"@ {
        "  no artist tag and no usable fallback"@
    } else if kind == "missing-track-numbers"@ {
        "  tracks will play in filename order, not album order"@
    } else if kind == "duplicate-track-numbers"@ {
        "  album order is ambiguous"@
    } else if kind == "single-track-album"@ {
        "  likely a stray single, or a grouping failure worth checking"@
    } else if kind == "no-cover-art"@ {
        "  no cover image found in the album folder"@
    } else if kind == "no-album-replaygain"@ {
        "  album gain missing; volume will jump between albums"@
    } else if kind == "merged-from-several-folders"@ {
        "  separate folders resolved to one release and were merged; check they belong together"@
    } else if kind == "mixed-codecs"@ {
        "  one album spans several formats, which can disturb gapless playback"@
    } else {
        ""@
    }
}

/// Why each anomaly category matters for album-first playback.
pub fn explain(kind: &str) -> (r: &'static str)
    ensures
        r@ == explained(kind@),
{
    if same_text(kind, "no-album-tag") {
        "  identity rests on the folder path; renaming it will orphan play history"
    } else if same_text(kind, "unknown-artist") {
        "  no artist tag and no usable fallback"
    } else if same_text(kind, "missing-track-numbers") {
        "  tracks will play in filename order, not album order"
    } else if same_text(kind, "duplicate-track-numbers") {
        "  album order is ambiguous"
    } else if same_text(kind, "single-track-album") {
        "  likely a stray single, or a grouping failure worth checking"
    } else if same_text(kind, "no-cover-art") {
        "  no cover image found in the album folder"
    } else if same_text(kind, "no-album-replaygain") {
        "  album gain missing; volume will jump between albums"
    } else if same_text(kind, "merged-from-several-folders") {
        "  separate folders resolved to one release and were merged; check they belong together"
    } else if same_text(kind, "mixed-codecs") {
        "  one album spans several formats, which can disturb gapless playback"
    } else {
        ""
    }
}

/// The kinds of problem that occur, in the order in which they first do.
pub open spec fn kinds_in(anomalies: Seq<Anomaly>) -> Seq<Seq<char>>
    decreases anomalies.len(),
{
    if anomalies.len() == 0 {
        Seq::empty()
    } else {
        let before = kinds_in(anomalies.drop_last());
        if before.contains(anomalies.last().kind@) {
            before
        } else {
            before.push(anomalies.last().kind@)
        }
    }
}

/// The lines on the problems of one kind.
pub open spec fn details_of(anomalies: Seq<Anomaly>, kind: Seq<char>) -> Seq<Seq<char>>
    decreases anomalies.len(),
{
    if anomalies.len() == 0 {
        Seq::empty()
    } else {
        let before = details_of(anomalies.drop_last(), kind);
        if anomalies.last().kind@ == kind {
            before.push("  "@ + anomalies.last().detail@)
        } else {
            before
        }
    }
}

/// What is printed on one kind of problem: how many there are, why they matter,
/// and the first of them.
pub open spec fn section(anomalies: Seq<Anomaly>, kind: Seq<char>, limit: int) -> Seq<Seq<char>> {
    let all = details_of(anomalies, kind);
    let heading = seq![
        ""@,
        kind + "  ("@ + text::decimal_text(all.len()) + ")"@,
        explained(kind),
    ];
    if all.len() <= limit {
        heading + all
    } else {
        (heading + all.take(limit)).push(
            "  … "@ + text::decimal_text((all.len() - limit) as nat) + " more"@,
        )
    }
}

/// What is printed on some kinds of problem, or on the one that was asked for.
pub open spec fn sections(
    anomalies: Seq<Anomaly>,
    kinds: Seq<Seq<char>>,
    only: Option<Seq<char>>,
    limit: int,
) -> Seq<Seq<char>>
    decreases kinds.len(),
{
    if kinds.len() == 0 {
        Seq::empty()
    } else {
        let before = sections(anomalies, kinds.drop_last(), only, limit);
        if only is None || only == Some(kinds.last()) {
            before + section(anomalies, kinds.last(), limit)
        } else {
            before
        }
    }
}

/// What the library check prints.
pub open spec fn doctor_shown(
    anomalies: Seq<Anomaly>,
    only: Option<Seq<char>>,
    limit: int,
) -> Seq<Seq<char>> {
    if anomalies.len() == 0 {
        seq!["No tagging problems found."@]
    } else {
        sections(anomalies, kinds_in(anomalies), only, limit)
    }
}

/// How many problems the sections on some kinds report together.
pub open spec fn reported(anomalies: Seq<Anomaly>, kinds: Seq<Seq<char>>) -> nat
    decreases kinds.len(),
{
    if kinds.len() == 0 {
        0
    } else {
        reported(anomalies, kinds.drop_last()) + details_of(anomalies, kinds.last()).len()
    }
}

proof fn lemma_reported_more(anomalies: Seq<Anomaly>, kinds: Seq<Seq<char>>)
    requires
        anomalies.len() > 0,
        kinds.no_duplicates(),
    ensures
        reported(anomalies, kinds) == reported(anomalies.drop_last(), kinds) + if kinds.contains(
            anomalies.last().kind@,
        ) {
            1nat
        } else {
            0
        },
    decreases kinds.len(),
{
    if kinds.len() > 0 {
        let front = kinds.drop_last();
        let kind = anomalies.last().kind@;
        assert(front.no_duplicates());
        lemma_reported_more(anomalies, front);
        if kinds.contains(kind) {
            let i = choose|i: int| 0 <= i < kinds.len() && kinds[i] == kind;
            if i < front.len() {
                assert(front[i] == kind);
                assert(kinds.last() != kind);
            } else if front.contains(kind) {
                let j = choose|j: int| 0 <= j < front.len() && front[j] == kind;
                assert(kinds[j] == kinds[i]);
            }
        } else {
            assert(kinds[kinds.len() - 1] != kind);
            if front.contains(kind) {
                let j = choose|j: int| 0 <= j < front.len() && front[j] == kind;
                assert(kinds[j] == kind);
            }
        }
    }
}

proof fn lemma_unknown_kind(anomalies: Seq<Anomaly>, kind: Seq<char>)
    requires
        !kinds_in(anomalies).contains(kind),
    ensures
        details_of(anomalies, kind).len() == 0,
    decreases anomalies.len(),
{
    if anomalies.len() > 0 {
        let before = kinds_in(anomalies.drop_last());
        let last = anomalies.last().kind@;
        if before.contains(kind) {
            let i = choose|i: int| 0 <= i < before.len() && before[i] == kind;
            assert(kinds_in(anomalies)[i] == kind);
        }
        if last == kind && !before.contains(last) {
            assert(before.push(last)[before.len() as int] == kind);
        }
        lemma_unknown_kind(anomalies.drop_last(), kind);
    }
}

/// Without a filter every problem is reported under exactly one heading: no kind is
/// headed twice, and the numbers in the headings add up to the number of problems.
pub proof fn every_problem_is_reported_once(anomalies: Seq<Anomaly>)
    ensures
        kinds_in(anomalies).no_duplicates(),
        reported(anomalies, kinds_in(anomalies)) == anomalies.len(),
    decreases anomalies.len(),
{
    if anomalies.len() > 0 {
        let rest = anomalies.drop_last();
        let before = kinds_in(rest);
        let kind = anomalies.last().kind@;
        every_problem_is_reported_once(rest);
        lemma_reported_more(anomalies, before);
        if !before.contains(kind) {
            lemma_unknown_kind(rest, kind);
            let after = before.push(kind);
            assert(after.drop_last() =~= before);
            assert(details_of(anomalies, kind).len() == 1);
        }
    }
}

/// The texts of a list of kinds.
pub open spec fn kind_texts(kinds: Seq<&'static str>) -> Seq<Seq<char>> {
    kinds.map_values(|k: &'static str| k@)
}

fn kinds_of(anomalies: &Vec<Anomaly>) -> (out: Vec<&'static str>)
    ensures
        kind_texts(out@) == kinds_in(anomalies@),
{
    let mut out: Vec<&'static str> = Vec::new();
    assert(kind_texts(out@) =~= kinds_in(anomalies@.take(0)));
    for i in 0..anomalies.len()
        invariant
            kind_texts(out@) == kinds_in(anomalies@.take(i as int)),
    {
        assert(anomalies@.take(i + 1).drop_last() =~= anomalies@.take(i as int));
        let kind = anomalies[i].kind;
        let ghost known = kind_texts(out@);
        let mut seen = false;
        for j in 0..out.len()
            invariant
                known == kind_texts(out@),
                seen == exists|k: int| 0 <= k < j && #[trigger] known[k] == kind@,
        {
            assert(known[j as int] == out@[j as int]@);
            if same_text(out[j], kind) {
                seen = true;
            }
        }
        assert(seen == known.contains(kind@));
        if !seen {
            out.push(kind);
            assert(kind_texts(out@) =~= known.push(kind@));
        }
    }
    assert(anomalies@.take(anomalies@.len() as int) =~= anomalies@);
    out
}

fn details(anomalies: &Vec<Anomaly>, kind: &str) -> (out: Vec<Vec<char>>)
    ensures
        text::each_chars(out@) == details_of(anomalies@, kind@),
{
    let mut out: Vec<Vec<char>> = Vec::new();
    assert(text::each_chars(out@) =~= details_of(anomalies@.take(0), kind@));
    for i in 0..anomalies.len()
        invariant
            text::each_chars(out@) == details_of(anomalies@.take(i as int), kind@),
    {
        assert(anomalies@.take(i + 1).drop_last() =~= anomalies@.take(i as int));
        if same_text(anomalies[i].kind, kind) {
            let ghost before = text::each_chars(out@);
            let mut line = chars_of("  ");
            append_text(&mut line, &anomalies[i].detail);
            out.push(line);
            assert(text::each_chars(out@) =~= before.push(line@));
        }
    }
    assert(anomalies@.take(anomalies@.len() as int) =~= anomalies@);
    out
}

fn put_section(out: &mut Vec<String>, anomalies: &Vec<Anomaly>, kind: &str, limit: usize)
    ensures
        path::texts(final(out)@) == path::texts(old(out)@) + section(
            anomalies@,
            kind@,
            limit as int,
        ),
{
    let ghost start = path::texts(out@);
    let found = details(anomalies, kind);
    let n: usize = found.len();
    let ghost all = text::each_chars(found@);
    let ghost heading = seq![
        ""@,
        kind@ + "  ("@ + text::decimal_text(all.len()) + ")"@,
        explained(kind@),
    ];
    put_text(out, "");
    let mut line = chars_of(kind);
    append_text(&mut line, "  (");
    append_chars(&mut line, &decimal_chars(n as u64));
    append_text(&mut line, ")");
    put(out, &line);
    put_text(out, explain(kind));
    assert(path::texts(out@) =~= start + (heading + all.take(0)));
    let shown: usize = if n > limit {
        limit
    } else {
        n
    };
    for i in 0..shown
        invariant
            shown <= n,
            n == found@.len(),
            all == text::each_chars(found@),
            path::texts(out@) =~= start + (heading + all.take(i as int)),
    {
        put(out, &found[i]);
        assert(all.take(i + 1) =~= all.take(i as int).push(found@[i as int]@));
    }
    assert(all.take(n as int) =~= all);
    if n > limit {
        let mut more = chars_of("  … ");
        append_chars(&mut more, &decimal_chars((n - limit) as u64));
        append_text(&mut more, " more");
        put(out, &more);
    }
    assert(path::texts(out@) =~= start + section(anomalies@, kind@, limit as int));
}

/// What the library check prints: the problems by kind, in the order in which the
/// check reports them so that related kinds stay together.
pub fn doctor_lines(anomalies: &Vec<Anomaly>, kind: Option<String>, limit: usize) -> (out: Vec<
    String,
>)
    ensures
        path::texts(out@) == doctor_shown(anomalies@, text::opt_text(kind), limit as int),
{
    let mut out = no_lines();
    if anomalies.len() == 0 {
        put_text(&mut out, "No tagging problems found.");
        assert(path::texts(out@) =~= doctor_shown(
            anomalies@,
            text::opt_text(kind),
            limit as int,
        ));
        return out;
    }
    let ghost only = text::opt_text(kind);
    let kinds = kinds_of(anomalies);
    let ghost all = kind_texts(kinds@);
    assert(path::texts(out@) =~= sections(anomalies@, all.take(0), only, limit as int));
    for i in 0..kinds.len()
        invariant
            only == text::opt_text(kind),
            all == kind_texts(kinds@),
            path::texts(out@) == sections(anomalies@, all.take(i as int), only, limit as int),
    {
        assert(all.take(i + 1).drop_last() =~= all.take(i as int));
        assert(all.take(i + 1).last() == kinds@[i as int]@);
        let wanted = match &kind {
            Some(only) => same_text(only, kinds[i]),
            None => true,
        };
        if wanted {
            put_section(&mut out, anomalies, kinds[i], limit);
        }
    }
    assert(all.take(all.len() as int) =~= all);
    out
}

/// How many of an album's tracks are logged as heard.
pub open spec fn counted(tracks: usize, asked: Option<usize>) -> usize {
    match asked {
        Some(k) if k < tracks => k,
        _ => tracks,
    }
}

/// How many of an album's tracks are logged: as many as asked for, or all. An
/// album without tracks cannot be logged.
pub fn log_count(album_id: i64, tracks: usize, asked: Option<usize>) -> (r: Result<usize, String>)
    ensures
        match r {
            Ok(n) => tracks > 0 && n == counted(tracks, asked),
            Err(m) => tracks == 0 && m@ == "album "@ + text::int_text(album_id as int)
                + " has no tracks on disk"@,
        },
{
    if tracks == 0 {
        let mut out = chars_of("album ");
        append_chars(&mut out, &int_chars(album_id));
        append_text(&mut out, " has no tracks on disk");
        return Err(text_of(&out));
    }
    Ok(
        match asked {
            Some(k) if k < tracks => k,
            _ => tracks,
        },
    )
}

/// What is printed once a listen was logged.
pub fn log_line(count: usize, tracks: usize, finished: bool) -> (r: String)
    ensures
        r@ == "Logged "@ + text::decimal_text(count as nat) + " of "@ + text::decimal_text(
            tracks as nat,
        ) + " tracks — album play "@ + if finished {
            "counted"@
        } else {
            "not counted"@
        },
{
    let mut out = chars_of("Logged ");
    append_chars(&mut out, &decimal_chars(count as u64));
    append_text(&mut out, " of ");
    append_chars(&mut out, &decimal_chars(tracks as u64));
    append_text(&mut out, " tracks — album play ");
    append_text(
        &mut out,
        if finished {
            "counted"
        } else {
            "not counted"
        },
    );
    text_of(&out)
}

/// The albums to play: those that were given, or the whole library.
pub fn play_ids(all: bool, given: Vec<i64>, library: Vec<i64>) -> (r: Result<Vec<i64>, String>)
    ensures
        ({
            let ids = if all {
                library@
            } else {
                given@
            };
            match r {
                Ok(v) => ids.len() > 0 && v@ == ids,
                Err(m) => ids.len() == 0 && m@ == "nothing to play: give album IDs or --all"@,
            }
        }),
{
    let ids = if all {
        library
    } else {
        given
    };
    if ids.len() == 0 {
        Err("nothing to play: give album IDs or --all".to_owned())
    } else {
        Ok(ids)
    }
}

/// What the generator starts from when the clock cannot be read.
pub const FALLBACK_SEED: u64 = 0x9E37_79B9_7F4A_7C15;

/// The seed that a reading of the clock gives.
pub open spec fn shuffle_seed(clock: Option<u64>) -> u64 {
    match clock {
        Some(nanos) => nanos | 1,
        None => FALLBACK_SEED | 1,
    }
}

/// Fisher-Yates with the seed that a reading of the clock gives.
pub fn shuffle_by(ids: &mut Vec<i64>, clock: Option<u64>)
    ensures
        final(ids)@ == queue::dealt(
            old(ids)@,
            shuffle_seed(clock),
            0,
            old(ids)@.len() - 1,
        ).0,
        final(ids)@.to_multiset() == old(ids)@.to_multiset(),
{
    let seed: u64 = match clock {
        Some(nanos) => nanos | 1,
        None => FALLBACK_SEED | 1,
    };
    proof {
        queue::dealing_keeps_every_item(ids@, seed, 0, ids@.len() - 1);
    }
    deal(ids, seed, 0);
}

/// Fisher-Yates with a clock seed, so that a shuffle differs between runs.
pub fn shuffle_in_place(ids: &mut Vec<i64>)
    ensures
        exists|clock: Option<u64>|
            final(ids)@ == queue::dealt(
                old(ids)@,
                #[trigger] shuffle_seed(clock),
                0,
                old(ids)@.len() - 1,
            ).0,
        final(ids)@.to_multiset() == old(ids)@.to_multiset(),
{
    let clock = clock_nanos();
    shuffle_by(ids, clock);
}

/// An album read from the library for playing, with its tracks and its gain.
pub struct Loaded {
    pub album: AlbumRow,
    pub tracks: Vec<TrackRow>,
    pub gain: Option<Real>,
    pub peak: Option<Real>,
}

/// The albums that have something to play.
pub open spec fn playable(loaded: Seq<Loaded>) -> Seq<Loaded>
    decreases loaded.len(),
{
    if loaded.len() == 0 {
        Seq::empty()
    } else if loaded.last().tracks@.len() == 0 {
        playable(loaded.drop_last())
    } else {
        playable(loaded.drop_last()).push(loaded.last())
    }
}

/// What is printed on the albums that have nothing to play.
pub open spec fn skipped(loaded: Seq<Loaded>) -> Seq<Seq<char>>
    decreases loaded.len(),
{
    if loaded.len() == 0 {
        Seq::empty()
    } else if loaded.last().tracks@.len() == 0 {
        skipped(loaded.drop_last()).push(
            "skipping "@ + loaded.last().album.title@ + ": no playable tracks"@,
        )
    } else {
        skipped(loaded.drop_last())
    }
}

/// A queue album that stands for an album of the library.
pub open spec fn stands_for(q: QueuedAlbum, l: Loaded) -> bool {
    &&& q.id == l.album.id
    &&& q.title == l.album.title
    &&& q.artist == l.album.album_artist
    &&& q.album_gain_db == l.gain
    &&& q.album_peak == l.peak
    &&& q.tracks@.len() == l.tracks@.len()
    &&& forall|i: int|
        0 <= i < l.tracks@.len() ==> {
            let t = #[trigger] q.tracks@[i];
            &&& t.id == l.tracks@[i].id
            &&& t.source matches queue::Source::File(p) && p@ == path::path_of(l.tracks@[i].path@)
            &&& t.title == l.tracks@[i].title
            &&& t.disc_no == l.tracks@[i].disc_no
            &&& t.track_no == l.tracks@[i].track_no
            &&& t.duration_ms == l.tracks@[i].duration_ms
        }
}

/// The queue albums for what was read from the library, in order, and a line on
/// each album that is left out because it has no tracks.
pub fn line_up(loaded: &Vec<Loaded>) -> (r: (Vec<QueuedAlbum>, Vec<String>))
    ensures
        r.0@.len() == playable(loaded@).len(),
        forall|i: int| 0 <= i < r.0@.len() ==> stands_for(#[trigger] r.0@[i], playable(loaded@)[i]),
        path::texts(r.1@) == skipped(loaded@),
{
    let mut albums: Vec<QueuedAlbum> = Vec::new();
    let mut lines = no_lines();
    for i in 0..loaded.len()
        invariant
            albums@.len() == playable(loaded@.take(i as int)).len(),
            forall|k: int|
                0 <= k < albums@.len() ==> stands_for(
                    #[trigger] albums@[k],
                    playable(loaded@.take(i as int))[k],
                ),
            path::texts(lines@) == skipped(loaded@.take(i as int)),
    {
        assert(loaded@.take(i + 1).drop_last() =~= loaded@.take(i as int));
        let l = &loaded[i];
        if l.tracks.len() == 0 {
            let mut line = chars_of("skipping ");
            append_text(&mut line, &l.album.title);
            append_text(&mut line, ": no playable tracks");
            put(&mut lines, &line);
        } else {
            let album = album_from_library(&l.album, &l.tracks, l.gain, l.peak);
            assert(stands_for(album, *l));
            albums.push(album);
        }
    }
    assert(loaded@.take(loaded@.len() as int) =~= loaded@);
    (albums, lines)
}

/// The way of looping that an option asks for.
pub open spec fn repeat_named(mode: Seq<char>) -> Option<Repeat> {
    if mode == "album"@ {
        Some(Repeat::Album)
    } else if mode == "queue"@ {
        Some(Repeat::Queue)
    } else {
        None
    }
}

/// What the player is told first: how to go through the queue, then the first
/// album to play and the others to put behind it.
pub open spec fn opening(
    albums: Seq<QueuedAlbum>,
    shuffle: bool,
    repeat: Option<Repeat>,
) -> Seq<Command> {
    let first = if shuffle {
        seq![Command::SetShuffle(true)]
    } else {
        Seq::empty()
    };
    let second = match repeat {
        Some(r) => first.push(Command::SetRepeat(r)),
        None => first,
    };
    second + albums.map(
        |i: int, a: QueuedAlbum|
            if i == 0 {
                Command::PlayAlbum(a)
            } else {
                Command::Enqueue(a)
            },
    )
}

/// The commands that start playing some albums.
pub fn opening_commands(albums: Vec<QueuedAlbum>, shuffle: bool, repeat: Option<&str>) -> (r:
    Result<Vec<Command>, String>)
    ensures
        if albums@.len() == 0 {
            r matches Err(m) && m@ == "none of those albums have playable tracks"@
        } else {
            match repeat {
                None => r matches Ok(v) && v@ == opening(albums@, shuffle, None),
                Some(mode) => match repeat_named(mode@) {
                    Some(kind) => r matches Ok(v) && v@ == opening(albums@, shuffle, Some(kind)),
                    None => r matches Err(m) && m@ == "unknown repeat mode '"@ + mode@
                        + "' (album|queue)"@,
                },
            }
        },
{
    if albums.len() == 0 {
        return Err("none of those albums have playable tracks".to_owned());
    }
    let ghost all = albums@;
    let mut out: Vec<Command> = Vec::new();
    if shuffle {
        out.push(Command::SetShuffle(true));
    }
    let mut looped: Option<Repeat> = None;
    if let Some(mode) = repeat {
        if same_text(mode, "album") {
            out.push(Command::SetRepeat(Repeat::Album));
            looped = Some(Repeat::Album);
        } else if same_text(mode, "queue") {
            out.push(Command::SetRepeat(Repeat::Queue));
            looped = Some(Repeat::Queue);
        } else {
            let mut message = chars_of("unknown repeat mode '");
            append_text(&mut message, mode);
            append_text(&mut message, "' (album|queue)");
            return Err(text_of(&message));
        }
    }
    let ghost start = out@;
    let mut first = true;
    for album in it: albums.into_iter()
        invariant
            it.seq() == all,
            first == (it.index() == 0),
            out@.len() == start.len() + it.index(),
            forall|k: int| 0 <= k < start.len() ==> #[trigger] out@[k] == start[k],
            forall|k: int|
                start.len() <= k < out@.len() ==> #[trigger] out@[k] == if k == start.len() {
                    Command::PlayAlbum(all[k - start.len()])
                } else {
                    Command::Enqueue(all[k - start.len()])
                },
    {
        if first {
            out.push(Command::PlayAlbum(album));
        } else {
            out.push(Command::Enqueue(album));
        }
        first = false;
    }
    assert(out@ =~= opening(all, shuffle, looped));
    Ok(out)
}

/// The keys that control playback.
pub const CONTROLS: &'static str = "[enter] next track   [a] next album   [b] previous track   [B] previous album
[p] pause/resume     [s] shuffle      [q] quit";

/// What a line typed during playback asks for.
pub enum Control {
    Send(Command),
    ToggleShuffle,
    Quit,
    /// Not a command; what was typed.
    Unknown(String),
}

/// What a word typed during playback stands for.
pub open spec fn key_command(word: Seq<char>) -> Option<Command> {
    if word == ""@ || word == "n"@ {
        Some(Command::NextTrack)
    } else if word == "a"@ {
        Some(Command::NextAlbum)
    } else if word == "b"@ {
        Some(Command::PrevTrack)
    } else if word == "B"@ {
        Some(Command::PrevAlbum)
    } else if word == "p"@ {
        Some(Command::TogglePause)
    } else {
        None
    }
}

/// Read one line typed during playback.
pub fn read_control(line: &str) -> (r: Control)
    ensures
        ({
            let word = text::trimmed(line@);
            match key_command(word) {
                Some(command) => r == Control::Send(command),
                None => if word == "s"@ {
                    r is ToggleShuffle
                } else if word == "q"@ {
                    r is Quit
                } else {
                    r matches Control::Unknown(other) && other@ == word
                },
            }
        }),
{
    let word = text_of(&trim_of(&chars_of(line)));
    if same_text(&word, "") || same_text(&word, "n") {
        Control::Send(Command::NextTrack)
    } else if same_text(&word, "a") {
        Control::Send(Command::NextAlbum)
    } else if same_text(&word, "b") {
        Control::Send(Command::PrevTrack)
    } else if same_text(&word, "B") {
        Control::Send(Command::PrevAlbum)
    } else if same_text(&word, "p") {
        Control::Send(Command::TogglePause)
    } else if same_text(&word, "s") {
        Control::ToggleShuffle
    } else if same_text(&word, "q") {
        Control::Quit
    } else {
        Control::Unknown(word)
    }
}

/// What is printed for a word that is no command.
pub fn unknown_command(word: &str) -> (r: String)
    ensures
        r@ == "   unknown command '"@ + word@ + "'\n"@ + CONTROLS@,
{
    let mut out = chars_of("   unknown command '");
    append_text(&mut out, word);
    append_text(&mut out, "'\n");
    append_text(&mut out, CONTROLS);
    text_of(&out)
}

/// A line for the terminal: on playback, or on a problem.
#[derive(Debug, PartialEq)]
pub enum Line {
    Out(String),
    Problem(String),
}

/// A playback event as a human-readable line, where it has one.
pub fn report(event: &PlayerEvent) -> (r: Option<Line>)
    ensures
        match event {
            PlayerEvent::AlbumStarted { title, .. } => r matches Some(Line::Out(s)) && s@ == "\n▶ "@
                + title@,
            PlayerEvent::TrackStarted { title, .. } => r matches Some(Line::Out(s)) && s@ == "   "@
                + title@,
            PlayerEvent::QueueFinished => r matches Some(Line::Out(s)) && s@
                == "\nQueue finished."@,
            PlayerEvent::Error(message) => r matches Some(Line::Problem(s)) && s@ == "   ! "@
                + message@,
            PlayerEvent::TrackFinished { .. } | PlayerEvent::StateChanged(_) => r is None,
        },
{
    match event {
        PlayerEvent::AlbumStarted { title, .. } => {
            let mut out = chars_of("\n▶ ");
            append_text(&mut out, title);
            Some(Line::Out(text_of(&out)))
        },
        PlayerEvent::TrackStarted { title, .. } => {
            let mut out = chars_of("   ");
            append_text(&mut out, title);
            Some(Line::Out(text_of(&out)))
        },
        PlayerEvent::QueueFinished => Some(Line::Out("\nQueue finished.".to_owned())),
        PlayerEvent::Error(message) => {
            let mut out = chars_of("   ! ");
            append_text(&mut out, message);
            Some(Line::Problem(text_of(&out)))
        },
        PlayerEvent::TrackFinished { .. } | PlayerEvent::StateChanged(_) => None,
    }
}

/// How many problems a summary shows.
pub const SHOWN_PROBLEMS: usize = 10;

/// The first problems of a run, a line each.
pub open spec fn problems_shown(errors: Seq<(String, String)>) -> Seq<Seq<char>> {
    let all = errors.map_values(|e: (String, String)| "  "@ + e.0@ + ": "@ + e.1@);
    if all.len() <= SHOWN_PROBLEMS {
        all
    } else {
        all.take(SHOWN_PROBLEMS as int)
    }
}

fn put_problems(out: &mut Vec<String>, errors: &Vec<(String, String)>)
    ensures
        path::texts(final(out)@) == path::texts(old(out)@) + problems_shown(errors@),
{
    let ghost start = path::texts(out@);
    let ghost all = errors@.map_values(|e: (String, String)| "  "@ + e.0@ + ": "@ + e.1@);
    let n: usize = if errors.len() <= SHOWN_PROBLEMS {
        errors.len()
    } else {
        SHOWN_PROBLEMS
    };
    assert(start + all.take(0) =~= start);
    for i in 0..n
        invariant
            n <= errors@.len(),
            all == errors@.map_values(|e: (String, String)| "  "@ + e.0@ + ": "@ + e.1@),
            path::texts(out@) =~= start + all.take(i as int),
    {
        let mut line = chars_of("  ");
        append_text(&mut line, &errors[i].0);
        append_text(&mut line, ": ");
        append_text(&mut line, &errors[i].1);
        assert(line@ == all[i as int]);
        put(out, &line);
        assert(all.take(i + 1) =~= all.take(i as int).push(line@));
    }
    assert(all.take(all.len() as int) =~= all);
}

/// What measuring loudness prints at the end. How long it took is written outside.
pub fn replaygain_lines(r: &replaygain::Report, seconds: &str) -> (out: Vec<String>)
    ensures
        path::texts(out@) == seq![
            text::decimal_text(r.considered as nat) + " albums considered, "@ + text::decimal_text(
                r.measured as nat,
            ) + " measured, "@ + text::decimal_text(r.silent as nat) + " silent, "@
                + text::decimal_text(r.failed as nat) + " failed in "@ + seconds@ + "s"@,
        ] + problems_shown(r.errors@),
{
    let mut out = no_lines();
    let mut line = decimal_chars(r.considered as u64);
    append_text(&mut line, " albums considered, ");
    append_chars(&mut line, &decimal_chars(r.measured as u64));
    append_text(&mut line, " measured, ");
    append_chars(&mut line, &decimal_chars(r.silent as u64));
    append_text(&mut line, " silent, ");
    append_chars(&mut line, &decimal_chars(r.failed as u64));
    append_text(&mut line, " failed in ");
    append_text(&mut line, seconds);
    append_text(&mut line, "s");
    put(&mut out, &line);
    assert(path::texts(out@) =~= seq![line@]);
    put_problems(&mut out, &r.errors);
    out
}

/// What fetching covers prints at the end. How long it took is written outside.
pub fn artwork_lines(r: &artwork::Report, seconds: &str) -> (out: Vec<String>)
    ensures
        path::texts(out@) == seq![
            text::decimal_text(r.considered as nat) + " albums considered, "@ + text::decimal_text(
                r.fetched as nat,
            ) + " covers fetched, "@ + text::decimal_text(r.not_found as nat) + " not found, "@
                + text::decimal_text(r.failed as nat) + " failed in "@ + seconds@ + "s"@,
        ] + problems_shown(r.errors@),
{
    let mut out = no_lines();
    let mut line = decimal_chars(r.considered as u64);
    append_text(&mut line, " albums considered, ");
    append_chars(&mut line, &decimal_chars(r.fetched as u64));
    append_text(&mut line, " covers fetched, ");
    append_chars(&mut line, &decimal_chars(r.not_found as u64));
    append_text(&mut line, " not found, ");
    append_chars(&mut line, &decimal_chars(r.failed as u64));
    append_text(&mut line, " failed in ");
    append_text(&mut line, seconds);
    append_text(&mut line, "s");
    put(&mut out, &line);
    assert(path::texts(out@) =~= seq![line@]);
    put_problems(&mut out, &r.errors);
    out
}

/// Seconds in a day.
pub const DAY: i64 = 86_400;

/// The time so many days before another, in seconds.
pub open spec fn days_before(now: i64, days: i64) -> int {
    now - days * DAY
}

/// The time since which plays are counted, when only the last days are asked for.
pub fn since(now: i64, days: Option<i64>) -> (r: Option<i64>)
    requires
        days matches Some(d) ==> i64::MIN <= d * DAY <= i64::MAX && i64::MIN <= now - d * DAY
            <= i64::MAX,
    ensures
        match days {
            Some(d) => r matches Some(t) && t == days_before(now, d),
            None => r is None,
        },
{
    match days {
        Some(d) => Some(now - d * DAY),
        None => None,
    }
}

/// How the days that plays are counted in are shown.
pub open spec fn window(days: Option<i64>) -> Seq<char> {
    match days {
        Some(d) => " (last "@ + text::int_text(d as int) + " days)"@,
        None => Seq::empty(),
    }
}

fn window_chars(days: Option<i64>) -> (out: Vec<char>)
    ensures
        out@ == window(days),
{
    match days {
        Some(d) => {
            let mut out = chars_of(" (last ");
            append_chars(&mut out, &int_chars(d));
            append_text(&mut out, " days)");
            out
        },
        None => {
            let out: Vec<char> = Vec::new();
            assert(out@ =~= Seq::<char>::empty());
            out
        },
    }
}

/// One line of the most played albums: how often, and which.
pub open spec fn top_album(a: (String, String, i64)) -> Seq<char> {
    "  "@ + text::flush_right(text::int_text(a.2 as int), 4) + "  "@ + a.0@ + " — "@ + a.1@
}

/// One line of the most played artists: albums, tracks, and who.
pub open spec fn top_artist(a: (String, i64, i64)) -> Seq<char> {
    "  "@ + text::flush_right(text::int_text(a.1 as int), 4) + " albums, "@ + text::flush_right(
        text::int_text(a.2 as int),
        5,
    ) + " tracks  "@ + a.0@
}

/// A list of the most played, or that there is nothing in it.
pub open spec fn top_list(lines: Seq<Seq<char>>) -> Seq<Seq<char>> {
    if lines.len() == 0 {
        seq!["  nothing played yet"@]
    } else {
        lines
    }
}

fn put_top_albums(out: &mut Vec<String>, albums: &Vec<(String, String, i64)>)
    ensures
        path::texts(final(out)@) == path::texts(old(out)@) + top_list(
            albums@.map_values(|a: (String, String, i64)| top_album(a)),
        ),
{
    let ghost start = path::texts(out@);
    let ghost all = albums@.map_values(|a: (String, String, i64)| top_album(a));
    if albums.len() == 0 {
        put_text(out, "  nothing played yet");
        assert(path::texts(out@) =~= start + top_list(all));
        return;
    }
    assert(start + all.take(0) =~= start);
    for i in 0..albums.len()
        invariant
            all == albums@.map_values(|a: (String, String, i64)| top_album(a)),
            path::texts(out@) =~= start + all.take(i as int),
    {
        let mut line = chars_of("  ");
        append_chars(&mut line, &right_of(&int_chars(albums[i].2), 4));
        append_text(&mut line, "  ");
        append_text(&mut line, &albums[i].0);
        append_text(&mut line, " — ");
        append_text(&mut line, &albums[i].1);
        assert(line@ == all[i as int]);
        put(out, &line);
        assert(all.take(i + 1) =~= all.take(i as int).push(line@));
    }
    assert(all.take(all.len() as int) =~= all);
}

fn put_top_artists(out: &mut Vec<String>, artists: &Vec<(String, i64, i64)>)
    ensures
        path::texts(final(out)@) == path::texts(old(out)@) + top_list(
            artists@.map_values(|a: (String, i64, i64)| top_artist(a)),
        ),
{
    let ghost start = path::texts(out@);
    let ghost all = artists@.map_values(|a: (String, i64, i64)| top_artist(a));
    if artists.len() == 0 {
        put_text(out, "  nothing played yet");
        assert(path::texts(out@) =~= start + top_list(all));
        return;
    }
    assert(start + all.take(0) =~= start);
    for i in 0..artists.len()
        invariant
            all == artists@.map_values(|a: (String, i64, i64)| top_artist(a)),
            path::texts(out@) =~= start + all.take(i as int),
    {
        let mut line = chars_of("  ");
        append_chars(&mut line, &right_of(&int_chars(artists[i].1), 4));
        append_text(&mut line, " albums, ");
        append_chars(&mut line, &right_of(&int_chars(artists[i].2), 5));
        append_text(&mut line, " tracks  ");
        append_text(&mut line, &artists[i].0);
        assert(line@ == all[i as int]);
        put(out, &line);
        assert(all.take(i + 1) =~= all.take(i as int).push(line@));
    }
    assert(all.take(all.len() as int) =~= all);
}

/// What the list of the most played prints.
pub fn top_lines(
    albums: &Vec<(String, String, i64)>,
    artists: &Vec<(String, i64, i64)>,
    days: Option<i64>,
) -> (out: Vec<String>)
    ensures
        path::texts(out@) == seq!["Top albums"@ + window(days)] + top_list(
            albums@.map_values(|a: (String, String, i64)| top_album(a)),
        ) + seq![""@, "Top artists"@ + window(days)] + top_list(
            artists@.map_values(|a: (String, i64, i64)| top_artist(a)),
        ),
{
    let mut out = no_lines();
    let mut line = chars_of("Top albums");
    append_chars(&mut line, &window_chars(days));
    put(&mut out, &line);
    assert(path::texts(out@) =~= seq![line@]);
    put_top_albums(&mut out, albums);
    let ghost before = path::texts(out@);
    put_text(&mut out, "");
    let mut line = chars_of("Top artists");
    append_chars(&mut line, &window_chars(days));
    put(&mut out, &line);
    assert(path::texts(out@) =~= before + seq![""@, line@]);
    put_top_artists(&mut out, artists);
    out
}

} // verus!
