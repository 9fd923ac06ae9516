//! What the command-line front end promises: durations as people write them,
//! columns that line up, every album and every problem on a line of its own, and
//! keys that do what they say.

use vstd::prelude::*;

use crate::cli;
use crate::cli::Loaded;
use crate::desktop;
use crate::model::{AlbumRow, ArtistRow, LibraryStats, TrackRow};
use crate::player::Command;
use crate::query::Anomaly;
use crate::query_laws::ends_in;
use crate::queue::{QueuedAlbum, Repeat};
use crate::scan::ScanReport;
use crate::text;

verus! {

/// A time of so many hours, minutes and seconds is written with them, the hours
/// only where there are any; fractions of a second are dropped.
pub proof fn durations_are_written_as_clocks(h: int, m: int, s: int, ms: int)
    requires
        0 <= h,
        0 <= m < 60,
        0 <= s < 60,
        0 <= ms < 1000,
    ensures
        ({
            let t = cli::duration_text(((h * 60 + m) * 60 + s) * 1000 + ms);
            &&& h > 0 ==> t == text::int_text(h) + ":"@ + cli::two_places(m) + ":"@
                + cli::two_places(s)
            &&& h == 0 ==> t == text::int_text(m) + ":"@ + cli::two_places(s)
        }),
{
    let seconds = (h * 60 + m) * 60 + s;
    assert((seconds * 1000 + ms) / 1000 == seconds) by (nonlinear_arith)
        requires
            0 <= ms < 1000,
            0 <= seconds,
    ;
    assert(0 <= m * 60 + s < 3600);
    assert(seconds == h * 3600 + (m * 60 + s));
    assert(seconds / 3600 == h) by (nonlinear_arith)
        requires
            seconds == h * 3600 + (m * 60 + s),
            0 <= m * 60 + s < 3600,
            0 <= h,
    ;
    assert((m * 60 + s) / 60 == m) by (nonlinear_arith)
        requires
            0 <= s < 60,
            0 <= m,
    ;
    assert(seconds / 60 == h * 60 + m) by (nonlinear_arith)
        requires
            seconds == (h * 60 + m) * 60 + s,
            0 <= s < 60,
            0 <= h * 60 + m,
    ;
}

/// Minutes and seconds take two digits.
pub proof fn two_places_are_two_digits(n: int)
    requires
        0 <= n < 100,
    ensures
        cli::two_places(n) == seq![text::digit_char(n / 10), text::digit_char(n % 10)],
{
    if n < 10 {
        assert(cli::two_places(n) =~= seq![text::digit_char(0), text::digit_char(n)]);
    } else {
        let tens = (n / 10) as nat;
        assert(text::decimal_text(tens) == seq![text::digit_char(tens as int)]);
        assert(text::decimal_text(n as nat) =~= seq![
            text::digit_char(n / 10),
            text::digit_char(n % 10),
        ]);
    }
}

/// What is set flush left takes exactly its width, cut or filled up with spaces
/// behind; what is set flush right takes at least its width, filled up in front
/// and never cut.
pub proof fn columns_take_their_width(s: Seq<char>, width: int)
    requires
        0 <= width,
    ensures
        text::flush_left(s, width).len() == width,
        s.len() <= width ==> s.is_prefix_of(text::flush_left(s, width)),
        s.len() > width ==> text::flush_left(s, width).is_prefix_of(s),
        forall|i: int| s.len() <= i < width ==> #[trigger] text::flush_left(s, width)[i] == ' ',
        text::flush_right(s, width).len() == if s.len() < width {
            width
        } else {
            s.len() as int
        },
        ends_in(text::flush_right(s, width), s),
        forall|i: int|
            0 <= i < width - s.len() ==> #[trigger] text::flush_right(s, width)[i] == ' ',
{
    lemma_spaces(width - s.len());
    let left = text::flush_left(s, width);
    let right = text::flush_right(s, width);
    assert(right.skip(right.len() - s.len()) =~= s);
    if s.len() <= width {
        assert(left.take(s.len() as int) =~= s);
        assert forall|i: int| s.len() <= i < width implies #[trigger] left[i] == ' ' by {
            assert(text::spaces(width - s.len())[i - s.len()] == ' ');
        }
    }
}

proof fn lemma_spaces(n: int)
    ensures
        text::spaces(n).len() == if n > 0 {
            n
        } else {
            0
        },
        forall|i: int| 0 <= i < n ==> #[trigger] text::spaces(n)[i] == ' ',
    decreases n,
{
    if n > 0 {
        lemma_spaces(n - 1);
    }
}

/// An album's line keeps to its columns: the identifier, the year, the artist and
/// the title stand where the heading has them, whatever the album.
pub proof fn album_lines_keep_to_columns(a: AlbumRow)
    requires
        0 <= a.id < 1_000_000,
        a.year matches Some(y) ==> 1000 <= y <= 9999,
    ensures
        ({
            let line = cli::album_line(a);
            &&& line.len() >= 84
            &&& line.take(6) == text::flush_right(text::int_text(a.id as int), 6)
            &&& a.year matches Some(y) ==> line.subrange(8, 12) == text::int_text(y as int)
            &&& a.year is None ==> line.subrange(8, 12) == "----"@
            &&& line.subrange(14, 42) == text::flush_left(a.album_artist@, 28)
            &&& line.subrange(44, 84) == text::flush_left(a.title@, 40)
        }),
{
    reveal_strlit("  ");
    reveal_strlit("----");
    let id = text::flush_right(text::int_text(a.id as int), 6);
    lemma_six_digits(a.id as nat);
    columns_take_their_width(text::int_text(a.id as int), 6);
    let year = match a.year {
        Some(y) => text::int_text(y as int),
        None => "----"@,
    };
    if a.year is Some {
        let y = a.year.unwrap() as nat;
        assert(year.len() == 4) by {
            assert(text::decimal_text(y / 1000).len() == 1);
            assert(y / 1000 == (y / 100) / 10);
            assert(text::decimal_text(y / 100).len() == 2);
            assert(y / 100 == (y / 10) / 10);
            assert(text::decimal_text(y / 10).len() == 3);
        }
    }
    let artist = text::flush_left(a.album_artist@, 28);
    let title = text::flush_left(a.title@, 40);
    columns_take_their_width(a.album_artist@, 28);
    columns_take_their_width(a.title@, 40);
    let rest = "  "@ + text::flush_right(text::int_text(a.track_count as int), 2) + "tr "@
        + text::flush_right(cli::duration_text(a.duration_ms as int), 6) + cli::only_above(
        a.disc_count as int,
        1,
        " ["@,
        "CD]"@,
    ) + cli::only_above(a.play_count as int, 0, "  ▸"@, ""@);
    let line = cli::album_line(a);
    let front = id + "  "@ + year + "  "@ + artist + "  "@ + title;
    assert(front.len() == 84);
    assert(line =~= front + rest);
    assert(line.take(6) =~= id);
    assert(line.subrange(8, 12) =~= year);
    assert(line.subrange(14, 42) =~= artist);
    assert(line.subrange(44, 84) =~= title);
}

proof fn lemma_six_digits(n: nat)
    requires
        n < 1_000_000,
    ensures
        text::decimal_text(n).len() <= 6,
{
    reveal_with_fuel(text::decimal_text, 6);
}

/// A listing has a line for every album, in order, then a blank and the count.
pub proof fn every_album_has_a_line(albums: Seq<AlbumRow>, i: int)
    requires
        0 <= i < albums.len(),
    ensures
        cli::albums_shown(albums).len() == albums.len() + 2,
        cli::albums_shown(albums)[i] == cli::album_line(albums[i]),
        text::decimal_text(albums.len()).is_prefix_of(cli::albums_shown(albums).last()),
{
    let n = text::decimal_text(albums.len());
    let last = n + " albums"@;
    assert(last.take(n.len() as int) =~= n);
}

/// A listing of artists has a heading and a line for every artist, in order: its
/// name first, and then how many albums it has and how often they were played.
pub proof fn every_artist_has_a_line(artists: Seq<ArtistRow>, i: int)
    requires
        0 <= i < artists.len(),
    ensures
        cli::artists_shown(artists).len() == artists.len() + 1,
        cli::artists_shown(artists)[i + 1] == cli::artist_line(artists[i]),
        ({
            let line = cli::artist_line(artists[i]);
            &&& line.take(40) == text::flush_left(artists[i].name@, 40)
            &&& ends_in(line, text::flush_right(text::int_text(artists[i].track_plays as int), 12))
            &&& ends_in(
                line.take(
                    line.len() - text::flush_right(
                        text::int_text(artists[i].track_plays as int),
                        12,
                    ).len() - 1,
                ),
                text::flush_right(text::int_text(artists[i].album_plays as int), 12),
            )
        }),
{
    reveal_strlit(" ");
    let a = artists[i];
    let name = text::flush_left(a.name@, 40);
    columns_take_their_width(a.name@, 40);
    let albums = text::flush_right(text::int_text(a.album_count as int), 7);
    let plays = text::flush_right(text::int_text(a.album_plays as int), 12);
    let heard = text::flush_right(text::int_text(a.track_plays as int), 12);
    let line = cli::artist_line(a);
    assert(line.take(40) =~= name);
    assert(line.skip(line.len() - heard.len()) =~= heard);
    let front = line.take(line.len() - heard.len() - 1);
    assert(front =~= name + " "@ + albums + " "@ + plays);
    assert(front.skip(front.len() - plays.len()) =~= plays);
}

/// The tracks of one disc are listed one to a line; where there are several discs
/// each disc is announced before its first track.
pub proof fn discs_are_announced(tracks: Seq<TrackRow>, t: TrackRow)
    requires
        tracks.len() > 0,
    ensures
        ({
            let before = cli::tracks_shown(tracks, true);
            let after = cli::tracks_shown(tracks.push(t), true);
            &&& t.disc_no == tracks.last().disc_no ==> after == before.push(cli::track_line(t))
            &&& t.disc_no != tracks.last().disc_no ==> after == before.push(
                "  Disc "@ + text::int_text(t.disc_no as int),
            ).push(cli::track_line(t))
        }),
        cli::tracks_shown(tracks.push(t), false) == cli::tracks_shown(tracks, false).push(
            cli::track_line(t),
        ),
        t.disc_no != 0 ==> cli::tracks_shown(seq![t], true) == seq![
            "  Disc "@ + text::int_text(t.disc_no as int),
            cli::track_line(t),
        ],
        cli::tracks_shown(seq![t], false) == seq![cli::track_line(t)],
{
    let all = tracks.push(t);
    assert(all.drop_last() =~= tracks);
    assert(all[all.len() - 2] == tracks.last());
    assert(seq![t].drop_last() =~= Seq::empty());
    let none = cli::tracks_shown(seq![t].drop_last(), true);
    assert(none =~= Seq::empty());
    assert(cli::tracks_shown(seq![t].drop_last(), false) =~= Seq::empty());
    assert(cli::tracks_shown(seq![t], false) =~= seq![cli::track_line(t)]);
    if t.disc_no != 0 {
        assert(cli::tracks_shown(seq![t], true) =~= seq![
            "  Disc "@ + text::int_text(t.disc_no as int),
            cli::track_line(t),
        ]);
    }
}

/// The statistics give each figure on its own line.
pub proof fn figures_stand_on_their_lines(s: LibraryStats, with_art: int, with_gain: int)
    ensures
        ({
            let lines = cli::stats_shown(s, with_art, with_gain);
            &&& ends_in(lines[0], text::int_text(s.albums as int))
            &&& ends_in(lines[1], text::int_text(s.compilations as int))
            &&& ends_in(lines[2], text::int_text(s.artists as int))
            &&& ends_in(lines[3], text::int_text(s.tracks as int))
            &&& ends_in(lines[4], cli::duration_text(s.total_duration_ms as int))
            &&& ends_in(lines[5], text::int_text(s.album_plays as int))
            &&& ends_in(lines[6], text::int_text(s.track_plays as int))
            &&& lines[8] == "Cover art      "@ + text::int_text(with_art) + " of "@
                + text::int_text(s.albums as int) + " albums"@
            &&& lines[9] == "ReplayGain     "@ + text::int_text(with_gain) + " of "@
                + text::int_text(s.albums as int) + " albums"@
            &&& lines.len() > 10 <==> s.missing_albums > 0 || s.missing_tracks > 0
        }),
{
    lemma_ends("Albums         "@, text::int_text(s.albums as int));
    lemma_ends("  compilations "@, text::int_text(s.compilations as int));
    lemma_ends("Artists        "@, text::int_text(s.artists as int));
    lemma_ends("Tracks         "@, text::int_text(s.tracks as int));
    lemma_ends("Total time     "@, cli::duration_text(s.total_duration_ms as int));
    lemma_ends("Album plays    "@, text::int_text(s.album_plays as int));
    lemma_ends("Track plays    "@, text::int_text(s.track_plays as int));
}

proof fn lemma_ends(a: Seq<char>, b: Seq<char>)
    ensures
        ends_in(a + b, b),
{
    assert((a + b).skip((a + b).len() - b.len()) =~= b);
}

/// Unreadable files are listed one to a line: all of them where there are five or
/// fewer or all are asked for, else the first five and a hint.
pub proof fn unreadable_files_are_listed(r: ScanReport, verbose: bool, i: int)
    requires
        r.files_failed > 0,
        0 <= i < r.errors@.len(),
    ensures
        verbose || r.errors@.len() <= 5 ==> {
            &&& cli::unreadable(r, verbose).len() == r.errors@.len() + 2
            &&& cli::unreadable(r, verbose)[i + 2] == cli::error_line(r.errors@[i])
        },
        !verbose && r.errors@.len() > 5 ==> {
            &&& cli::unreadable(r, verbose).len() == 8
            &&& i < 5 ==> cli::unreadable(r, verbose)[i + 2] == cli::error_line(r.errors@[i])
        },
        ends_in(cli::error_line(r.errors@[i]), r.errors@[i].1@),
{
    let e = r.errors@[i];
    lemma_ends("  "@ + e.0@.text() + ": "@, e.1@);
}

/// The problems of a kind are listed in order, as many as the limit allows, with
/// the number of all in the heading and of those left out below.
pub proof fn problems_are_listed_by_kind(
    a: Seq<Anomaly>,
    b: Seq<Anomaly>,
    one: Anomaly,
    kind: Seq<char>,
    limit: int,
)
    requires
        0 <= limit,
    ensures
        cli::details_of(a + b, kind) == cli::details_of(a, kind) + cli::details_of(b, kind),
        one.kind@ == kind ==> cli::details_of(seq![one], kind) == seq!["  "@ + one.detail@],
        one.kind@ != kind ==> cli::details_of(seq![one], kind).len() == 0,
        ({
            let all = cli::details_of(a, kind);
            let lines = cli::section(a, kind, limit);
            &&& lines[1] == kind + "  ("@ + text::decimal_text(all.len()) + ")"@
            &&& lines[2] == cli::explained(kind)
            &&& all.len() <= limit ==> lines.len() == all.len() + 3 && lines.skip(3) == all
            &&& all.len() > limit ==> {
                &&& lines.len() == limit + 4
                &&& lines.subrange(3, 3 + limit) == all.take(limit)
                &&& lines.last() == "  … "@ + text::decimal_text((all.len() - limit) as nat)
                    + " more"@
            }
        }),
    decreases b.len(),
{
    let all = cli::details_of(a, kind);
    let lines = cli::section(a, kind, limit);
    if all.len() <= limit {
        assert(lines.skip(3) =~= all);
    } else {
        assert(lines.subrange(3, 3 + limit) =~= all.take(limit));
    }
    assert(seq![one].drop_last() =~= Seq::empty());
    assert(cli::details_of(seq![one].drop_last(), kind) =~= Seq::empty());
    if one.kind@ == kind {
        assert(cli::details_of(seq![one], kind) =~= seq!["  "@ + one.detail@]);
    }
    if b.len() == 0 {
        assert(a + b =~= a);
        assert(cli::details_of(a, kind) + cli::details_of(b, kind) =~= cli::details_of(a, kind));
    } else {
        problems_are_listed_by_kind(a, b.drop_last(), one, kind, limit);
        assert((a + b).drop_last() =~= a + b.drop_last());
        assert((a + b).last() == b.last());
        assert(cli::details_of(a + b, kind) =~= cli::details_of(a, kind) + cli::details_of(b, kind));
    }
}

/// Every kind has its section, in order, unless one kind is asked for: that has its
/// own and no other.
pub proof fn one_kind_can_be_asked_for(
    anomalies: Seq<Anomaly>,
    kinds: Seq<Seq<char>>,
    kind: Seq<char>,
    only: Seq<char>,
    limit: int,
)
    ensures
        cli::sections(anomalies, kinds.push(kind), None, limit) == cli::sections(
            anomalies,
            kinds,
            None,
            limit,
        ) + cli::section(anomalies, kind, limit),
        !kinds.contains(only) ==> cli::sections(anomalies, kinds, Some(only), limit).len() == 0,
        !kinds.contains(only) ==> cli::sections(anomalies, kinds.push(only), Some(only), limit)
            == cli::section(anomalies, only, limit),
    decreases kinds.len(),
{
    assert(kinds.push(kind).drop_last() =~= kinds);
    assert(kinds.push(only).drop_last() =~= kinds);
    if !kinds.contains(only) {
        if kinds.len() > 0 {
            let front = kinds.drop_last();
            assert(kinds[kinds.len() - 1] == kinds.last());
            assert(!front.contains(only)) by {
                if front.contains(only) {
                    let i = choose|i: int| 0 <= i < front.len() && front[i] == only;
                    assert(kinds[i] == only);
                }
            }
            one_kind_can_be_asked_for(anomalies, front, kind, only, limit);
        }
        assert(cli::sections(anomalies, kinds, Some(only), limit) =~= Seq::empty());
        assert(Seq::<Seq<char>>::empty() + cli::section(anomalies, only, limit) =~= cli::section(
            anomalies,
            only,
            limit,
        ));
    }
}

/// Every album is either lined up or, without a playable track, named as skipped;
/// both in order.
pub proof fn albums_without_tracks_are_skipped(a: Seq<Loaded>, b: Seq<Loaded>, one: Loaded)
    ensures
        cli::playable(a + b) == cli::playable(a) + cli::playable(b),
        cli::skipped(a + b) == cli::skipped(a) + cli::skipped(b),
        one.tracks@.len() > 0 ==> cli::playable(seq![one]) == seq![one] && cli::skipped(
            seq![one],
        ).len() == 0,
        one.tracks@.len() == 0 ==> cli::playable(seq![one]).len() == 0 && cli::skipped(seq![one])
            == seq!["skipping "@ + one.album.title@ + ": no playable tracks"@],
    decreases b.len(),
{
    assert(seq![one].drop_last() =~= Seq::empty());
    assert(cli::playable(seq![one].drop_last()) =~= Seq::empty());
    assert(cli::skipped(seq![one].drop_last()) =~= Seq::empty());
    if one.tracks@.len() > 0 {
        assert(cli::playable(seq![one]) =~= seq![one]);
    } else {
        assert(cli::skipped(seq![one]) =~= seq![
            "skipping "@ + one.album.title@ + ": no playable tracks"@,
        ]);
    }
    if b.len() == 0 {
        assert(a + b =~= a);
        assert(cli::playable(a) + cli::playable(b) =~= cli::playable(a));
        assert(cli::skipped(a) + cli::skipped(b) =~= cli::skipped(a));
    } else {
        albums_without_tracks_are_skipped(a, b.drop_last(), one);
        assert((a + b).drop_last() =~= a + b.drop_last());
        assert((a + b).last() == b.last());
        assert(cli::playable(a + b) =~= cli::playable(a) + cli::playable(b));
        assert(cli::skipped(a + b) =~= cli::skipped(a) + cli::skipped(b));
    }
}

/// Playback opens with the settings that were asked for; then the first album
/// plays and the others are queued behind it, in order.
pub proof fn the_first_album_opens(
    albums: Seq<QueuedAlbum>,
    shuffle: bool,
    repeat: Option<Repeat>,
    i: int,
)
    requires
        0 < i < albums.len(),
    ensures
        ({
            let commands = cli::opening(albums, shuffle, repeat);
            let settings = commands.len() - albums.len();
            &&& settings == (if shuffle {
                1int
            } else {
                0
            }) + (if repeat is Some {
                1int
            } else {
                0
            })
            &&& commands[settings] == Command::PlayAlbum(albums[0])
            &&& commands[settings + i] == Command::Enqueue(albums[i])
            &&& shuffle ==> commands[0] == Command::SetShuffle(true)
            &&& repeat matches Some(r) ==> commands[settings - 1] == Command::SetRepeat(r)
        }),
{
}

/// The ways of looping that can be asked for go by the names they are shown under.
pub proof fn repeat_options_go_by_their_names(mode: Seq<char>, r: Repeat)
    ensures
        cli::repeat_named(mode) == Some(r) <==> mode == desktop::repeat_text(r) && !(r is Off),
{
    reveal_strlit("album");
    reveal_strlit("queue");
    reveal_strlit("off");
    assert("album"@[0] != "queue"@[0]);
}

/// Enter and `n` go to the next track and `b` back, `a` to the next album and `B`
/// back, `p` pauses and resumes; nothing else is a command to the player.
pub proof fn keys_do_what_they_say(word: Seq<char>)
    ensures
        cli::key_command(word) == Some(Command::NextTrack) <==> word.len() == 0 || word == seq!['n'],
        cli::key_command(word) == Some(Command::PrevTrack) <==> word == seq!['b'],
        cli::key_command(word) == Some(Command::NextAlbum) <==> word == seq!['a'],
        cli::key_command(word) == Some(Command::PrevAlbum) <==> word == seq!['B'],
        cli::key_command(word) == Some(Command::TogglePause) <==> word == seq!['p'],
        cli::key_command(word) is Some ==> word.len() <= 1,
{
    reveal_strlit("");
    reveal_strlit("n");
    reveal_strlit("a");
    reveal_strlit("b");
    reveal_strlit("B");
    reveal_strlit("p");
    assert("n"@ =~= seq!['n']);
    assert("a"@ =~= seq!['a']);
    assert("b"@ =~= seq!['b']);
    assert("B"@ =~= seq!['B']);
    assert("p"@ =~= seq!['p']);
    assert(word.len() == 0 ==> word =~= ""@);
    assert(seq!['n'][0] != seq!['a'][0]);
    if word.len() == 1 {
        assert(word =~= seq![word[0]]);
        assert(seq!['n'][0] == 'n' && seq!['a'][0] == 'a' && seq!['b'][0] == 'b' && seq!['B'][0]
            == 'B' && seq!['p'][0] == 'p');
    }
}

/// At most ten problems of a run are shown, the first ones, each with its reason.
pub proof fn ten_problems_are_shown(errors: Seq<(String, String)>, i: int)
    requires
        0 <= i < errors.len(),
    ensures
        cli::problems_shown(errors).len() == if errors.len() < 10 {
            errors.len()
        } else {
            10
        },
        i < 10 ==> cli::problems_shown(errors)[i] == "  "@ + errors[i].0@ + ": "@ + errors[i].1@,
{
}

/// A day has twenty-four hours, and so many days are so many times as long.
pub proof fn days_are_counted_back(now: i64, days: i64, more: i64)
    requires
        i64::MIN <= days + more <= i64::MAX,
    ensures
        cli::days_before(now, 0) == now,
        cli::days_before(now, 1) == now - 24 * 60 * 60,
        cli::days_before(now, (days + more) as i64) == cli::days_before(now, days) - (now
            - cli::days_before(now, more)),
{
    assert((days + more) * 86_400 == days * 86_400 + more * 86_400) by (nonlinear_arith);
}

/// As many tracks are logged as asked for, or all of them.
pub proof fn no_more_tracks_are_logged_than_there_are(tracks: usize, n: usize)
    ensures
        cli::counted(tracks, None) == tracks,
        n <= tracks ==> cli::counted(tracks, Some(n)) == n,
        n > tracks ==> cli::counted(tracks, Some(n)) == tracks,
{
}

/// Seeds are odd, and otherwise what the clock says.
pub proof fn seeds_are_odd(nanos: u64)
    ensures
        cli::shuffle_seed(Some(nanos)) % 2 == 1,
        cli::shuffle_seed(Some(nanos)) == nanos || cli::shuffle_seed(Some(nanos)) == nanos + 1,
        cli::shuffle_seed(None) == 0x9E37_79B9_7F4A_7C15u64,
{
    assert((nanos | 1) % 2 == 1 && (nanos | 1 == nanos || (nanos | 1) - 1 == nanos)) by (bit_vector);
    assert(0x9E37_79B9_7F4A_7C15u64 | 1 == 0x9E37_79B9_7F4A_7C15u64) by (bit_vector);
}

/// An album's line ends in its duration; discs follow only where there are several,
/// and plays only where there were any.
pub proof fn counts_show_where_they_tell_something(a: AlbumRow)
    ensures
        ({
            let line = cli::album_line(a);
            let lasts = text::flush_right(cli::duration_text(a.duration_ms as int), 6);
            let discs = " ["@ + text::int_text(a.disc_count as int) + "CD]"@;
            let plays = "  ▸"@ + text::int_text(a.play_count as int);
            &&& a.disc_count <= 1 && a.play_count <= 0 ==> ends_in(line, lasts)
            &&& a.disc_count > 1 && a.play_count <= 0 ==> ends_in(line, lasts + discs)
            &&& a.disc_count <= 1 && a.play_count > 0 ==> ends_in(line, lasts + plays)
            &&& a.disc_count > 1 && a.play_count > 0 ==> ends_in(line, lasts + discs + plays)
        }),
{
    reveal_strlit("");
    let lasts = text::flush_right(cli::duration_text(a.duration_ms as int), 6);
    let discs = cli::only_above(a.disc_count as int, 1, " ["@, "CD]"@);
    let plays = cli::only_above(a.play_count as int, 0, "  ▸"@, ""@);
    let front = text::flush_right(text::int_text(a.id as int), 6) + "  "@ + (match a.year {
        Some(y) => text::int_text(y as int),
        None => "----"@,
    }) + "  "@ + text::flush_left(a.album_artist@, 28) + "  "@ + text::flush_left(a.title@, 40)
        + "  "@ + text::flush_right(text::int_text(a.track_count as int), 2) + "tr "@;
    let tail = lasts + discs + plays;
    assert(cli::album_line(a) =~= front + tail);
    lemma_ends(front, tail);
    if a.play_count > 0 {
        assert(plays =~= "  ▸"@ + text::int_text(a.play_count as int));
    }
    if a.disc_count <= 1 {
        assert(tail =~= lasts + plays);
    }
    if a.play_count <= 0 {
        assert(tail =~= lasts + discs);
    }
    if a.disc_count <= 1 && a.play_count <= 0 {
        assert(tail =~= lasts);
    }
}

/// A track's line gives its number, its title, how long it lasts and its artist, in
/// columns.
pub proof fn track_lines_keep_to_columns(t: TrackRow)
    requires
        0 <= t.track_no < 1000,
    ensures
        ({
            let line = cli::track_line(t);
            &&& line.subrange(2, 5) == text::flush_right(text::int_text(t.track_no as int), 3)
            &&& line.subrange(7, 51) == text::flush_left(t.title@, 44)
            &&& ends_in(
                line,
                text::flush_right(cli::duration_text(t.duration_ms as int), 7) + "  "@ + t.artist@,
            )
        }),
{
    reveal_strlit("  ");
    reveal_strlit(". ");
    reveal_strlit(" ");
    let number = text::flush_right(text::int_text(t.track_no as int), 3);
    let title = text::flush_left(t.title@, 44);
    assert(text::decimal_text(t.track_no as nat).len() <= 3) by {
        reveal_with_fuel(text::decimal_text, 3);
    }
    columns_take_their_width(text::int_text(t.track_no as int), 3);
    columns_take_their_width(t.title@, 44);
    let lasts = text::flush_right(cli::duration_text(t.duration_ms as int), 7);
    let front = "  "@ + number + ". "@ + title + " "@;
    let tail = lasts + "  "@ + t.artist@;
    let line = cli::track_line(t);
    assert(line =~= front + tail);
    lemma_ends(front, tail);
    assert(line.subrange(2, 5) =~= number);
    assert(line.subrange(7, 51) =~= title);
}

/// The most played are listed one to a line, their plays in front; a list of nothing
/// says so.
pub proof fn top_lists_are_never_empty(lines: Seq<Seq<char>>, a: (String, String, i64), days: i64)
    ensures
        lines.len() > 0 ==> cli::top_list(lines) == lines,
        lines.len() == 0 ==> cli::top_list(lines) == seq!["  nothing played yet"@],
        ends_in(cli::top_album(a), a.0@ + " — "@ + a.1@),
        cli::window(None).len() == 0,
        cli::window(Some(days)) == " (last "@ + text::int_text(days as int) + " days)"@,
{
    let front = "  "@ + text::flush_right(text::int_text(a.2 as int), 4) + "  "@;
    let tail = a.0@ + " — "@ + a.1@;
    assert(cli::top_album(a) =~= front + tail);
    lemma_ends(front, tail);
}

/// A scan's summary gives the albums, those that are new, and those that are gone
/// where there are any.
pub proof fn summaries_count_albums(r: ScanReport)
    ensures
        ({
            let line = cli::albums_line(r);
            let counts = text::decimal_text(r.albums as nat) + " albums ("@ + text::decimal_text(
                r.albums_new as nat,
            ) + " new)"@;
            &&& r.albums_gone == 0 ==> line == counts
            &&& r.albums_gone > 0 ==> line == counts + ", "@ + text::decimal_text(
                r.albums_gone as nat,
            ) + " no longer on disk"@
            &&& !r.absences_skipped <==> cli::storage_warning(r).len() == 0
            &&& r.files_failed == 0 ==> cli::unreadable(r, true).len() == 0
        }),
{
    let counts = text::decimal_text(r.albums as nat) + " albums ("@ + text::decimal_text(
        r.albums_new as nat,
    ) + " new)"@;
    let gone = ", "@ + text::decimal_text(r.albums_gone as nat) + " no longer on disk"@;
    if r.albums_gone == 0 {
        assert(cli::albums_line(r) =~= counts);
    } else {
        assert(counts + gone =~= counts + ", "@ + text::decimal_text(r.albums_gone as nat)
            + " no longer on disk"@);
    }
}

} // verus!
