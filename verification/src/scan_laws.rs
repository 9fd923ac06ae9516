//! What is read off a file: which files are looked at, which tag counts where
//! several say something, and how numbers and dates are understood.

use vstd::prelude::*;

use crate::model::TrackMeta;
use crate::path::{FilePath, PathView};
use crate::scan;
use crate::scan::{RawTags, ReadOutcome};
use crate::text;
use crate::text_laws;
use crate::util;

verus! {

/// Audio files go by their extension, in any case of its letters: these twelve and
/// no other.
pub proof fn audio_files_go_by_extension(path: PathView)
    ensures
        path.extension() is None ==> !scan::is_audio(path),
        path.extension() matches Some(e) ==> {
            let x = text::ascii_lowered(e);
            scan::is_audio(path) <==> x == "mp3"@ || x == "m4a"@ || x == "m4b"@ || x == "aac"@ || x
                == "opus"@ || x == "ogg"@ || x == "oga"@ || x == "flac"@ || x == "wav"@ || x
                == "wv"@ || x == "ape"@ || x == "mpc"@
        },
{
    let all = scan::audio_extensions();
    assert(all[0] == "mp3"@ && all[1] == "m4a"@ && all[2] == "m4b"@ && all[3] == "aac"@);
    assert(all[4] == "opus"@ && all[5] == "ogg"@ && all[6] == "oga"@ && all[7] == "flac"@);
    assert(all[8] == "wav"@ && all[9] == "wv"@ && all[10] == "ape"@ && all[11] == "mpc"@);
}

/// A file or folder is hidden when its name starts with a dot.
pub proof fn dot_files_are_hidden(path: PathView)
    ensures
        path.file_name() matches Some(name) ==> scan::hidden(path) == (name.len() > 0 && name[0]
            == '.'),
        path.file_name() is None ==> !scan::hidden(path),
{
}

/// A tag that holds nothing but white space says nothing; any other says what is
/// left without the white space around it.
pub proof fn blank_tags_say_nothing(front: Seq<char>, value: Seq<char>, back: Seq<char>)
    requires
        forall|i: int| 0 <= i < front.len() ==> text::is_white_space(#[trigger] front[i]),
        forall|i: int| 0 <= i < back.len() ==> text::is_white_space(#[trigger] back[i]),
        value.len() > 0 ==> !text::is_white_space(value.first()) && !text::is_white_space(
            value.last(),
        ),
    ensures
        scan::tag_value(None) is None,
        value.len() == 0 ==> scan::tag_value(Some(front + value + back)) is None,
        value.len() > 0 ==> scan::tag_value(Some(front + value + back)) == Some(value),
{
    text_laws::trimming_takes_off_white_space(front, value, back);
}

/// Where the disc of a track comes from, best first: the number the reader
/// understood, the number as written, the folder, the album title; and it is never
/// less than one.
pub proof fn discs_come_from_the_best_source(tags: RawTags, path: PathView)
    ensures
        ({
            let d = scan::disc_of(tags, path);
            let written = scan::tag_number(text::opt_text(tags.disc_text));
            let folder = util::path_disc(path);
            let title = scan::tag_value(text::opt_text(tags.album));
            let marked = match title {
                Some(a) => util::without_disc(a).1,
                None => None,
            };
            &&& d >= 1
            &&& tags.disc is Some && tags.disc.unwrap() >= 1 ==> d == tags.disc.unwrap()
            &&& tags.disc is None && written is Some && written.unwrap() >= 1 ==> d
                == written.unwrap()
            &&& tags.disc is None && written is None && folder is Some && folder.unwrap() >= 1
                ==> d == folder.unwrap()
            &&& tags.disc is None && written is None && folder is None && marked is Some
                && marked.unwrap() >= 1 ==> d == marked.unwrap()
            &&& tags.disc is None && written is None && folder is None && marked is None ==> d == 1
        }),
{
}

/// The year comes out of the recording date, else the year tag, else the release
/// date: the first of them that is there.
pub proof fn years_come_from_the_first_date(tags: RawTags)
    ensures
        ({
            let recorded = scan::tag_value(text::opt_text(tags.recording_date));
            let year = scan::tag_value(text::opt_text(tags.year));
            let released = scan::tag_value(text::opt_text(tags.release_date));
            &&& recorded matches Some(s) ==> scan::year_of(tags) == util::first_year(s, 0)
            &&& recorded is None && year is Some ==> scan::year_of(tags) == util::first_year(
                year.unwrap(),
                0,
            )
            &&& recorded is None && year is None && released is Some ==> scan::year_of(tags)
                == util::first_year(released.unwrap(), 0)
            &&& recorded is None && year is None && released is None ==> scan::year_of(tags) is None
        }),
{
}

/// The year of a date is the first run of four digits in it that writes a year from
/// 1000 to 2999.
pub proof fn years_are_four_digits(s: Seq<char>, i: int)
    requires
        0 <= i,
    ensures
        match util::first_year(s, i) {
            Some(y) => 1000 <= y <= 2999 && exists|k: int|
                #![trigger s.subrange(k, k + 4)]
                {
                    &&& i <= k <= s.len() - 4
                    &&& text::all_digits(s.subrange(k, k + 4))
                    &&& text::decimal(s.subrange(k, k + 4)) == y
                    &&& forall|j: int|
                        i <= j < k ==> !(text::all_digits(#[trigger] s.subrange(j, j + 4)) && 1000
                            <= text::decimal(s.subrange(j, j + 4)) <= 2999)
                },
            None => forall|k: int|
                i <= k <= s.len() - 4 ==> !(text::all_digits(#[trigger] s.subrange(k, k + 4))
                    && 1000 <= text::decimal(s.subrange(k, k + 4)) <= 2999),
        },
    decreases s.len() - i,
{
    if i + 4 <= s.len() {
        if util::year_at(s, i) {
            assert(text::all_digits(s.subrange(i, i + 4)));
        } else {
            years_are_four_digits(s, i + 1);
        }
    }
}

/// A compilation is flagged by "1" or "true" and by nothing else.
pub proof fn compilations_are_flagged_so(raw: Option<Seq<char>>)
    ensures
        scan::tag_value(raw) is None ==> !scan::flag_set(raw),
        scan::tag_value(raw) matches Some(v) ==> (scan::flag_set(raw) <==> v == "1"@
            || text::ascii_lowered(v) == "true"@),
{
}

/// The number at the front of a tag is read, whatever follows it: "3/12" is three.
pub proof fn numbers_are_read_off_the_front(digits: Seq<char>, rest: Seq<char>)
    requires
        text::all_digits(digits),
        rest.len() > 0 ==> !text::is_digit(rest[0]),
    ensures
        util::leading_digits(digits + rest) == digits,
    decreases digits.len(),
{
    if digits.len() == 0 {
        assert(digits + rest =~= rest);
        assert(util::leading_digits(rest) =~= digits);
    } else {
        let tail = digits.drop_first();
        assert(text::is_digit(digits[0]));
        assert((digits + rest)[0] == digits[0]);
        assert((digits + rest).drop_first() =~= tail + rest);
        assert forall|i: int| 0 <= i < tail.len() implies text::is_digit(#[trigger] tail[i]) by {
            assert(tail[i] == digits[i + 1]);
        }
        numbers_are_read_off_the_front(tail, rest);
        assert(seq![digits[0]] + tail =~= digits);
    }
}

/// The first word of a text ends where its first white space is.
pub proof fn words_end_at_white_space(word: Seq<char>, rest: Seq<char>)
    requires
        forall|i: int| 0 <= i < word.len() ==> !text::is_white_space(#[trigger] word[i]),
        rest.len() > 0 ==> text::is_white_space(rest[0]),
    ensures
        scan::first_word(word + rest) == word,
    decreases word.len(),
{
    if word.len() == 0 {
        assert(word + rest =~= rest);
        assert(scan::first_word(rest) =~= word);
    } else {
        let tail = word.drop_first();
        assert(!text::is_white_space(word[0]));
        assert((word + rest)[0] == word[0]);
        assert((word + rest).drop_first() =~= tail + rest);
        assert forall|i: int| 0 <= i < tail.len() implies !text::is_white_space(
            #[trigger] tail[i],
        ) by {
            assert(tail[i] == word[i + 1]);
        }
        words_end_at_white_space(tail, rest);
        assert(seq![word[0]] + tail =~= word);
    }
}

/// A disc folder: a disc word, possibly separators, and a number and nothing more.
pub proof fn disc_folders_are_numbered(name: Seq<char>)
    ensures
        util::dir_disc(name) is Some ==> {
            let n = util::norm(name);
            "disc"@.is_prefix_of(n) || "disk"@.is_prefix_of(n) || "cd"@.is_prefix_of(n)
        },
        forall|rest: Seq<char>|
            #![trigger util::disc_number(rest)]
            (util::norm(name) == "disc"@ + rest || util::norm(name) == "disk"@ + rest
                || util::norm(name) == "cd"@ + rest) && rest.len() > 0 && !util::dir_separators().contains(
                rest[0],
            ) ==> util::dir_disc(name) == util::disc_number(rest),
{
    reveal_strlit("disc");
    reveal_strlit("disk");
    reveal_strlit("cd");
    let n = util::norm(name);
    assert forall|rest: Seq<char>|
        #![trigger util::disc_number(rest)]
        (n == "disc"@ + rest || n == "disk"@ + rest || n == "cd"@ + rest) && rest.len() > 0
            && !util::dir_separators().contains(rest[0]) implies util::dir_disc(name)
        == util::disc_number(rest) by {
        assert(text::trim_front(rest, util::dir_separators(), false) == rest);
        if n == "disc"@ + rest {
            assert("disc"@ =~= n.subrange(0, 4));
            assert(n.skip(4) =~= rest);
        } else if n == "disk"@ + rest {
            assert("disk"@ =~= n.subrange(0, 4));
            assert(n.skip(4) =~= rest);
            assert(n[3] == 'k');
            assert("disc"@[3] == 'c');
        } else {
            assert("cd"@ =~= n.subrange(0, 2));
            assert(n.skip(2) =~= rest);
            assert(n[0] == 'c');
            assert("disc"@[0] == 'd');
            assert("disk"@[0] == 'd');
        }
    }
}

/// Every outcome of reading is told: what was read or cached becomes a track, in
/// order, and what failed does not.
pub proof fn only_failures_yield_no_track(outcomes: Seq<ReadOutcome>, next: ReadOutcome)
    ensures
        scan::readable(outcomes.push(next)) == match next {
            ReadOutcome::Failed(_, _) => scan::readable(outcomes),
            ReadOutcome::Cached(m) => scan::readable(outcomes).push(m),
            ReadOutcome::Parsed(m) => scan::readable(outcomes).push(m),
        },
{
    assert(outcomes.push(next).drop_last() =~= outcomes);
}

/// A scan is not to be trusted on absences when more than one file in twenty could
/// not be read. A scan without failures always is, and fewer failures never make
/// it worse.
pub proof fn one_failure_in_twenty_is_tolerated(failed: nat, fewer: nat, seen: nat)
    requires
        fewer <= failed,
    ensures
        scan::too_many_failed(failed, seen) <==> seen > 0 && 20 * failed > seen,
        scan::too_many_failed(fewer, seen) ==> scan::too_many_failed(failed, seen),
        !scan::too_many_failed(0, seen),
{
}

/// How often a value occurs in a list is how often the list holds it.
pub proof fn votes_are_counted(values: Seq<Option<Seq<char>>>, v: Seq<char>)
    ensures
        util::occurrences(values, v) == values.to_multiset().count(Some(v)),
    decreases values.len(),
{
    broadcast use {
        vstd::seq_lib::group_to_multiset_ensures,
        vstd::multiset::group_multiset_axioms,
    };

    if values.len() > 0 {
        votes_are_counted(values.drop_last(), v);
        assert(values.drop_last().push(values.last()) =~= values);
    } else {
        assert(values.to_multiset().count(Some(v)) == 0);
    }
}

/// A single letter is normalized to its lowercase, and letters behind one another
/// in their order.
pub proof fn normalizing_lowers_letters(a: Seq<char>, c: char)
    requires
        !text::is_white_space(c),
        a.len() > 0 ==> !text::is_white_space(a.last()),
    ensures
        util::norm(a.push(c)) == util::norm(a) + text::lowercase_of(c),
{
    let s = a.push(c);
    assert(s.drop_last() =~= a);
    if a.len() > 0 {
        assert(s[s.len() - 2] == a.last());
    } else {
        assert(util::norm(a).len() == 0);
    }
}

/// What a file's tags say goes into its track: texts that are not blank as they
/// stand, the number before its spelling and none as zero, the rate of the audio
/// before that of the file, the gains as measured, and the format in small letters.
pub proof fn tags_fill_in_the_track(
    m: TrackMeta,
    path: FilePath,
    mtime: i64,
    size: i64,
    tags: RawTags,
)
    requires
        scan::tagged(m, path, mtime, size, tags),
    ensures
        m.path == path && m.mtime == mtime && m.size == size,
        m.duration_ms == tags.duration_ms,
        text::opt_text(m.title) == scan::tag_value(text::opt_text(tags.title)),
        text::opt_text(m.artist_raw) == scan::tag_value(text::opt_text(tags.artist)),
        text::opt_text(m.album_artist_raw) == scan::tag_value(text::opt_text(tags.album_artist)),
        text::opt_text(m.album_raw) == scan::tag_value(text::opt_text(tags.album)),
        text::opt_text(m.mb_album_id) == scan::tag_value(text::opt_text(tags.mb_release_id)),
        m.compilation == scan::flag_set(text::opt_text(tags.compilation)),
        m.disc_no == scan::disc_of(tags, path@),
        m.year == scan::year_of(tags),
        tags.track matches Some(n) ==> m.track_no == n,
        tags.track is None && scan::tag_number(text::opt_text(tags.track_text)) is Some
            ==> m.track_no == scan::tag_number(text::opt_text(tags.track_text)).unwrap(),
        tags.track is None && tags.track_text is None ==> m.track_no == 0,
        tags.audio_bitrate is Some ==> m.bitrate == tags.audio_bitrate,
        tags.audio_bitrate is None ==> m.bitrate == tags.overall_bitrate,
        m.sample_rate == tags.sample_rate,
        m.codec is Some && m.codec.unwrap()@ == text::ascii_lowered(tags.format@),
        m.rg_track_gain == tags.rg_track_gain && m.rg_track_peak == tags.rg_track_peak,
        m.rg_album_gain == tags.rg_album_gain && m.rg_album_peak == tags.rg_album_peak,
{
}

/// A file is read again as soon as its time or its size is another.
pub proof fn changed_files_are_read_again(cached: TrackMeta, mtime: i64, size: i64)
    ensures
        scan::unchanged(cached, cached.mtime, cached.size),
        mtime != cached.mtime ==> !scan::unchanged(cached, mtime, size),
        size != cached.size ==> !scan::unchanged(cached, mtime, size),
{
}

/// A gain is the first word of its tag; a blank tag gives none.
pub proof fn gains_stand_before_their_unit(raw: Seq<char>)
    ensures
        scan::gain_text(None) is None,
        text::is_blank(raw) ==> scan::gain_text(Some(raw)) is None,
        !text::is_blank(raw) ==> scan::gain_text(Some(raw)) == Some(
            scan::first_word(text::trimmed(raw)),
        ),
{
}

/// Disc numbers can be spelled out up to twelve.
pub proof fn number_words_go_to_twelve(w: Seq<char>)
    ensures
        util::number_word(w) == Some(1u32) <==> w == "one"@,
        util::number_word(w) == Some(2u32) <==> w == "two"@,
        util::number_word(w) == Some(3u32) <==> w == "three"@,
        util::number_word(w) == Some(4u32) <==> w == "four"@,
        util::number_word(w) == Some(5u32) <==> w == "five"@,
        util::number_word(w) == Some(6u32) <==> w == "six"@,
        util::number_word(w) == Some(7u32) <==> w == "seven"@,
        util::number_word(w) == Some(8u32) <==> w == "eight"@,
        util::number_word(w) == Some(9u32) <==> w == "nine"@,
        util::number_word(w) == Some(10u32) <==> w == "ten"@,
        util::number_word(w) == Some(11u32) <==> w == "eleven"@,
        util::number_word(w) == Some(12u32) <==> w == "twelve"@,
        util::number_word(w) matches Some(n) ==> 1 <= n <= 12,
{
    reveal_strlit("one");
    reveal_strlit("two");
    reveal_strlit("three");
    reveal_strlit("four");
    reveal_strlit("five");
    reveal_strlit("six");
    reveal_strlit("seven");
    reveal_strlit("eight");
    reveal_strlit("nine");
    reveal_strlit("ten");
    reveal_strlit("eleven");
    reveal_strlit("twelve");
    assert("one"@.len() == 3 && "two"@.len() == 3 && "three"@.len() == 5 && "four"@.len() == 4
        && "five"@.len() == 4 && "six"@.len() == 3 && "seven"@.len() == 5 && "eight"@.len() == 5
        && "nine"@.len() == 4 && "ten"@.len() == 3 && "eleven"@.len() == 6 && "twelve"@.len() == 6);
    assert("one"@[0] != "two"@[0]);
    assert("one"@[0] != "six"@[0]);
    assert("one"@[0] != "ten"@[0]);
    assert("two"@[0] != "six"@[0]);
    assert("two"@[1] != "ten"@[1]);
    assert("three"@[0] != "seven"@[0]);
    assert("three"@[0] != "eight"@[0]);
    assert("four"@[1] != "five"@[1]);
    assert("four"@[0] != "nine"@[0]);
    assert("five"@[0] != "nine"@[0]);
    assert("six"@[0] != "ten"@[0]);
    assert("seven"@[0] != "eight"@[0]);
    assert("eleven"@[0] != "twelve"@[0]);
}

/// The characters that may stand around a disc marker.
pub proof fn marker_characters(c: char)
    ensures
        util::dir_separators().contains(c) <==> " -_.#"@.contains(c),
        util::title_separators().contains(c) <==> " -_.#:"@.contains(c),
        util::title_closers().contains(c) <==> ")]} ."@.contains(c),
        util::title_openers().contains(c) <==> "-_.([{#:"@.contains(c),
{
    reveal_strlit(" -_.#");
    assert(util::dir_separators() =~= " -_.#"@);
    reveal_strlit(" -_.#:");
    assert(util::title_separators() =~= " -_.#:"@);
    reveal_strlit(")]} .");
    assert(util::title_closers() =~= ")]} ."@);
    reveal_strlit("-_.([{#:");
    assert(util::title_openers() =~= "-_.([{#:"@);
}

/// A title keeps its words: without `disc`, `disk` or `cd` at the start of a word it
/// is left alone but for the white space around it.
pub proof fn titles_without_a_marker_stay(title: Seq<char>)
    requires
        ({
            let low = text::ascii_lowered(text::trimmed(title));
            forall|i: int|
                #![trigger low[i]]
                0 <= i < low.len() && (i == 0 || !text::alphanumeric(low[i - 1])) ==> !text::occurs_at(
                    low,
                    "disc"@,
                    i,
                ) && !text::occurs_at(low, "disk"@, i) && !text::occurs_at(low, "cd"@, i)
        }),
    ensures
        util::without_disc(title) == (text::trimmed(title), None::<u32>),
{
    let low = text::ascii_lowered(text::trimmed(title));
    assert forall|i: int| 0 <= i < low.len() implies !util::marks_disc(low, i) by {
        let c = low[i];
    }
    lemma_no_marker(low, low.len() as int);
}

proof fn lemma_no_marker(s: Seq<char>, n: int)
    requires
        n <= s.len(),
        forall|i: int| 0 <= i < s.len() ==> !#[trigger] util::marks_disc(s, i),
    ensures
        util::last_marker(s, n) == -1,
    decreases n,
{
    if n > 0 {
        lemma_no_marker(s, n - 1);
    }
}

} // verus!
