//! Last-resort tag reading from what `ffprobe` prints.
//!
//! A handful of files in any real library are playable but too malformed for a
//! strict parser: encrypted ID3v2 frames, truncated headers. Dropping them
//! silently leaves an album with holes in its tracklist, which for an
//! album-first player is worse than the cost of spawning a process.
//!
//! The reader is made for this one fallback: only a dozen scalar fields are
//! needed, and they are all flat.

use vstd::prelude::*;

use crate::model::TrackMeta;
use crate::path::FilePath;
use crate::text;
use crate::text::{
    append_chars, chars_of, find_from, lower_ascii_all, same_text, slice_chars, text_of, trim_front_of,
};
use crate::util;
use crate::util::{leading_u32, year_from_date};

verus! {

/// A text without leading white space.
pub open spec fn trim_start(s: Seq<char>) -> Seq<char> {
    text::trim_front(s, Seq::empty(), true)
}

/// The text of a quoted string, from behind its opening quote: up to the closing
/// quote, each backslash replaced by the character behind it. Nothing when the
/// string is not closed.
pub open spec fn quoted(s: Seq<char>) -> Option<Seq<char>>
    decreases s.len(),
{
    if s.len() == 0 {
        None
    } else if s[0] == '"' {
        Some(Seq::empty())
    } else if s[0] == '\\' {
        if s.len() == 1 {
            None
        } else {
            match quoted(s.skip(2)) {
                Some(rest) => Some(seq![s[1]] + rest),
                None => None,
            }
        }
    } else {
        match quoted(s.drop_first()) {
            Some(rest) => Some(seq![s[0]] + rest),
            None => None,
        }
    }
}

/// A value that holds more than white space.
pub open spec fn unless_blank(v: Option<Seq<char>>) -> Option<Seq<char>> {
    match v {
        Some(s) if !text::is_blank(s) => v,
        _ => None,
    }
}

/// The value of the first key, at or after `from`, that spells `needle` in lower
/// case and has a quoted value. A name that no colon follows is a value itself
/// and is passed over.
pub open spec fn value_from(json: Seq<char>, needle: Seq<char>, from: int) -> Option<Seq<char>>
    decreases json.len() - from,
{
    match text::first_at(text::ascii_lowered(json), needle, from) {
        Some(i) => {
            let after = i + needle.len();
            if from < 0 || i < from || needle.len() == 0 || after > json.len() {
                None
            } else {
                let rest = trim_start(json.skip(after));
                if rest.len() == 0 || rest[0] != ':' {
                    value_from(json, needle, after)
                } else {
                    let value = trim_start(rest.drop_first());
                    if value.len() > 0 && value[0] == '"' {
                        unless_blank(quoted(value.drop_first()))
                    } else {
                        value_from(json, needle, after)
                    }
                }
            }
        },
        None => None,
    }
}

/// A key as it stands in the text.
pub open spec fn key_text(name: Seq<char>) -> Seq<char> {
    seq!['"'] + text::ascii_lowered(name) + seq!['"']
}

/// The value of a `"name": "value"` pair, ASCII case aside on the key.
pub open spec fn value_of(json: Seq<char>, name: Seq<char>) -> Option<Seq<char>> {
    value_from(json, key_text(name), 0)
}

/// A text as it stands between quotes, with quotes and backslashes escaped.
pub open spec fn in_quotes(s: Seq<char>) -> Seq<char>
    decreases s.len(),
{
    if s.len() == 0 {
        Seq::empty()
    } else if s[0] == '"' || s[0] == '\\' {
        seq!['\\', s[0]] + in_quotes(s.drop_first())
    } else {
        seq![s[0]] + in_quotes(s.drop_first())
    }
}

/// Escaped characters survive: a quoted text reads back as it was, whatever
/// follows it.
pub proof fn quoted_text_reads_back(s: Seq<char>, more: Seq<char>)
    ensures
        quoted(in_quotes(s) + seq!['"'] + more) == Some(s),
    decreases s.len(),
{
    let whole = in_quotes(s) + seq!['"'] + more;
    if s.len() == 0 {
        assert(whole[0] == '"');
        assert(s =~= Seq::empty());
    } else {
        let rest = s.drop_first();
        quoted_text_reads_back(rest, more);
        let tail = in_quotes(rest) + seq!['"'] + more;
        if s[0] == '"' || s[0] == '\\' {
            assert(whole =~= seq!['\\', s[0]] + tail);
            assert(whole.skip(2) =~= tail);
        } else {
            assert(whole =~= seq![s[0]] + tail);
            assert(whole.drop_first() =~= tail);
        }
        assert(seq![s[0]] + rest =~= s);
    }
}

fn read_quoted(v: &Vec<char>, from: usize) -> (r: Option<Vec<char>>)
    requires
        from <= v@.len(),
    ensures
        match r {
            Some(out) => quoted(v@.skip(from as int)) == Some(out@),
            None => quoted(v@.skip(from as int)) is None,
        },
{
    let n: usize = v.len();
    let mut out: Vec<char> = Vec::new();
    let mut i: usize = from;
    let ghost goal = quoted(v@.skip(from as int));
    assert(goal matches Some(rest) ==> out@ + rest =~= rest);
    while i < n
        invariant
            n == v@.len(),
            from <= i <= n,
            goal == quoted(v@.skip(from as int)),
            match quoted(v@.skip(i as int)) {
                Some(rest) => goal == Some(out@ + rest),
                None => goal is None,
            },
        decreases n - i,
    {
        let ghost left = v@.skip(i as int);
        let c = v[i];
        if c == '"' {
            assert(out@ + Seq::<char>::empty() =~= out@);
            return Some(out);
        }
        if c == '\\' {
            if i + 1 == n {
                return None;
            }
            let ghost before = out@;
            out.push(v[i + 1]);
            assert(left.skip(2) =~= v@.skip(i + 2));
            assert(quoted(left.skip(2)) matches Some(rest) ==> before + (seq![left[1]] + rest)
                =~= out@ + rest);
            i += 2;
        } else {
            let ghost before = out@;
            out.push(c);
            assert(left.drop_first() =~= v@.skip(i + 1));
            assert(quoted(left.drop_first()) matches Some(rest) ==> before + (seq![left[0]] + rest)
                =~= out@ + rest);
            i += 1;
        }
    }
    None
}

/// Value of a `"name": "value"` pair, case-insensitively on the key.
///
/// Tag names vary in case between containers (`TITLE` in Vorbis, `title` in
/// ID3), so matching has to ignore it.
pub fn field(json: &str, name: &str) -> (r: Option<String>)
    ensures
        text::opt_text(r) == value_of(json@, name@),
{
    let v = chars_of(json);
    let low = lower_ascii_all(&v);
    let mut needle: Vec<char> = Vec::new();
    needle.push('"');
    append_chars(&mut needle, &lower_ascii_all(&chars_of(name)));
    needle.push('"');
    assert(needle@ =~= key_text(name@));
    let none: Vec<char> = Vec::new();
    assert(none@ =~= Seq::empty());
    let n: usize = v.len();
    let mut from: usize = 0;
    loop
        invariant
            n == v@.len(),
            from <= n,
            v@ == json@,
            low@ == text::ascii_lowered(json@),
            needle@ == key_text(name@),
            needle@.len() >= 2,
            none@ == Seq::<char>::empty(),
            value_of(json@, name@) == value_from(json@, needle@, from as int),
        decreases n - from,
    {
        let i: usize = match find_from(&low, &needle, from) {
            Some(i) => i,
            None => {
                return None;
            },
        };
        let after: usize = i + needle.len();
        let rest = trim_front_of(&slice_chars(&v, after, n), &none, true);
        assert(v@.subrange(after as int, n as int) =~= v@.skip(after as int));
        if rest.len() > 0 && rest[0] == ':' {
            let value = trim_front_of(&slice_chars(&rest, 1, rest.len()), &none, true);
            assert(rest@.subrange(1, rest@.len() as int) =~= rest@.drop_first());
            if value.len() > 0 && value[0] == '"' {
                assert(value@.skip(1) =~= value@.drop_first());
                return match read_quoted(&value, 1) {
                    Some(out) => {
                        let s = text_of(&out);
                        if text::blank(&s) {
                            None
                        } else {
                            Some(s)
                        }
                    },
                    None => None,
                };
            }
        }
        from = after;
    }
}

/// The number a text writes as a whole, in an unsigned 32-bit integer.
pub open spec fn whole_number(s: Seq<char>) -> Option<u32> {
    match text::parse_unsigned(s, u32::MAX as nat) {
        Some(n) => Some(n as u32),
        None => None,
    }
}

fn whole_number_of(s: &str) -> (r: Option<u32>)
    ensures
        r == whole_number(s@),
{
    match text::unsigned_of(&chars_of(s), u32::MAX as u64) {
        Some(n) => Some(n as u32),
        None => None,
    }
}

/// The number that a field's value starts with.
pub open spec fn leading_field(json: Seq<char>, name: Seq<char>) -> Option<u32> {
    match value_of(json, name) {
        Some(v) => util::small_number(util::leading_digits(text::trimmed(v))),
        None => None,
    }
}

/// The text of the duration in seconds, for the caller to read as a number.
pub fn duration_text(json: &str) -> (r: Option<String>)
    ensures
        text::opt_text(r) == value_of(json@, "duration"@),
{
    field(json, "duration")
}

/// The track that a probe's output describes.
pub open spec fn probed(
    m: TrackMeta,
    json: Seq<char>,
    path: FilePath,
    mtime: i64,
    size: i64,
    duration_ms: i64,
) -> bool {
    &&& m.path == path
    &&& m.mtime == mtime
    &&& m.size == size
    &&& m.duration_ms == duration_ms
    &&& text::opt_text(m.title) == value_of(json, "title"@)
    &&& text::opt_text(m.artist_raw) == value_of(json, "artist"@)
    &&& text::opt_text(m.album_artist_raw) == value_of(json, "album_artist"@)
    &&& text::opt_text(m.album_raw) == value_of(json, "album"@)
    &&& text::opt_text(m.mb_album_id) == value_of(json, "MusicBrainz Album Id"@)
    &&& m.compilation == (value_of(json, "compilation"@) == Some("1"@))
    &&& m.disc_no == match leading_field(json, "disc"@) {
        Some(n) if n >= 1 => n,
        _ => 1,
    }
    &&& m.track_no == match leading_field(json, "track"@) {
        Some(n) => n,
        None => 0,
    }
    &&& m.year == match value_of(json, "date"@) {
        Some(v) => util::first_year(v, 0),
        None => match value_of(json, "year"@) {
            Some(v) => util::first_year(v, 0),
            None => None,
        },
    }
    &&& text::opt_text(m.codec) == value_of(json, "codec_name"@)
    &&& m.bitrate == match value_of(json, "bit_rate"@) {
        Some(v) => match whole_number(v) {
            Some(bits) => Some((bits / 1000) as u32),
            None => None,
        },
        None => None,
    }
    &&& m.sample_rate == match value_of(json, "sample_rate"@) {
        Some(v) => whole_number(v),
        None => None,
    }
    &&& m.rg_track_gain is None
    &&& m.rg_track_peak is None
    &&& m.rg_album_gain is None
    &&& m.rg_album_peak is None
}

/// Build track metadata from what was printed about a file of the given duration.
/// A file with no readable duration is not usable as a track.
pub fn parse(json: &str, path: FilePath, mtime: i64, size: i64, duration_ms: i64) -> (r: Option<
    TrackMeta,
>)
    ensures
        duration_ms <= 0 ==> r is None,
        duration_ms > 0 ==> r is Some,
        r matches Some(m) ==> probed(m, json@, path, mtime, size, duration_ms),
{
    if duration_ms <= 0 {
        return None;
    }
    let disc_no: u32 = match field(json, "disc") {
        Some(v) => match leading_u32(&v) {
            Some(n) => if n >= 1 {
                n
            } else {
                1
            },
            None => 1,
        },
        None => 1,
    };
    let track_no: u32 = match field(json, "track") {
        Some(v) => match leading_u32(&v) {
            Some(n) => n,
            None => 0,
        },
        None => 0,
    };
    let year = match field(json, "date") {
        Some(v) => year_from_date(&v),
        None => match field(json, "year") {
            Some(v) => year_from_date(&v),
            None => None,
        },
    };
    let compilation = match field(json, "compilation") {
        Some(v) => same_text(&v, "1"),
        None => false,
    };
    let bitrate = match field(json, "bit_rate") {
        Some(v) => match whole_number_of(&v) {
            Some(bits) => Some(bits / 1000),
            None => None,
        },
        None => None,
    };
    let sample_rate = match field(json, "sample_rate") {
        Some(v) => whole_number_of(&v),
        None => None,
    };
    Some(
        TrackMeta {
            path,
            mtime,
            size,
            title: field(json, "title"),
            artist_raw: field(json, "artist"),
            album_artist_raw: field(json, "album_artist"),
            album_raw: field(json, "album"),
            mb_album_id: field(json, "MusicBrainz Album Id"),
            compilation,
            disc_no,
            track_no,
            year,
            duration_ms,
            codec: field(json, "codec_name"),
            bitrate,
            sample_rate,
            // Gain is exposed inconsistently across formats, and these files are
            // already the awkward ones; the enrichment pass measures them.
            rg_track_gain: None,
            rg_track_peak: None,
            rg_album_gain: None,
            rg_album_peak: None,
        },
    )
}

} // verus!
