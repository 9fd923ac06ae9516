//! Library scanning: which files count, what their tags say, and how a scan is
//! tallied. Grouping the result into albums is in [`crate::group`].

use vstd::prelude::*;

use crate::error::Error;
use crate::model::{Real, TrackMeta};
use crate::path::FilePath;
use crate::path::PathView;
use crate::text;
use crate::text::{chars_of, lower_ascii_all, same_chars, same_text, slice_chars, text_of, trim_of, white_space};
use crate::util;
use crate::util::{disc_no_from_path, leading_u32, strip_disc_suffix, year_from_date};

verus! {

/// Extensions we attempt to read. Anything else in the tree is ignored.
pub open spec fn audio_extensions() -> Seq<Seq<char>> {
    seq![
        "mp3"@,
        "m4a"@,
        "m4b"@,
        "aac"@,
        "opus"@,
        "ogg"@,
        "oga"@,
        "flac"@,
        "wav"@,
        "wv"@,
        "ape"@,
        "mpc"@,
    ]
}

/// A file whose extension, ASCII case aside, is one we read.
pub open spec fn is_audio(path: PathView) -> bool {
    path.extension() matches Some(e) && audio_extensions().contains(text::ascii_lowered(e))
}

pub fn has_audio_extension(path: &FilePath) -> (r: bool)
    ensures
        r == is_audio(path@),
{
    let ext = match path.extension() {
        Some(e) => lower_ascii_all(&chars_of(&e)),
        None => {
            return false;
        },
    };
    let known: Vec<&str> = vec![
        "mp3", "m4a", "m4b", "aac", "opus", "ogg", "oga", "flac", "wav", "wv", "ape", "mpc",
    ];
    assert(known@.len() == audio_extensions().len());
    for i in 0..known.len()
        invariant
            known@.len() == audio_extensions().len(),
            forall|k: int| 0 <= k < known@.len() ==> (#[trigger] known@[k])@ == audio_extensions()[k],
            path@.extension() matches Some(e) && ext@ == text::ascii_lowered(e),
            forall|k: int| 0 <= k < i ==> audio_extensions()[k] != ext@,
    {
        if same_chars(&ext, &chars_of(known[i])) {
            assert(audio_extensions()[i as int] == ext@);
            return true;
        }
    }
    false
}

/// A path whose name starts with a dot.
pub open spec fn hidden(path: PathView) -> bool {
    path.file_name() matches Some(name) && name.len() > 0 && name[0] == '.'
}

/// Whether the walk leaves a file or directory out.
pub fn is_hidden(path: &FilePath) -> (r: bool)
    ensures
        r == hidden(path@),
{
    match path.file_name() {
        Some(name) => {
            let v = chars_of(&name);
            v.len() > 0 && v[0] == '.'
        },
        None => false,
    }
}

/// A tag value as it is used: trimmed, and nothing when nothing is left.
pub open spec fn tag_value(raw: Option<Seq<char>>) -> Option<Seq<char>> {
    match raw {
        Some(s) if text::trimmed(s).len() > 0 => Some(text::trimmed(s)),
        _ => None,
    }
}

fn clean(raw: &Option<String>) -> (r: Option<String>)
    ensures
        text::opt_text(r) == tag_value(text::opt_text(*raw)),
{
    match raw {
        Some(s) => {
            let t = trim_of(&chars_of(s));
            if t.len() > 0 {
                Some(text_of(&t))
            } else {
                None
            }
        },
        None => None,
    }
}

/// The text up to the first white space.
pub open spec fn first_word(s: Seq<char>) -> Seq<char>
    decreases s.len(),
{
    if s.len() == 0 || text::is_white_space(s[0]) {
        Seq::empty()
    } else {
        seq![s[0]] + first_word(s.drop_first())
    }
}

/// The number in a gain tag, before its unit.
pub open spec fn gain_text(raw: Option<Seq<char>>) -> Option<Seq<char>> {
    match tag_value(raw) {
        Some(s) => Some(first_word(s)),
        None => None,
    }
}

/// The number that stands in front of a ReplayGain tag, which is written as e.g.
/// "-7.25 dB": the text of it, for the caller to read as a number.
pub fn gain_number(raw: &Option<String>) -> (r: Option<String>)
    ensures
        text::opt_text(r) == gain_text(text::opt_text(*raw)),
{
    let s = match clean(raw) {
        Some(s) => s,
        None => {
            return None;
        },
    };
    let v = chars_of(&s);
    let mut i: usize = 0;
    assert(v@.skip(0) =~= v@);
    assert(v@.take(0) + first_word(v@) =~= first_word(v@));
    while i < v.len() && !white_space(v[i])
        invariant
            i <= v@.len(),
            first_word(v@) == v@.take(i as int) + first_word(v@.skip(i as int)),
        decreases v@.len() - i,
    {
        assert(v@.skip(i as int).drop_first() =~= v@.skip(i + 1));
        assert(v@.take(i as int) + (seq![v@[i as int]] + first_word(v@.skip(i + 1))) =~= v@.take(
            i + 1,
        ) + first_word(v@.skip(i + 1)));
        i += 1;
    }
    assert(v@.take(i as int) + Seq::<char>::empty() =~= v@.subrange(0, i as int));
    Some(text_of(&slice_chars(&v, 0, i)))
}

/// What a tag reader found in one file, verbatim.
pub struct RawTags {
    pub title: Option<String>,
    pub artist: Option<String>,
    pub album_artist: Option<String>,
    pub album: Option<String>,
    pub mb_release_id: Option<String>,
    pub compilation: Option<String>,
    /// The disc number as the reader understood it.
    pub disc: Option<u32>,
    /// The disc number as it is written.
    pub disc_text: Option<String>,
    /// The track number as the reader understood it.
    pub track: Option<u32>,
    /// The track number as it is written.
    pub track_text: Option<String>,
    pub recording_date: Option<String>,
    pub year: Option<String>,
    pub release_date: Option<String>,
    pub duration_ms: i64,
    /// The name of the file's format.
    pub format: String,
    pub audio_bitrate: Option<u32>,
    pub overall_bitrate: Option<u32>,
    pub sample_rate: Option<u32>,
    pub rg_track_gain: Option<Real>,
    pub rg_track_peak: Option<Real>,
    pub rg_album_gain: Option<Real>,
    pub rg_album_peak: Option<Real>,
}

/// The first of two values that is there.
pub open spec fn first_of<T>(a: Option<T>, b: Option<T>) -> Option<T> {
    if a is Some {
        a
    } else {
        b
    }
}

/// The number a cleaned tag value starts with.
pub open spec fn tag_number(raw: Option<Seq<char>>) -> Option<u32> {
    match tag_value(raw) {
        Some(s) => util::small_number(util::leading_digits(text::trimmed(s))),
        None => None,
    }
}

/// The disc of a track: from the tag, else from the folder it lies in, else from
/// a marker in the album title, else the first. Plenty of rips split a release
/// across `CD1`/`CD2` folders, or bake "(Disc 2)" into the album title, without
/// ever writing a disc tag. Defaulting those to disc 1 collides every track
/// number and destroys the album's playback order.
pub open spec fn disc_of(tags: RawTags, path: PathView) -> u32 {
    let from_title = match tag_value(text::opt_text(tags.album)) {
        Some(a) => util::without_disc(a).1,
        None => None,
    };
    let found = first_of(
        tags.disc,
        first_of(
            tag_number(text::opt_text(tags.disc_text)),
            first_of(util::path_disc(path), from_title),
        ),
    );
    match found {
        Some(n) if n >= 1 => n,
        _ => 1,
    }
}

/// The year of a track, out of the first of its dates that is there.
pub open spec fn year_of(tags: RawTags) -> Option<i32> {
    let date = first_of(
        tag_value(text::opt_text(tags.recording_date)),
        first_of(
            tag_value(text::opt_text(tags.year)),
            tag_value(text::opt_text(tags.release_date)),
        ),
    );
    match date {
        Some(s) => util::first_year(s, 0),
        None => None,
    }
}

/// A compilation flag that is set.
pub open spec fn flag_set(raw: Option<Seq<char>>) -> bool {
    match tag_value(raw) {
        Some(v) => v == "1"@ || text::ascii_lowered(v) == "true"@,
        None => false,
    }
}

fn number_in(raw: &Option<String>) -> (r: Option<u32>)
    ensures
        r == tag_number(text::opt_text(*raw)),
{
    match clean(raw) {
        Some(s) => leading_u32(&s),
        None => None,
    }
}

fn disc_number(tags: &RawTags, path: &FilePath) -> (r: u32)
    ensures
        r == disc_of(*tags, path@),
{
    let found = match tags.disc {
        Some(n) => Some(n),
        None => match number_in(&tags.disc_text) {
            Some(n) => Some(n),
            None => match disc_no_from_path(path) {
                Some(n) => Some(n),
                None => match clean(&tags.album) {
                    Some(a) => strip_disc_suffix(&a).1,
                    None => None,
                },
            },
        },
    };
    match found {
        Some(n) => if n >= 1 {
            n
        } else {
            1
        },
        None => 1,
    }
}

fn release_year(tags: &RawTags) -> (r: Option<i32>)
    ensures
        r == year_of(*tags),
{
    let date = match clean(&tags.recording_date) {
        Some(s) => Some(s),
        None => match clean(&tags.year) {
            Some(s) => Some(s),
            None => clean(&tags.release_date),
        },
    };
    match date {
        Some(s) => year_from_date(&s),
        None => None,
    }
}

/// The track that a file's tags describe.
pub open spec fn tagged(m: TrackMeta, path: FilePath, mtime: i64, size: i64, tags: RawTags) -> bool {
    &&& m.path == path
    &&& m.mtime == mtime
    &&& m.size == size
    &&& text::opt_text(m.title) == tag_value(text::opt_text(tags.title))
    &&& text::opt_text(m.artist_raw) == tag_value(text::opt_text(tags.artist))
    &&& text::opt_text(m.album_artist_raw) == tag_value(text::opt_text(tags.album_artist))
    &&& text::opt_text(m.album_raw) == tag_value(text::opt_text(tags.album))
    &&& text::opt_text(m.mb_album_id) == tag_value(text::opt_text(tags.mb_release_id))
    &&& m.compilation == flag_set(text::opt_text(tags.compilation))
    &&& m.disc_no == disc_of(tags, path@)
    &&& m.track_no == match first_of(tags.track, tag_number(text::opt_text(tags.track_text))) {
        Some(n) => n,
        None => 0,
    }
    &&& m.year == year_of(tags)
    &&& m.duration_ms == tags.duration_ms
    &&& m.codec matches Some(c) && c@ == text::ascii_lowered(tags.format@)
    &&& m.bitrate == first_of(tags.audio_bitrate, tags.overall_bitrate)
    &&& m.sample_rate == tags.sample_rate
    &&& m.rg_track_gain == tags.rg_track_gain
    &&& m.rg_track_peak == tags.rg_track_peak
    &&& m.rg_album_gain == tags.rg_album_gain
    &&& m.rg_album_peak == tags.rg_album_peak
}

/// What is kept of one file's tags and audio properties.
pub fn read_tags(path: FilePath, mtime: i64, size: i64, tags: &RawTags) -> (r: TrackMeta)
    ensures
        tagged(r, path, mtime, size, *tags),
{
    let disc_no: u32 = disc_number(tags, &path);
    let track_no: u32 = match tags.track {
        Some(n) => n,
        None => match number_in(&tags.track_text) {
            Some(n) => n,
            None => 0,
        },
    };
    let compilation = match clean(&tags.compilation) {
        Some(v) => same_text(&v, "1") || same_chars(
            &lower_ascii_all(&chars_of(&v)),
            &chars_of("true"),
        ),
        None => false,
    };
    TrackMeta {
        path,
        mtime,
        size,
        title: clean(&tags.title),
        artist_raw: clean(&tags.artist),
        album_artist_raw: clean(&tags.album_artist),
        album_raw: clean(&tags.album),
        mb_album_id: clean(&tags.mb_release_id),
        compilation,
        disc_no,
        track_no,
        year: release_year(tags),
        duration_ms: tags.duration_ms,
        codec: Some(text_of(&lower_ascii_all(&chars_of(&tags.format)))),
        bitrate: match tags.audio_bitrate {
            Some(n) => Some(n),
            None => tags.overall_bitrate,
        },
        sample_rate: tags.sample_rate,
        rg_track_gain: tags.rg_track_gain,
        rg_track_peak: tags.rg_track_peak,
        rg_album_gain: tags.rg_album_gain,
        rg_album_peak: tags.rg_album_peak,
    }
}

/// A file that is as it was when it was last read.
pub open spec fn unchanged(cached: TrackMeta, mtime: i64, size: i64) -> bool {
    cached.mtime == mtime && cached.size == size
}

/// Whether what is stored for a file still holds: it has the same time of change
/// and the same size, so its tags need not be read again.
pub fn still_fresh(cached: &TrackMeta, mtime: i64, size: i64) -> (r: bool)
    ensures
        r == unchanged(*cached, mtime, size),
{
    cached.mtime == mtime && cached.size == size
}

/// How reading one file went.
pub enum ReadOutcome {
    /// The stored values still held.
    Cached(TrackMeta),
    /// The tags were read.
    Parsed(TrackMeta),
    /// The file could not be read, and why.
    Failed(FilePath, String),
}

/// What a scan did, reported back to the caller.
#[derive(Debug)]
pub struct ScanReport {
    pub files_seen: usize,
    pub files_parsed: usize,
    pub files_cached: usize,
    pub files_failed: usize,
    pub albums: usize,
    pub albums_new: usize,
    pub tracks_gone: usize,
    pub albums_gone: usize,
    pub errors: Vec<(FilePath, String)>,
    /// True when too many files failed to read for absences to be trusted, so
    /// nothing was marked as gone.
    pub absences_skipped: bool,
    pub duration_ms: u128,
}

impl Default for ScanReport {
    fn default() -> (r: Self)
        ensures
            r.files_seen == 0,
            r.files_parsed == 0,
            r.files_cached == 0,
            r.files_failed == 0,
            r.albums == 0,
            r.albums_new == 0,
            r.tracks_gone == 0,
            r.albums_gone == 0,
            r.errors@.len() == 0,
            !r.absences_skipped,
            r.duration_ms == 0,
    {
        ScanReport {
            files_seen: 0,
            files_parsed: 0,
            files_cached: 0,
            files_failed: 0,
            albums: 0,
            albums_new: 0,
            tracks_gone: 0,
            albums_gone: 0,
            errors: Vec::new(),
            absences_skipped: false,
            duration_ms: 0,
        }
    }
}

/// Knobs for a scan.
#[derive(Debug, Clone, Copy, Default)]
pub struct ScanOptions {
    /// Re-read tags from every file, ignoring the cached values. Needed after
    /// the scanner's own tag interpretation changes.
    pub force: bool,
}

/// How many failures a report lists.
pub const MAX_LISTED_ERRORS: usize = 50;

/// The tracks that could be read, in order.
pub open spec fn readable(outcomes: Seq<ReadOutcome>) -> Seq<TrackMeta>
    decreases outcomes.len(),
{
    if outcomes.len() == 0 {
        Seq::empty()
    } else {
        let before = readable(outcomes.drop_last());
        match outcomes.last() {
            ReadOutcome::Cached(m) => before.push(m),
            ReadOutcome::Parsed(m) => before.push(m),
            ReadOutcome::Failed(_, _) => before,
        }
    }
}

/// How many files were taken from the cache, were read, and failed.
pub open spec fn tallied(outcomes: Seq<ReadOutcome>) -> (int, int, int)
    decreases outcomes.len(),
{
    if outcomes.len() == 0 {
        (0, 0, 0)
    } else {
        let (cached, parsed, failed) = tallied(outcomes.drop_last());
        match outcomes.last() {
            ReadOutcome::Cached(_) => (cached + 1, parsed, failed),
            ReadOutcome::Parsed(_) => (cached, parsed + 1, failed),
            ReadOutcome::Failed(_, _) => (cached, parsed, failed + 1),
        }
    }
}

/// The failures that a report lists: the first so many.
pub open spec fn listed_errors(outcomes: Seq<ReadOutcome>) -> Seq<(FilePath, String)>
    decreases outcomes.len(),
{
    if outcomes.len() == 0 {
        Seq::empty()
    } else {
        let before = listed_errors(outcomes.drop_last());
        match outcomes.last() {
            ReadOutcome::Failed(path, why) if before.len() < MAX_LISTED_ERRORS => before.push(
                (path, why),
            ),
            _ => before,
        }
    }
}

/// Tally how reading went, for a scan that has tallied nothing yet, and hand out
/// the tracks that could be read.
pub fn read_metadata(outcomes: Vec<ReadOutcome>, report: &mut ScanReport) -> (r: Vec<TrackMeta>)
    requires
        old(report).files_cached == 0,
        old(report).files_parsed == 0,
        old(report).files_failed == 0,
        old(report).errors@.len() == 0,
    ensures
        r@ == readable(outcomes@),
        (final(report).files_cached as int, final(report).files_parsed as int, final(report).files_failed as int)
            == tallied(outcomes@),
        final(report).errors@ == listed_errors(outcomes@),
        *final(report) == (ScanReport {
            files_cached: final(report).files_cached,
            files_parsed: final(report).files_parsed,
            files_failed: final(report).files_failed,
            errors: final(report).errors,
            ..*old(report)
        }),
{
    let ghost all = outcomes@;
    let ghost start = *report;
    let total: usize = outcomes.len();
    let mut metas: Vec<TrackMeta> = Vec::new();
    assert(report.errors@ =~= listed_errors(all.take(0)));
    for outcome in it: outcomes.into_iter()
        invariant
            it.seq() == all,
            total == all.len(),
            metas@ == readable(all.take(it.index() as int)),
            (report.files_cached as int, report.files_parsed as int, report.files_failed as int)
                == tallied(all.take(it.index() as int)),
            report.files_cached + report.files_parsed + report.files_failed == it.index(),
            report.errors@ == listed_errors(all.take(it.index() as int)),
            *report == (ScanReport {
                files_cached: report.files_cached,
                files_parsed: report.files_parsed,
                files_failed: report.files_failed,
                errors: report.errors,
                ..start
            }),
    {
        let ghost n = it.index() as int;
        assert(all.take(n + 1).drop_last() =~= all.take(n));
        assert(all.take(n + 1).last() == outcome);
        assert(it.index() < total);
        match outcome {
            ReadOutcome::Cached(m) => {
                report.files_cached = report.files_cached + 1;
                metas.push(m);
            },
            ReadOutcome::Parsed(m) => {
                report.files_parsed = report.files_parsed + 1;
                metas.push(m);
            },
            ReadOutcome::Failed(path, why) => {
                report.files_failed = report.files_failed + 1;
                if report.errors.len() < MAX_LISTED_ERRORS {
                    report.errors.push((path, why));
                }
            },
        }
    }
    assert(all.take(all.len() as int) =~= all);
    metas
}

/// Of how many files one may fail to read for absences to be trusted: one in
/// twenty.
pub const FILES_PER_FAILURE: u128 = 20;

/// Too many files failed to read for absences to be trusted.
pub open spec fn too_many_failed(files_failed: nat, files_seen: nat) -> bool {
    files_seen > 0 && files_failed * FILES_PER_FAILURE > files_seen
}

/// Whether too many files failed to read for absences to be trusted.
///
/// A flaky network share can fail hundreds of reads in one pass. Those files are
/// still on disk, so marking them absent would quietly shrink the library and
/// strand play history. Past this rate the scan records what it *did* read and
/// leaves everything else alone.
pub fn is_unreliable(files_failed: usize, files_seen: usize) -> (r: bool)
    ensures
        r == too_many_failed(files_failed as nat, files_seen as nat),
{
    files_seen > 0 && (files_failed as u128) * FILES_PER_FAILURE > files_seen as u128
}

/// Whether what is stored is to be marked absent before the files that were seen
/// are marked present again. Nothing is ever deleted; and when too many files
/// failed to read, everything keeps the mark it had.
pub fn clears_present(files_failed: usize, files_seen: usize) -> (r: bool)
    ensures
        r == !too_many_failed(files_failed as nat, files_seen as nat),
{
    !is_unreliable(files_failed, files_seen)
}

/// The roots to scan, which there must be some of.
pub fn scan_library(roots: Vec<String>) -> (r: Result<Vec<FilePath>, Error>)
    ensures
        roots@.len() == 0 ==> r == Err::<Vec<FilePath>, Error>(Error::NoRoots),
        roots@.len() > 0 ==> (r matches Ok(paths) && paths@.len() == roots@.len() && forall|i: int|
            0 <= i < paths@.len() ==> (#[trigger] paths@[i])@ == crate::path::path_of(roots@[i]@)),
{
    if roots.len() == 0 {
        return Err(Error::NoRoots);
    }
    let mut paths: Vec<FilePath> = Vec::new();
    for i in 0..roots.len()
        invariant
            paths@.len() == i,
            forall|k: int|
                0 <= k < i ==> (#[trigger] paths@[k])@ == crate::path::path_of(roots@[k]@),
    {
        paths.push(FilePath::parse(&roots[i]));
    }
    Ok(paths)
}

/// Every file of a scan is counted once, and is read, taken from the cache or
/// failed; the tracks handed out are those that did not fail.
pub proof fn every_file_is_accounted_for(outcomes: Seq<ReadOutcome>)
    ensures
        ({
            let (cached, parsed, failed) = tallied(outcomes);
            &&& cached + parsed + failed == outcomes.len()
            &&& readable(outcomes).len() == cached + parsed
            &&& listed_errors(outcomes).len() <= MAX_LISTED_ERRORS
            &&& listed_errors(outcomes).len() == if failed < MAX_LISTED_ERRORS {
                failed
            } else {
                MAX_LISTED_ERRORS as int
            }
        }),
    decreases outcomes.len(),
{
    if outcomes.len() > 0 {
        every_file_is_accounted_for(outcomes.drop_last());
    }
}

} // verus!
