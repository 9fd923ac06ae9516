//! Measuring album loudness so playback volume is even between records.
//!
//! Most of a real library has no ReplayGain tags at all, which is exactly the
//! problem an album-first player cannot ignore: without it, every change of
//! album is a jump in volume.
//!
//! Loudness is measured by ffmpeg over the album's tracks **concatenated into one
//! stream**, because ReplayGain album gain is defined as the loudness of the whole
//! record played end to end, not the average of its tracks. This module writes the
//! playlist it reads and takes apart what it prints; the numbers themselves are
//! handed on as text. Results go in the database rather than into the audio files;
//! nothing here writes to the user's music.

use vstd::prelude::*;

use crate::group;
use crate::model::Real;
use crate::path;
use crate::path::FilePath;
use crate::path::PathView;
use crate::text;
use crate::text::{append_chars, append_text, chars_of, find_from, find_last, same_chars, slice_chars, split_of, text_of, white_space};

verus! {

/// How many failures a report lists.
pub const MAX_LISTED_ERRORS: usize = 50;

#[derive(Debug, Clone, Copy)]
pub struct Options {
    /// Re-measure albums that already have a stored measurement.
    pub force: bool,
    /// Albums analysed at once. The library usually lives on a network share,
    /// where too much parallelism slows everything down rather than speeding it
    /// up, so this stays modest by default.
    pub jobs: usize,
    /// Stop after this many albums. Useful for a trial run.
    pub limit: Option<usize>,
}

impl Default for Options {
    fn default() -> (r: Self)
        ensures
            r == (Options { force: false, jobs: 8, limit: None }),
    {
        Options { force: false, jobs: 8, limit: None }
    }
}

/// The query for the albums to measure.
pub open spec fn pending_query(force: bool) -> Seq<char> {
    if force {
        ALL_ALBUMS@
    } else {
        UNMEASURED_ALBUMS@
    }
}

/// How many albums are measured at once.
pub open spec fn at_once(jobs: usize) -> usize {
    if jobs < 1 {
        1
    } else {
        jobs
    }
}

impl Options {
    /// How many workers to start: as many as asked for, and at least one.
    pub fn workers(&self) -> (r: usize)
        ensures
            r == at_once(self.jobs),
    {
        if self.jobs < 1 {
            1
        } else {
            self.jobs
        }
    }

    /// The query for the albums to measure.
    ///
    /// Albums that already carry ReplayGain tags are left alone unless forced:
    /// whoever tagged them may have used a different reference, and overriding
    /// existing metadata is not this tool's job.
    pub fn pending_sql(&self) -> (r: &'static str)
        ensures
            r@ == pending_query(self.force),
    {
        if self.force {
            ALL_ALBUMS
        } else {
            UNMEASURED_ALBUMS
        }
    }
}

pub const ALL_ALBUMS: &'static str = "SELECT al.id, ar.name || ' — ' || al.title
 FROM album al JOIN artist ar ON ar.id = al.album_artist_id
 WHERE al.present = 1
 ORDER BY ar.sort_name, al.sort_title";

pub const UNMEASURED_ALBUMS: &'static str = "SELECT al.id, ar.name || ' — ' || al.title
 FROM album al JOIN artist ar ON ar.id = al.album_artist_id
 WHERE al.present = 1
   AND al.rg_gain_db IS NULL
   AND NOT EXISTS (SELECT 1 FROM track t
                    WHERE t.album_id = al.id AND t.rg_album_gain IS NOT NULL)
 ORDER BY ar.sort_name, al.sort_title";

/// An album awaiting measurement.
#[derive(Debug)]
pub struct Pending {
    pub id: i64,
    pub label: String,
    pub tracks: Vec<FilePath>,
}

/// Those of the albums that there is something to measure of.
pub open spec fn measurable(albums: Seq<Pending>) -> Seq<Pending>
    decreases albums.len(),
{
    if albums.len() == 0 {
        Seq::empty()
    } else if albums.last().tracks@.len() == 0 {
        measurable(albums.drop_last())
    } else {
        measurable(albums.drop_last()).push(albums.last())
    }
}

/// The front of a list, up to a limit.
pub open spec fn limited(albums: Seq<Pending>, limit: Option<usize>) -> Seq<Pending> {
    match limit {
        Some(n) if n < albums.len() => albums.take(n as int),
        _ => albums,
    }
}

/// The albums to measure: those that have tracks, up to the limit.
pub fn collect_pending(albums: Vec<Pending>, options: Options) -> (out: Vec<Pending>)
    ensures
        out@ == limited(measurable(albums@), options.limit),
{
    let ghost all = albums@;
    let limit = options.limit;
    let mut out: Vec<Pending> = Vec::new();
    assert(all.take(0) =~= Seq::empty());
    assert(out@ =~= limited(measurable(all.take(0)), limit));
    for album in it: albums.into_iter()
        invariant
            it.seq() == all,
            out@ == limited(measurable(all.take(it.index() as int)), limit),
    {
        let ghost i = it.index();
        let ghost before = measurable(all.take(i as int));
        assert(all.take(i + 1).drop_last() =~= all.take(i as int));
        assert(all.take(i + 1).last() == album);
        let room = match limit {
            Some(n) => out.len() < n,
            None => true,
        };
        if album.tracks.len() > 0 && room {
            out.push(album);
        }
        assert(out@ =~= limited(measurable(all.take(i + 1)), limit));
    }
    assert(all.take(all.len() as int) =~= all);
    out
}

/// A text between single quotes, with each quote in it closed, escaped and opened
/// again.
pub open spec fn quoted_inner(s: Seq<char>) -> Seq<char>
    decreases s.len(),
{
    if s.len() == 0 {
        Seq::empty()
    } else {
        let before = quoted_inner(s.drop_last());
        if s.last() == '\'' {
            before + seq!['\'', '\\', '\'', '\'']
        } else {
            before.push(s.last())
        }
    }
}

/// The playlist line for a file.
pub open spec fn playlist_line(p: PathView) -> Seq<char> {
    "file '"@ + quoted_inner(p.text()) + "'\n"@
}

/// The playlist for a list of files.
pub open spec fn playlist(paths: Seq<PathView>) -> Seq<char>
    decreases paths.len(),
{
    if paths.len() == 0 {
        Seq::empty()
    } else {
        playlist(paths.drop_last()) + playlist_line(paths.last())
    }
}

fn quote_inner(v: &Vec<char>) -> (out: Vec<char>)
    ensures
        out@ == quoted_inner(v@),
{
    let mut out: Vec<char> = Vec::new();
    for i in 0..v.len()
        invariant
            out@ == quoted_inner(v@.take(i as int)),
    {
        assert(v@.take(i + 1).drop_last() =~= v@.take(i as int));
        let ghost before = out@;
        if v[i] == '\'' {
            out.push('\'');
            out.push('\\');
            out.push('\'');
            out.push('\'');
            assert(out@ =~= before + seq!['\'', '\\', '\'', '\'']);
        } else {
            out.push(v[i]);
        }
    }
    assert(v@.take(v@.len() as int) =~= v@);
    out
}

/// Build a concat-demuxer playlist. Single quotes in paths are escaped the way the
/// demuxer expects, so filenames with apostrophes work.
pub fn concat_playlist(tracks: &[FilePath]) -> (r: String)
    ensures
        r@ == playlist(group::root_views(tracks@)),
{
    let ghost all = group::root_views(tracks@);
    let mut out: Vec<char> = Vec::new();
    assert(all.take(0) =~= Seq::empty());
    for i in 0..tracks.len()
        invariant
            all == group::root_views(tracks@),
            out@ == playlist(all.take(i as int)),
    {
        assert(all.take(i + 1).drop_last() =~= all.take(i as int));
        let ghost before = out@;
        append_text(&mut out, "file '");
        append_chars(&mut out, &quote_inner(&chars_of(&tracks[i].to_text())));
        append_text(&mut out, "'\n");
        assert(out@ =~= before + playlist_line(all[i as int]));
    }
    assert(all.take(all.len() as int) =~= all);
    text_of(&out)
}

/// The playlist that an album is measured from. An album without tracks has none.
pub fn album_playlist(tracks: &[FilePath]) -> (r: Result<String, String>)
    ensures
        match r {
            Ok(list) => tracks@.len() > 0 && list@ == playlist(group::root_views(tracks@)),
            Err(m) => tracks@.len() == 0 && m@ == "album has no tracks"@,
        },
{
    if tracks.len() == 0 {
        Err("album has no tracks".to_owned())
    } else {
        Ok(concat_playlist(tracks))
    }
}

/// A quoted text as the demuxer reads it, from inside the quotes: a quote closes,
/// and a closed text goes on when an escaped quote and an opening quote follow.
/// The text, and what is left behind its closing quote.
pub open spec fn read_quoted(s: Seq<char>) -> Option<(Seq<char>, Seq<char>)>
    decreases s.len(),
{
    if s.len() == 0 {
        None
    } else if s[0] != '\'' {
        match read_quoted(s.drop_first()) {
            Some((t, rest)) => Some((seq![s[0]] + t, rest)),
            None => None,
        }
    } else if s.len() >= 4 && s[1] == '\\' && s[2] == '\'' && s[3] == '\'' {
        match read_quoted(s.skip(4)) {
            Some((t, rest)) => Some((seq!['\''] + t, rest)),
            None => None,
        }
    } else {
        Some((Seq::empty(), s.drop_first()))
    }
}

proof fn lemma_quote_first(s: Seq<char>)
    requires
        s.len() > 0,
    ensures
        quoted_inner(s) == (if s[0] == '\'' {
            seq!['\'', '\\', '\'', '\'']
        } else {
            seq![s[0]]
        }) + quoted_inner(s.drop_first()),
    decreases s.len(),
{
    let first = if s[0] == '\'' {
        seq!['\'', '\\', '\'', '\'']
    } else {
        seq![s[0]]
    };
    if s.len() == 1 {
        assert(s.drop_last() =~= Seq::empty());
        assert(s.drop_first() =~= Seq::empty());
        assert(quoted_inner(s.drop_last()) =~= Seq::empty());
        assert(quoted_inner(s) =~= first + quoted_inner(s.drop_first()));
    } else {
        lemma_quote_first(s.drop_last());
        assert(s.drop_last().drop_first() =~= s.drop_first().drop_last());
        assert(quoted_inner(s) =~= first + quoted_inner(s.drop_first()));
    }
}

/// A path reads back from its playlist line whichever quotes it holds: the quoting
/// does not end early, and what follows the line is left over.
pub proof fn playlist_paths_read_back(s: Seq<char>, more: Seq<char>)
    ensures
        read_quoted(quoted_inner(s) + seq!['\'', '\n'] + more) == Some((s, seq!['\n'] + more)),
    decreases s.len(),
{
    let whole = quoted_inner(s) + seq!['\'', '\n'] + more;
    if s.len() == 0 {
        assert(quoted_inner(s) =~= Seq::empty());
        assert(whole[0] == '\'');
        assert(whole[1] == '\n');
        assert(whole.drop_first() =~= seq!['\n'] + more);
        assert(s =~= Seq::empty());
    } else {
        let rest = s.drop_first();
        playlist_paths_read_back(rest, more);
        lemma_quote_first(s);
        let tail = quoted_inner(rest) + seq!['\'', '\n'] + more;
        if s[0] == '\'' {
            assert(whole =~= seq!['\'', '\\', '\'', '\''] + tail);
            assert(whole.skip(4) =~= tail);
        } else {
            assert(whole =~= seq![s[0]] + tail);
            assert(whole.drop_first() =~= tail);
        }
        assert(seq![s[0]] + rest =~= s);
    }
}

/// A line without the carriage return in front of its line feed.
pub open spec fn chomped(s: Seq<char>) -> Seq<char> {
    if s.len() > 0 && s.last() == '\r' {
        s.drop_last()
    } else {
        s
    }
}

/// The lines of a text: up to each line feed, and what is left behind the last, if
/// anything is.
pub open spec fn lines(s: Seq<char>) -> Seq<Seq<char>> {
    let pieces = text::split(s, '\n');
    let ended = pieces.drop_last().map_values(|p: Seq<char>| chomped(p));
    if pieces.last().len() == 0 {
        ended
    } else {
        ended.push(pieces.last())
    }
}

fn lines_of(v: &Vec<char>) -> (out: Vec<Vec<char>>)
    ensures
        text::each_chars(out@) == lines(v@),
{
    let pieces = split_of(v, '\n');
    let ghost all = text::each_chars(pieces@);
    let n: usize = pieces.len();
    let mut out: Vec<Vec<char>> = Vec::new();
    for i in 0..n - 1
        invariant
            n == pieces@.len(),
            n >= 1,
            all == text::each_chars(pieces@),
            text::each_chars(out@) == all.take(i as int).map_values(|p: Seq<char>| chomped(p)),
    {
        let p = &pieces[i];
        assert(all[i as int] == p@);
        let line = if p.len() > 0 && p[p.len() - 1] == '\r' {
            slice_chars(p, 0, p.len() - 1)
        } else {
            slice_chars(p, 0, p.len())
        };
        assert(line@ =~= chomped(p@));
        let ghost before = out@;
        out.push(line);
        assert(text::each_chars(out@) =~= text::each_chars(before).push(line@));
        assert(all.take(i + 1).map_values(|p: Seq<char>| chomped(p)) =~= all.take(
            i as int,
        ).map_values(|p: Seq<char>| chomped(p)).push(chomped(all[i as int])));
    }
    assert(all.take(n - 1) =~= all.drop_last());
    let last = &pieces[n - 1];
    assert(all.last() == last@);
    if last.len() > 0 {
        let ghost before = out@;
        let line = slice_chars(last, 0, last.len());
        assert(line@ =~= last@);
        out.push(line);
        assert(text::each_chars(out@) =~= text::each_chars(before).push(last@));
    }
    out
}

/// The words of a text: its runs of characters that are not white space. The last
/// is open while `s` ends in such a character.
pub open spec fn words(s: Seq<char>) -> Seq<Seq<char>>
    decreases s.len(),
{
    if s.len() == 0 {
        Seq::empty()
    } else {
        let before = words(s.drop_last());
        if text::is_white_space(s.last()) {
            before
        } else if s.len() == 1 || text::is_white_space(s[s.len() - 2]) {
            before.push(seq![s.last()])
        } else {
            before.drop_last().push(before.last().push(s.last()))
        }
    }
}

proof fn lemma_words_open(s: Seq<char>)
    ensures
        s.len() > 0 && !text::is_white_space(s.last()) ==> words(s).len() > 0,
    decreases s.len(),
{
    if s.len() > 0 {
        lemma_words_open(s.drop_last());
    }
}

fn words_of(v: &Vec<char>) -> (out: Vec<Vec<char>>)
    ensures
        text::each_chars(out@) == words(v@),
{
    let mut out: Vec<Vec<char>> = Vec::new();
    assert(text::each_chars(out@) =~= words(v@.take(0)));
    for i in 0..v.len()
        invariant
            text::each_chars(out@) == words(v@.take(i as int)),
    {
        let ghost s = v@.take(i + 1);
        assert(s.drop_last() =~= v@.take(i as int));
        let ghost before = text::each_chars(out@);
        let ghost start = out@;
        if !white_space(v[i]) {
            if i == 0 || white_space(v[i - 1]) {
                let word: Vec<char> = vec![v[i]];
                assert(word@ =~= seq![v@[i as int]]);
                out.push(word);
                assert(text::each_chars(out@) =~= before.push(seq![v@[i as int]]));
            } else {
                proof {
                    lemma_words_open(v@.take(i as int));
                }
                let mut word = out.pop().unwrap();
                assert(before.last() == word@);
                word.push(v[i]);
                out.push(word);
                assert(text::each_chars(out@) =~= before.drop_last().push(
                    before.last().push(v@[i as int]),
                ));
            }
        }
    }
    assert(v@.take(v@.len() as int) =~= v@);
    out
}

/// The text behind the first `label` and before the next one.
pub open spec fn between(line: Seq<char>, label: Seq<char>) -> Option<Seq<char>> {
    match text::first_at(line, label, 0) {
        Some(i) => {
            let from = i + label.len();
            match text::first_at(line, label, from) {
                Some(j) => Some(line.subrange(from, j)),
                None => Some(line.skip(from)),
            }
        },
        None => None,
    }
}

/// The word that follows a label in a status line.
pub open spec fn word_after(line: Seq<char>, label: Seq<char>) -> Option<Seq<char>> {
    match between(line, label) {
        Some(s) => if words(s).len() > 0 {
            Some(words(s)[0])
        } else {
            None
        },
        None => None,
    }
}

fn field_after(line: &Vec<char>, label: &str) -> (r: Option<String>)
    ensures
        text::opt_text(r) == word_after(line@, label@),
{
    let l = chars_of(label);
    let n: usize = line.len();
    match find_from(line, &l, 0) {
        Some(i) => {
            let from: usize = i + l.len();
            let part = match find_from(line, &l, from) {
                Some(j) => slice_chars(line, from, j),
                None => slice_chars(line, from, n),
            };
            assert(between(line@, label@) == Some(part@)) by {
                assert(line@.subrange(from as int, n as int) =~= line@.skip(from as int));
            }
            let w = words_of(&part);
            assert(w@.len() == words(part@).len());
            if w.len() > 0 {
                assert(words(part@)[0] == w@[0]@);
                Some(text_of(&w[0]))
            } else {
                None
            }
        },
        None => None,
    }
}

/// The words up to the unit.
pub open spec fn before_unit(ws: Seq<Seq<char>>) -> Seq<Seq<char>>
    decreases ws.len(),
{
    if ws.len() == 0 || ws[0] == "dBFS"@ {
        Seq::empty()
    } else {
        seq![ws[0]] + before_unit(ws.drop_first())
    }
}

/// What a progress line reports: the loudness so far, and the peak of each
/// channel, as words.
pub struct Progress {
    pub loudness: Option<String>,
    pub peaks: Vec<String>,
}

/// What a [`Progress`] holds.
#[verifier::ext_equal]
pub struct ProgressView {
    pub loudness: Option<Seq<char>>,
    pub peaks: Seq<Seq<char>>,
}

impl View for Progress {
    type V = ProgressView;

    open spec fn view(&self) -> ProgressView {
        ProgressView { loudness: text::opt_text(self.loudness), peaks: path::texts(self.peaks@) }
    }
}

/// A line that carries the running totals.
pub open spec fn is_progress(line: Seq<char>) -> bool {
    text::first_at(line, "I:"@, 0) is Some && text::first_at(line, "TPK:"@, 0) is Some
}

/// What a progress line reports. The line also carries the per-frame peak, whose
/// label *contains* the label of the true peak; the last occurrence is the running
/// true peak.
pub open spec fn progress_of(line: Seq<char>) -> ProgressView {
    let i = text::last_at(line, "TPK:"@, line.len() as int);
    ProgressView {
        loudness: word_after(line, "I:"@),
        peaks: if i < 0 {
            Seq::empty()
        } else {
            before_unit(words(line.skip(i + "TPK:"@.len())))
        },
    }
}

/// What the progress lines of an output report, in order. The last one carries the
/// totals for everything decoded, which for a completed run is the whole album.
pub open spec fn progress_in(ls: Seq<Seq<char>>) -> Seq<ProgressView>
    decreases ls.len(),
{
    if ls.len() == 0 {
        Seq::empty()
    } else if is_progress(ls.last()) {
        progress_in(ls.drop_last()).push(progress_of(ls.last()))
    } else {
        progress_in(ls.drop_last())
    }
}

pub open spec fn progress_views(s: Seq<Progress>) -> Seq<ProgressView> {
    s.map_values(|p: Progress| p@)
}

fn peaks_of(line: &Vec<char>) -> (out: Vec<String>)
    ensures
        path::texts(out@) == progress_of(line@).peaks,
{
    let label = chars_of("TPK:");
    let unit = chars_of("dBFS");
    let mut out: Vec<String> = Vec::new();
    assert(path::texts(out@) =~= Seq::empty());
    let i: usize = match find_last(line, &label) {
        Some(i) => i,
        None => {
            return out;
        },
    };
    let n: usize = line.len();
    let rest = slice_chars(line, i + label.len(), n);
    assert(rest@ =~= line@.skip(i + label@.len()));
    let ws = words_of(&rest);
    let ghost all = words(rest@);
    let mut k: usize = 0;
    assert(all.skip(0) =~= all);
    assert(path::texts(out@) + before_unit(all) =~= before_unit(all));
    while k < ws.len() && !same_chars(&ws[k], &unit)
        invariant
            k <= ws@.len(),
            unit@ == "dBFS"@,
            all == text::each_chars(ws@),
            before_unit(all) == path::texts(out@) + before_unit(all.skip(k as int)),
        decreases ws@.len() - k,
    {
        let ghost before = path::texts(out@);
        assert(all.skip(k as int)[0] == ws@[k as int]@);
        assert(all.skip(k as int).drop_first() =~= all.skip(k + 1));
        let word = text_of(&ws[k]);
        out.push(word);
        assert(path::texts(out@) =~= before.push(word@));
        assert(before + (seq![all[k as int]] + before_unit(all.skip(k + 1))) =~= path::texts(out@)
            + before_unit(all.skip(k + 1)));
        k += 1;
    }
    assert(k < ws@.len() ==> all.skip(k as int)[0] == ws@[k as int]@);
    assert(path::texts(out@) + Seq::<Seq<char>>::empty() =~= path::texts(out@));
    out
}

/// Pull the reports on loudness and true peak out of ffmpeg's output, in order.
///
/// Reading the progress lines rather than a summary block sidesteps the extra
/// summaries ffmpeg emits whenever the filter graph reconfigures mid-stream.
pub fn parse_ebur128(stderr: &str) -> (r: Vec<Progress>)
    ensures
        progress_views(r@) == progress_in(lines(stderr@)),
{
    let ls = lines_of(&chars_of(stderr));
    let ghost all = text::each_chars(ls@);
    let integrated = chars_of("I:");
    let peak = chars_of("TPK:");
    let mut out: Vec<Progress> = Vec::new();
    assert(progress_views(out@) =~= progress_in(all.take(0)));
    for i in 0..ls.len()
        invariant
            all == text::each_chars(ls@),
            integrated@ == "I:"@,
            peak@ == "TPK:"@,
            progress_views(out@) == progress_in(all.take(i as int)),
    {
        assert(all.take(i + 1).drop_last() =~= all.take(i as int));
        assert(all.take(i + 1).last() == ls@[i as int]@);
        let line = &ls[i];
        if find_from(line, &integrated, 0).is_some() && find_from(line, &peak, 0).is_some() {
            let ghost before = out@;
            let p = Progress { loudness: field_after(line, "I:"), peaks: peaks_of(line) };
            assert(p@ =~= progress_of(line@));
            out.push(p);
            assert(progress_views(out@) =~= progress_views(before).push(p@));
        }
    }
    assert(all.take(all.len() as int) =~= all);
    out
}

/// What one progress line says in numbers: the loudness, and the peak of the
/// loudest channel, where the line has one.
#[derive(Debug, Clone, Copy)]
pub struct Reading {
    pub loudness: Option<Real>,
    pub peak: Option<Real>,
}

/// The last loudness among some readings.
pub open spec fn last_loudness(readings: Seq<Reading>) -> Option<Real>
    decreases readings.len(),
{
    if readings.len() == 0 {
        None
    } else if readings.last().loudness is Some {
        readings.last().loudness
    } else {
        last_loudness(readings.drop_last())
    }
}

/// The last peak among some readings.
pub open spec fn last_peak(readings: Seq<Reading>) -> Option<Real>
    decreases readings.len(),
{
    if readings.len() == 0 {
        None
    } else if readings.last().peak is Some {
        readings.last().peak
    } else {
        last_peak(readings.drop_last())
    }
}

/// The loudness and the peak of an album, where it has a loudness.
pub open spec fn album_totals(readings: Seq<Reading>) -> Option<(Real, Option<Real>)> {
    match last_loudness(readings) {
        Some(loudness) => Some((loudness, last_peak(readings))),
        None => None,
    }
}

/// The totals for everything decoded: the last loudness and the last peak, which
/// need not stand on one line. Without a loudness there is no measurement.
pub fn totals(readings: &Vec<Reading>) -> (r: Option<(Real, Option<Real>)>)
    ensures
        r == album_totals(readings@),
{
    let mut loudness: Option<Real> = None;
    let mut peak: Option<Real> = None;
    for i in 0..readings.len()
        invariant
            loudness == last_loudness(readings@.take(i as int)),
            peak == last_peak(readings@.take(i as int)),
    {
        assert(readings@.take(i + 1).drop_last() =~= readings@.take(i as int));
        if readings[i].loudness.is_some() {
            loudness = readings[i].loudness;
        }
        if readings[i].peak.is_some() {
            peak = readings[i].peak;
        }
    }
    assert(readings@.take(readings@.len() as int) =~= readings@);
    match loudness {
        Some(loudness) => Some((loudness, peak)),
        None => None,
    }
}

/// The lines that are not blank.
pub open spec fn written(ls: Seq<Seq<char>>) -> Seq<Seq<char>>
    decreases ls.len(),
{
    if ls.len() == 0 {
        Seq::empty()
    } else if text::is_blank(ls.last()) {
        written(ls.drop_last())
    } else {
        written(ls.drop_last()).push(ls.last())
    }
}

/// The last three of a list, last first.
pub open spec fn last_three(s: Seq<Seq<char>>) -> Seq<Seq<char>> {
    let n = s.len() as int;
    if n >= 3 {
        seq![s[n - 1], s[n - 2], s[n - 3]]
    } else if n == 2 {
        seq![s[1], s[0]]
    } else {
        s
    }
}

/// The message for output without a measurement: the end of what was printed.
pub fn no_loudness(stderr: &str) -> (r: String)
    ensures
        r@ == "no loudness in ffmpeg output: "@ + text::join(
            last_three(written(lines(stderr@))),
            " / "@,
        ),
{
    let ls = lines_of(&chars_of(stderr));
    let ghost all = text::each_chars(ls@);
    let mut kept: Vec<Vec<char>> = Vec::new();
    assert(text::each_chars(kept@) =~= written(all.take(0)));
    for i in 0..ls.len()
        invariant
            all == text::each_chars(ls@),
            text::each_chars(kept@) == written(all.take(i as int)),
    {
        assert(all.take(i + 1).drop_last() =~= all.take(i as int));
        assert(all.take(i + 1).last() == ls@[i as int]@);
        if text::trim_of(&ls[i]).len() > 0 {
            let ghost before = kept@;
            let line = slice_chars(&ls[i], 0, ls[i].len());
            assert(line@ =~= ls@[i as int]@);
            kept.push(line);
            assert(text::each_chars(kept@) =~= text::each_chars(before).push(line@));
        }
    }
    assert(all.take(all.len() as int) =~= all);
    let ghost w = text::each_chars(kept@);
    let mut tail: Vec<Vec<char>> = Vec::new();
    while tail.len() < 3 && kept.len() > 0
        invariant
            tail@.len() <= 3,
            kept@.len() + tail@.len() == w.len(),
            text::each_chars(kept@) == w.take(kept@.len() as int),
            forall|k: int|
                0 <= k < tail@.len() ==> (#[trigger] tail@[k])@ == w[w.len() - 1 - k],
        decreases kept@.len(),
    {
        let ghost before = kept@;
        let line = kept.pop().unwrap();
        assert(text::each_chars(before).last() == line@);
        assert(text::each_chars(kept@) =~= text::each_chars(before).drop_last());
        assert(w.take(before.len() as int).drop_last() =~= w.take(before.len() - 1));
        tail.push(line);
    }
    assert(text::each_chars(tail@) =~= last_three(w));
    let mut out = chars_of("no loudness in ffmpeg output: ");
    append_chars(&mut out, &text::join_of(&tail, &chars_of(" / ")));
    text_of(&out)
}

/// How the measurement of one album went.
pub enum Outcome {
    Measured,
    /// There was no measurable audio.
    Silent,
    Failed(String),
}

#[derive(Debug)]
pub struct Report {
    pub considered: usize,
    pub measured: usize,
    pub failed: usize,
    pub silent: usize,
    pub errors: Vec<(String, String)>,
    pub duration_ms: u128,
}

/// What is listed for an album that was not measured.
pub open spec fn problem(outcome: Outcome) -> Option<Seq<char>> {
    match outcome {
        Outcome::Measured => None,
        Outcome::Silent => Some("no measurable audio (silent)"@),
        Outcome::Failed(why) => Some(why@),
    }
}

/// A report after one more album came out so.
pub open spec fn noted(before: Report, after: Report, label: String, outcome: Outcome) -> bool {
    &&& after.considered == before.considered
    &&& after.duration_ms == before.duration_ms
    &&& after.measured == before.measured + if outcome is Measured {
        1int
    } else {
        0
    }
    &&& after.silent == before.silent + if outcome is Silent {
        1int
    } else {
        0
    }
    &&& after.failed == before.failed + if outcome is Failed {
        1int
    } else {
        0
    }
    &&& match problem(outcome) {
        Some(why) => if before.errors@.len() < MAX_LISTED_ERRORS {
            &&& after.errors@.len() == before.errors@.len() + 1
            &&& after.errors@.drop_last() == before.errors@
            &&& after.errors@.last().0 == label
            &&& after.errors@.last().1@ == why
        } else {
            after.errors@ == before.errors@
        },
        None => after.errors@ == before.errors@,
    }
}

impl Report {
    /// A report on so many albums, none of which was measured yet.
    pub fn new(considered: usize) -> (r: Report)
        ensures
            r.considered == considered,
            r.measured == 0,
            r.failed == 0,
            r.silent == 0,
            r.errors@.len() == 0,
            r.duration_ms == 0,
    {
        Report {
            considered,
            measured: 0,
            failed: 0,
            silent: 0,
            errors: Vec::new(),
            duration_ms: 0,
        }
    }

    /// How many albums have been dealt with.
    pub open spec fn settled(self) -> int {
        self.measured + self.failed + self.silent
    }

    /// Note how one more album went. The first problems are listed. The number of
    /// albums dealt with so far is returned.
    pub fn note(&mut self, label: &String, outcome: Outcome) -> (done: usize)
        requires
            old(self).settled() < old(self).considered,
        ensures
            done == final(self).settled(),
            final(self).settled() == old(self).settled() + 1,
            noted(*old(self), *final(self), *label, outcome),
    {
        let ghost start = self.errors@;
        let why = match outcome {
            Outcome::Measured => {
                self.measured = self.measured + 1;
                None
            },
            Outcome::Silent => {
                self.silent = self.silent + 1;
                Some("no measurable audio (silent)".to_owned())
            },
            Outcome::Failed(why) => {
                self.failed = self.failed + 1;
                Some(why)
            },
        };
        if let Some(why) = why {
            if self.errors.len() < MAX_LISTED_ERRORS {
                self.errors.push((label.clone(), why));
                assert(self.errors@.drop_last() =~= start);
            }
        }
        self.measured + self.failed + self.silent
    }
}

} // verus!
