//! What completing a library promises: how patiently the cover services are
//! asked, what is asked of them, what counts as an answer, and what is read off
//! the loudness meter's log.

use vstd::prelude::*;

use crate::artwork;
use crate::artwork::{NextView, Reply, Service};
use crate::path;
use crate::path::PathView;
use crate::query_laws::ends_in;
use crate::replaygain;
use crate::replaygain::{Pending, Reading};
use crate::text;
use crate::text_laws;

verus! {

/// A service that is overloaded is asked again after two, four and eight seconds,
/// and given up on at the fourth refusal. Any other refusal is final at once.
pub proof fn busy_services_are_asked_again(
    service: Service,
    attempt: u32,
    status: u16,
    said: String,
)
    requires
        attempt >= 1,
    ensures
        ({
            let next = artwork::next_step(service, attempt, Reply::Status(status, said));
            let busy = status == 429 || status == 500 || 502 <= status <= 504;
            &&& busy && attempt == 1 ==> next == NextView::Retry(2000)
            &&& busy && attempt == 2 ==> next == NextView::Retry(4000)
            &&& busy && attempt == 3 ==> next == NextView::Retry(8000)
            &&& busy && attempt >= 4 ==> next is Fail
            &&& !busy ==> !(next is Retry) && !(next is Read)
        }),
{
}

/// What a service does not have is no failure: a 404 says so everywhere, and the
/// archive says it with a 400 too. Every other refusal that is not a matter of
/// patience is a failure.
pub proof fn missing_covers_are_no_failure(
    service: Service,
    attempt: u32,
    status: u16,
    said: String,
)
    ensures
        ({
            let next = artwork::next_step(service, attempt, Reply::Status(status, said));
            &&& status == 404 ==> next is Nothing
            &&& status == 400 ==> (next is Nothing <==> service is CoverArtArchive)
            &&& status == 400 && service is MusicBrainz ==> next is Fail
            &&& next is Nothing ==> status == 404 || status == 400
            &&& status == 401 || status == 403 || status == 501 || status == 505 ==> next is Fail
        }),
{
}

/// A success is read, and a connection that failed is a failure that names the
/// service and the reason; neither is tried again.
pub proof fn answers_are_read_once(service: Service, attempt: u32, why: String)
    ensures
        artwork::next_step(service, attempt, Reply::Body) is Read,
        artwork::next_step(service, attempt, Reply::Failed(why)) matches NextView::Fail(m) && {
            &&& m.len() > why@.len()
            &&& m.skip(m.len() - why@.len()) == why@
            &&& service is MusicBrainz ==> "MusicBrainz"@.is_prefix_of(m)
            &&& service is CoverArtArchive ==> "cover art archive"@.is_prefix_of(m)
        },
{
    let name = artwork::service_name(service);
    let m = name + ": "@ + why@;
    reveal_strlit(": ");
    assert(m.skip(m.len() - why@.len()) =~= why@);
    assert(m.take(name.len() as int) =~= name);
}

/// Requests go out no closer than 1.1 seconds apart and wait no longer than that
/// asks; the first one waits for nothing.
pub proof fn requests_wait_just_long_enough(last: u64, now: u64)
    requires
        last <= now,
    ensures
        artwork::pause_needed(None, now) == 0,
        now - last >= 1100 ==> artwork::pause_needed(Some(last), now) == 0,
        now - last < 1100 ==> now + artwork::pause_needed(Some(last), now) == last + 1100,
{
}

/// Every character with a meaning in a search is taken literally, and no other is
/// touched.
pub proof fn search_syntax_is_escaped(c: char)
    ensures
        artwork::lucene_syntax().contains(c) <==> "+-&|!(){}[]^\"~*?:\\/"@.contains(c),
        text::escaped(seq![c], artwork::lucene_syntax()) == if "+-&|!(){}[]^\"~*?:\\/"@.contains(c) {
            seq!['\\', c]
        } else {
            seq![c]
        },
{
    reveal_strlit("+-&|!(){}[]^\"~*?:\\/");
    assert(artwork::lucene_syntax() =~= "+-&|!(){}[]^\"~*?:\\/"@);
    assert(seq![c].drop_last() =~= Seq::empty());
    assert(text::escaped(seq![c].drop_last(), artwork::lucene_syntax()) =~= Seq::empty());
    assert(text::escaped(seq![c], artwork::lucene_syntax()) =~= if artwork::lucene_syntax().contains(c) {
        seq!['\\', c]
    } else {
        seq![c]
    });
}

/// An address holds letters, digits, `-`, `_`, `.` and `~` as they are, and
/// everything else as a per cent sign and two hexadecimal digits.
pub proof fn addresses_hold_safe_characters(bytes: Seq<u8>, i: int)
    requires
        0 <= i < artwork::percent_encoded(bytes).len(),
    ensures
        ({
            let c = artwork::percent_encoded(bytes)[i];
            ||| 'a' <= c <= 'z'
            ||| 'A' <= c <= 'Z'
            ||| '0' <= c <= '9'
            ||| "-_.~%"@.contains(c)
        }),
    decreases bytes.len(),
{
    reveal_strlit("-_.~%");
    let safe = "-_.~%"@;
    assert(safe[0] == '-' && safe[1] == '_' && safe[2] == '.' && safe[3] == '~' && safe[4] == '%');
    let before = artwork::percent_encoded(bytes.drop_last());
    let b = bytes.last();
    if i < before.len() {
        addresses_hold_safe_characters(bytes.drop_last(), i);
    } else if artwork::is_unreserved(b) {
        assert(artwork::percent_encoded(bytes)[i] == b as char);
    } else {
        assert(0 <= b as int / 16 < 16);
        assert(0 <= b as int % 16 < 16);
    }
}

/// A search asks for the album's artist and its release, in that order, word for
/// word: undoing the address's and the search's escapes gives both back.
pub proof fn searches_ask_for_the_album(artist: Seq<char>, title: Seq<char>)
    ensures
        exists|q: Seq<char>, a: Seq<char>, t: Seq<char>|
            {
                &&& #[trigger] artwork::search_address(artist, title)
                    == "https://musicbrainz.org/ws/2/release/?query="@ + q + "&fmt=json&limit=3"@
                &&& artwork::percent_decoded(q) == vstd::utf8::encode_utf8(
                    "artist:"@ + a + " AND release:"@ + t,
                )
                &&& #[trigger] text::unescaped(a) == artist
                &&& #[trigger] text::unescaped(t) == title
                &&& q == #[trigger] artwork::percent_encoded(artwork::percent_decoded(q))
            },
{
    let a = text::escaped(artist, artwork::lucene_syntax());
    let t = text::escaped(title, artwork::lucene_syntax());
    let bytes = vstd::utf8::encode_utf8("artist:"@ + a + " AND release:"@ + t);
    let q = artwork::percent_encoded(bytes);
    artwork::encoded_values_read_back(bytes);
    artwork::searches_are_literal(artist);
    artwork::searches_are_literal(title);
    assert(artwork::search_address(artist, title) == "https://musicbrainz.org/ws/2/release/?query="@ + q
        + "&fmt=json&limit=3"@);
}

/// The releases that are named are kept, in their order, and the others dropped.
pub proof fn named_releases_keep_their_order(
    a: Seq<Option<Seq<char>>>,
    b: Seq<Option<Seq<char>>>,
    id: Seq<char>,
)
    ensures
        artwork::present(seq![Some(id)]) == seq![id],
        artwork::present(seq![None::<Seq<char>>]) == Seq::<Seq<char>>::empty(),
        artwork::present(a + b) == artwork::present(a) + artwork::present(b),
    decreases b.len(),
{
    assert(seq![Some(id)].drop_last() =~= Seq::empty());
    assert(seq![None::<Seq<char>>].drop_last() =~= Seq::empty());
    assert(artwork::present(Seq::<Option<Seq<char>>>::empty()) =~= Seq::empty());
    assert(artwork::present(seq![Some(id)]) =~= seq![id]);
    if b.len() == 0 {
        assert(a + b =~= a);
        assert(artwork::present(a) + artwork::present(b) =~= artwork::present(a));
    } else {
        named_releases_keep_their_order(a, b.drop_last(), id);
        assert((a + b).drop_last() =~= a + b.drop_last());
        assert((a + b).last() == b.last());
        assert(artwork::present(a + b) =~= artwork::present(a) + artwork::present(b));
    }
}

/// JPEG, PNG and WebP files are known by their first bytes, whatever follows, and
/// nothing else passes for an image.
pub proof fn images_go_by_their_first_bytes(b: Seq<u8>, more: Seq<u8>, size: Seq<u8>)
    requires
        size.len() == 4,
        more.len() > 0,
    ensures
        artwork::is_image(seq![0xffu8, 0xd8, 0xff] + more),
        artwork::is_image(seq![0x89u8, 0x50, 0x4e, 0x47] + more),
        artwork::is_image(seq![0x52u8, 0x49, 0x46, 0x46] + size + seq![0x57u8, 0x45, 0x42, 0x50] + more),
        artwork::is_image(b) ==> {
            ||| seq![0xffu8, 0xd8, 0xff].is_prefix_of(b)
            ||| seq![0x89u8, 0x50, 0x4e, 0x47].is_prefix_of(b)
            ||| seq![0x52u8, 0x49, 0x46, 0x46].is_prefix_of(b) && b.len() > 12 && b.subrange(8, 12)
                == seq![0x57u8, 0x45, 0x42, 0x50]
        },
{
    if artwork::is_image(b) {
        if b[0] == 0xff {
            assert(b.take(3) =~= seq![0xffu8, 0xd8, 0xff]);
        } else if b[0] == 0x89 {
            assert(b.take(4) =~= seq![0x89u8, 0x50, 0x4e, 0x47]);
        } else {
            assert(b.take(4) =~= seq![0x52u8, 0x49, 0x46, 0x46]);
            assert(b.subrange(8, 12) =~= seq![0x57u8, 0x45, 0x42, 0x50]);
        }
    }
}

/// Albums with a track to play are measured, in their order, and the others left
/// out.
pub proof fn albums_with_tracks_are_measured(a: Seq<Pending>, b: Seq<Pending>, one: Pending)
    ensures
        one.tracks@.len() > 0 ==> replaygain::measurable(seq![one]) == seq![one],
        one.tracks@.len() == 0 ==> replaygain::measurable(seq![one]) == Seq::<Pending>::empty(),
        replaygain::measurable(a + b) == replaygain::measurable(a) + replaygain::measurable(b),
    decreases b.len(),
{
    assert(seq![one].drop_last() =~= Seq::empty());
    assert(replaygain::measurable(seq![one].drop_last()) =~= Seq::empty());
    assert(one.tracks@.len() > 0 ==> replaygain::measurable(seq![one]) =~= seq![one]);
    if b.len() == 0 {
        assert(a + b =~= a);
        assert(replaygain::measurable(a) + replaygain::measurable(b) =~= replaygain::measurable(a));
    } else {
        albums_with_tracks_are_measured(a, b.drop_last(), one);
        assert((a + b).drop_last() =~= a + b.drop_last());
        assert((a + b).last() == b.last());
        assert(replaygain::measurable(a + b) =~= replaygain::measurable(a) + replaygain::measurable(b));
    }
}

/// A limit keeps the first albums, as many as it says or all there are.
pub proof fn a_limit_keeps_the_first_albums(albums: Seq<Pending>, n: usize)
    ensures
        replaygain::limited(albums, None) == albums,
        replaygain::limited(albums, Some(n)).is_prefix_of(albums),
        replaygain::limited(albums, Some(n)).len() == n || (replaygain::limited(albums, Some(n))
            == albums && albums.len() < n),
{
    assert(albums.take(albums.len() as int) =~= albums);
}

/// A playlist names every file on a line of its own, in order, so that the player
/// reads each path back.
pub proof fn playlists_name_every_file(a: Seq<PathView>, b: Seq<PathView>, p: PathView)
    ensures
        replaygain::playlist(a + b) == replaygain::playlist(a) + replaygain::playlist(b),
        "file '"@.is_prefix_of(replaygain::playlist(seq![p])),
        replaygain::read_quoted(replaygain::playlist(seq![p]).skip(6)) == Some((p.text(), seq!['\n'])),
    decreases b.len(),
{
    reveal_strlit("file '");
    reveal_strlit("'\n");
    let none = Seq::<PathView>::empty();
    assert(seq![p].drop_last() =~= none);
    assert(replaygain::playlist(none) =~= Seq::empty());
    let line = replaygain::playlist_line(p);
    assert(replaygain::playlist(seq![p]) =~= line);
    assert(line.take(6) =~= "file '"@);
    replaygain::playlist_paths_read_back(p.text(), Seq::empty());
    assert(line.skip(6) =~= replaygain::quoted_inner(p.text()) + seq!['\'', '\n'] + Seq::empty());
    assert(seq!['\n'] + Seq::<char>::empty() =~= seq!['\n']);
    if b.len() == 0 {
        assert(a + b =~= a);
        assert(replaygain::playlist(a) + replaygain::playlist(b) =~= replaygain::playlist(a));
    } else {
        playlists_name_every_file(a, b.drop_last(), p);
        assert((a + b).drop_last() =~= a + b.drop_last());
        assert((a + b).last() == b.last());
        assert(replaygain::playlist(a + b) =~= replaygain::playlist(a) + replaygain::playlist(b));
    }
}

/// The meter's last word counts: a loudness and a peak are those of the latest
/// line that gives one, and they are missing only where no line does.
pub proof fn the_latest_reading_counts(readings: Seq<Reading>, i: int)
    requires
        0 <= i < readings.len(),
        forall|j: int| i < j < readings.len() ==> (#[trigger] readings[j]).loudness is None,
        forall|j: int| i < j < readings.len() ==> (#[trigger] readings[j]).peak is None,
    ensures
        readings[i].loudness is Some ==> replaygain::last_loudness(readings)
            == readings[i].loudness,
        readings[i].peak is Some ==> replaygain::last_peak(readings) == readings[i].peak,
        (forall|j: int| 0 <= j <= i ==> (#[trigger] readings[j]).loudness is None)
            <==> replaygain::last_loudness(readings) is None,
        (forall|j: int| 0 <= j <= i ==> (#[trigger] readings[j]).peak is None)
            <==> replaygain::last_peak(readings) is None,
    decreases readings.len(),
{
    lemma_latest(readings);
    let front = readings.drop_last();
    if i < front.len() {
        assert(readings.last() == readings[readings.len() - 1]);
        the_latest_reading_counts(front, i);
        assert(forall|j: int| 0 <= j <= i ==> readings[j] == front[j]);
        if forall|j: int| 0 <= j <= i ==> (#[trigger] readings[j]).loudness is None {
            assert forall|j: int| 0 <= j <= i implies (#[trigger] front[j]).loudness is None by {
                assert(front[j] == readings[j]);
            }
        }
        if forall|j: int| 0 <= j <= i ==> (#[trigger] readings[j]).peak is None {
            assert forall|j: int| 0 <= j <= i implies (#[trigger] front[j]).peak is None by {
                assert(front[j] == readings[j]);
            }
        }
    }
}

proof fn lemma_latest(readings: Seq<Reading>)
    ensures
        replaygain::last_loudness(readings) is None <==> forall|j: int|
            0 <= j < readings.len() ==> (#[trigger] readings[j]).loudness is None,
        replaygain::last_peak(readings) is None <==> forall|j: int|
            0 <= j < readings.len() ==> (#[trigger] readings[j]).peak is None,
    decreases readings.len(),
{
    if readings.len() > 0 {
        let front = readings.drop_last();
        lemma_latest(front);
        assert(forall|j: int| 0 <= j < front.len() ==> front[j] == readings[j]);
        assert(readings.last() == readings[readings.len() - 1]);
        if replaygain::last_loudness(readings) is None {
            assert forall|j: int| 0 <= j < readings.len() implies (#[trigger] readings[j]).loudness is None by {
                if j < front.len() {
                    assert(front[j].loudness is None);
                }
            }
        }
        if replaygain::last_peak(readings) is None {
            assert forall|j: int| 0 <= j < readings.len() implies (#[trigger] readings[j]).peak is None by {
                if j < front.len() {
                    assert(front[j].peak is None);
                }
            }
        }
    }
}

/// Words are what white space sets apart: two texts with a white space between
/// them have the words of the one and then of the other, and a text without any
/// is one word.
pub proof fn white_space_sets_words_apart(a: Seq<char>, gap: char, b: Seq<char>)
    requires
        text::is_white_space(gap),
    ensures
        replaygain::words(a + seq![gap] + b) == replaygain::words(a) + replaygain::words(b),
        a.len() > 0 && (forall|i: int| 0 <= i < a.len() ==> !text::is_white_space(#[trigger] a[i]))
            ==> replaygain::words(a) == seq![a],
    decreases a.len() + b.len(),
{
    lemma_one_word(a);
    let s = a + seq![gap] + b;
    let front = s.drop_last();
    if b.len() == 0 {
        assert(front =~= a);
        assert(b =~= Seq::empty());
        assert(replaygain::words(a) + replaygain::words(b) =~= replaygain::words(a));
    } else {
        white_space_sets_words_apart(a, gap, b.drop_last());
        assert(front =~= a + seq![gap] + b.drop_last());
        assert(s.last() == b.last());
        let wa = replaygain::words(a);
        let wb = replaygain::words(b.drop_last());
        if !text::is_white_space(b.last()) {
            assert(s[s.len() - 2] == if b.len() == 1 { gap } else { b[b.len() - 2] });
            if b.len() == 1 || text::is_white_space(b[b.len() - 2]) {
                assert((wa + wb).push(seq![b.last()]) =~= wa + wb.push(seq![b.last()]));
            } else {
                lemma_open_word(b.drop_last());
                assert((wa + wb).drop_last().push((wa + wb).last().push(b.last())) =~= wa
                    + wb.drop_last().push(wb.last().push(b.last())));
            }
        }
    }
}

proof fn lemma_open_word(s: Seq<char>)
    requires
        s.len() > 0,
        !text::is_white_space(s.last()),
    ensures
        replaygain::words(s).len() > 0,
    decreases s.len(),
{
    if s.len() > 1 && !text::is_white_space(s[s.len() - 2]) {
        lemma_open_word(s.drop_last());
    }
}

proof fn lemma_one_word(a: Seq<char>)
    ensures
        a.len() > 0 && (forall|i: int| 0 <= i < a.len() ==> !text::is_white_space(#[trigger] a[i]))
            ==> replaygain::words(a) == seq![a],
    decreases a.len(),
{
    if a.len() > 0 && (forall|i: int| 0 <= i < a.len() ==> !text::is_white_space(#[trigger] a[i])) {
        assert(a.last() == a[a.len() - 1]);
        if a.len() == 1 {
            assert(a.drop_last() =~= Seq::empty());
            assert(seq![a.last()] =~= a);
            assert(replaygain::words(a.drop_last()) =~= Seq::empty());
            assert(replaygain::words(a) =~= seq![a]);
        } else {
            assert forall|i: int| 0 <= i < a.drop_last().len() implies !text::is_white_space(
                #[trigger] a.drop_last()[i],
            ) by {
                assert(a[i] == a.drop_last()[i]);
            }
            lemma_one_word(a.drop_last());
            assert(a.drop_last().push(a.last()) =~= a);
            assert(!text::is_white_space(a[a.len() - 2]));
            let before = replaygain::words(a.drop_last());
            assert(before == seq![a.drop_last()]);
            assert(replaygain::words(a) == before.drop_last().push(before.last().push(a.last())));
            assert(replaygain::words(a) =~= seq![a]);
        }
    }
}

/// A line ends at a line feed, with or without a carriage return before it, and
/// what follows the last line feed is a line only if there is something.
pub proof fn line_feeds_end_lines(a: Seq<char>, b: Seq<char>)
    requires
        !a.contains('\n'),
        a.len() > 0 ==> a.last() != '\r',
    ensures
        replaygain::lines(Seq::empty()) == Seq::<Seq<char>>::empty(),
        a.len() > 0 ==> replaygain::lines(a) == seq![a],
        replaygain::lines(a + seq!['\n'] + b) == seq![a] + replaygain::lines(b),
        replaygain::lines(a + seq!['\r', '\n'] + b) == seq![a] + replaygain::lines(b),
{
    let none = Seq::<char>::empty();
    assert(text::split(none, '\n').drop_last() =~= Seq::empty());
    assert(replaygain::lines(none) =~= Seq::empty());
    text_laws::texts_come_apart_at_each_separator(a, b, '\n');
    assert(seq![a].drop_last() =~= Seq::empty());
    assert(a.len() > 0 ==> replaygain::lines(a) =~= seq![a]);
    lemma_lines(a, b);
    assert(replaygain::chomped(a) == a);
    let r = a.push('\r');
    assert(!r.contains('\n')) by {
        if r.contains('\n') {
            let i = choose|i: int| 0 <= i < r.len() && r[i] == '\n';
            assert(a[i] == '\n');
        }
    }
    lemma_lines(r, b);
    assert(r.drop_last() =~= a);
    assert(r + seq!['\n'] + b =~= a + seq!['\r', '\n'] + b);
}

proof fn lemma_lines(a: Seq<char>, b: Seq<char>)
    requires
        !a.contains('\n'),
    ensures
        replaygain::lines(a + seq!['\n'] + b) == seq![replaygain::chomped(a)] + replaygain::lines(b),
{
    text_laws::texts_come_apart_at_each_separator(a, b, '\n');
    text_laws::lemma_split_has_pieces(b, '\n');
    let rest = text::split(b, '\n');
    let all = seq![a] + rest;
    assert(all.drop_last() =~= seq![a] + rest.drop_last());
    assert(all.last() == rest.last());
    let ended = all.drop_last().map_values(|p: Seq<char>| replaygain::chomped(p));
    assert(ended =~= seq![replaygain::chomped(a)] + rest.drop_last().map_values(
        |p: Seq<char>| replaygain::chomped(p),
    ));
    assert(replaygain::lines(a + seq!['\n'] + b) =~= seq![replaygain::chomped(a)]
        + replaygain::lines(b));
}

/// The loudness on a progress line is the word behind its label, and the peaks are
/// the words behind the last peak label, up to their unit.
pub proof fn progress_lines_are_read(
    before: Seq<char>,
    gap: char,
    word: Seq<char>,
    next: char,
    after: Seq<char>,
    peaks_at: int,
)
    requires
        text::is_white_space(gap),
        text::is_white_space(next),
        word.len() > 0,
        forall|i: int| 0 <= i < word.len() ==> !text::is_white_space(#[trigger] word[i]),
        ({
            let line = before + "I:"@ + seq![gap] + word + seq![next] + after;
            &&& forall|k: int|
                0 <= k <= line.len() - 2 && k != before.len() ==> #[trigger] line.subrange(k, k + 2)
                    != "I:"@
            &&& 0 <= peaks_at <= line.len() - 4
            &&& line.subrange(peaks_at, peaks_at + 4) == "TPK:"@
            &&& forall|k: int|
                peaks_at < k <= line.len() - 4 ==> #[trigger] line.subrange(k, k + 4) != "TPK:"@
        }),
    ensures
        ({
            let line = before + "I:"@ + seq![gap] + word + seq![next] + after;
            &&& replaygain::is_progress(line)
            &&& replaygain::progress_of(line).loudness == Some(word)
            &&& replaygain::progress_of(line).peaks == replaygain::before_unit(
                replaygain::words(line.skip(peaks_at + 4)),
            )
        }),
{
    reveal_strlit("I:");
    reveal_strlit("TPK:");
    let line = before + "I:"@ + seq![gap] + word + seq![next] + after;
    let at = before.len() as int;
    let from = at + 2;
    assert(line.subrange(at, at + 2) =~= "I:"@);
    text_laws::searches_find_the_first_place(line, "I:"@, 0);
    assert(text::first_at(line, "I:"@, 0) == Some(at));
    text_laws::searches_find_the_first_place(line, "I:"@, from);
    assert(text::first_at(line, "I:"@, from) is None);
    let rest = line.skip(from);
    let none = Seq::<char>::empty();
    assert(rest =~= none + seq![gap] + (word + seq![next] + after));
    white_space_sets_words_apart(none, gap, word + seq![next] + after);
    white_space_sets_words_apart(word, next, after);
    assert(replaygain::words(rest)[0] == word);
    text_laws::searches_find_the_first_place(line, "TPK:"@, 0);
    text_laws::searches_from_the_back_find_the_last_place(line, "TPK:"@, line.len() as int);
    assert(line.subrange(peaks_at, peaks_at + "TPK:"@.len()) == "TPK:"@);
    assert(text::first_at(line, "TPK:"@, 0) is Some);
    let found = text::last_at(line, "TPK:"@, line.len() as int);
    assert(found >= peaks_at);
    assert(line.subrange(found, found + 4) == "TPK:"@);
}

/// Every progress line is read, in order, and no other.
pub proof fn only_progress_lines_are_read(a: Seq<Seq<char>>, b: Seq<Seq<char>>, one: Seq<char>)
    ensures
        replaygain::progress_in(a + b) == replaygain::progress_in(a) + replaygain::progress_in(b),
        replaygain::is_progress(one) ==> replaygain::progress_in(seq![one]) == seq![
            replaygain::progress_of(one),
        ],
        !replaygain::is_progress(one) ==> replaygain::progress_in(seq![one]).len() == 0,
    decreases b.len(),
{
    assert(seq![one].drop_last() =~= Seq::empty());
    assert(replaygain::progress_in(seq![one].drop_last()) =~= Seq::empty());
    assert(replaygain::is_progress(one) ==> replaygain::progress_in(seq![one]) =~= seq![
        replaygain::progress_of(one),
    ]);
    if b.len() == 0 {
        assert(a + b =~= a);
        assert(replaygain::progress_in(a) + replaygain::progress_in(b) =~= replaygain::progress_in(a));
    } else {
        only_progress_lines_are_read(a, b.drop_last(), one);
        assert((a + b).drop_last() =~= a + b.drop_last());
        assert((a + b).last() == b.last());
        assert(replaygain::progress_in(a + b) =~= replaygain::progress_in(a)
            + replaygain::progress_in(b));
    }
}

/// Of several peaks, those before the unit count, and all of them do.
pub proof fn peaks_end_at_their_unit(ws: Seq<Seq<char>>)
    ensures
        ({
            let peaks = replaygain::before_unit(ws);
            &&& peaks.is_prefix_of(ws)
            &&& !peaks.contains("dBFS"@)
            &&& peaks.len() < ws.len() ==> ws[peaks.len() as int] == "dBFS"@
        }),
    decreases ws.len(),
{
    let peaks = replaygain::before_unit(ws);
    if ws.len() > 0 && ws[0] != "dBFS"@ {
        let rest = replaygain::before_unit(ws.drop_first());
        peaks_end_at_their_unit(ws.drop_first());
        assert(ws.take(peaks.len() as int) =~= peaks) by {
            assert(rest =~= ws.drop_first().take(rest.len() as int));
            assert forall|i: int| 0 <= i < peaks.len() implies peaks[i] == ws[i] by {
                if i > 0 {
                    assert(peaks[i] == rest[i - 1]);
                    assert(ws.drop_first()[i - 1] == ws[i]);
                }
            }
        }
        if peaks.contains("dBFS"@) {
            let i = choose|i: int| 0 <= i < peaks.len() && peaks[i] == "dBFS"@;
            assert(rest[i - 1] == "dBFS"@);
        }
        if peaks.len() < ws.len() {
            assert(ws.drop_first()[rest.len() as int] == ws[peaks.len() as int]);
        }
    } else {
        assert(ws.take(0) =~= peaks);
    }
}

/// The last lines that say something are quoted, the latest first, at most three.
pub proof fn the_last_lines_are_quoted(s: Seq<Seq<char>>, i: int)
    ensures
        replaygain::last_three(s).len() == if s.len() < 3 { s.len() } else { 3 },
        0 <= i < replaygain::last_three(s).len() ==> replaygain::last_three(s)[i] == s[s.len() - 1
            - i],
{
}

/// Lines that say something are kept in their order; blank ones are not.
pub proof fn blank_lines_are_dropped(a: Seq<Seq<char>>, b: Seq<Seq<char>>, one: Seq<char>)
    ensures
        text::is_blank(one) ==> replaygain::written(seq![one]) == Seq::<Seq<char>>::empty(),
        !text::is_blank(one) ==> replaygain::written(seq![one]) == seq![one],
        replaygain::written(a + b) == replaygain::written(a) + replaygain::written(b),
    decreases b.len(),
{
    assert(seq![one].drop_last() =~= Seq::empty());
    assert(replaygain::written(seq![one].drop_last()) =~= Seq::empty());
    assert(!text::is_blank(one) ==> replaygain::written(seq![one]) =~= seq![one]);
    if b.len() == 0 {
        assert(a + b =~= a);
        assert(replaygain::written(a) + replaygain::written(b) =~= replaygain::written(a));
    } else {
        blank_lines_are_dropped(a, b.drop_last(), one);
        assert((a + b).drop_last() =~= a + b.drop_last());
        assert((a + b).last() == b.last());
        assert(replaygain::written(a + b) =~= replaygain::written(a) + replaygain::written(b));
    }
}

/// At least one album is measured at a time, and otherwise as many as asked for.
pub proof fn some_album_is_always_measured(jobs: usize)
    ensures
        replaygain::at_once(0) == 1,
        jobs > 0 ==> replaygain::at_once(jobs) == jobs,
{
}

/// An album is measured once it has a loudness; a peak is given only beside one.
pub proof fn albums_need_a_loudness(readings: Seq<Reading>)
    ensures
        replaygain::album_totals(readings) is Some <==> exists|i: int|
            0 <= i < readings.len() && (#[trigger] readings[i]).loudness is Some,
        replaygain::album_totals(readings) matches Some(t) ==> Some(t.0)
            == replaygain::last_loudness(readings) && t.1 == replaygain::last_peak(readings),
{
    lemma_latest(readings);
}

/// The release that the tags name is looked up first, unless they name a blank.
pub proof fn tagged_releases_are_used(id: String)
    ensures
        artwork::usable_release(None) is None,
        text::is_blank(id@) ==> artwork::usable_release(Some(id)) is None,
        !text::is_blank(id@) ==> artwork::usable_release(Some(id)) == Some(id),
{
}

/// No more than three of the releases that were found are tried, the best first.
pub proof fn three_releases_are_tried(ids: Seq<String>)
    ensures
        artwork::first_candidates(ids).is_prefix_of(ids),
        artwork::first_candidates(ids).len() == if ids.len() < 3 {
            ids.len()
        } else {
            3
        },
{
    assert(ids.take(ids.len() as int) =~= ids);
}

/// Albums that were looked up before are passed over, unless all are asked for;
/// a limit cuts the list.
pub proof fn covers_are_looked_up_once(n: usize)
    ensures
        ({
            let all = artwork::pending_query(true, None);
            let new = artwork::pending_query(false, None);
            &&& all == artwork::PENDING_SELECT@ + " ORDER BY ar.sort_name, al.sort_title"@
            &&& new == artwork::PENDING_SELECT@ + " AND al.art_checked_at IS NULL"@
                + " ORDER BY ar.sort_name, al.sort_title"@
            &&& artwork::pending_query(true, Some(n)) == all + " LIMIT "@ + text::decimal_text(
                n as nat,
            )
            &&& artwork::pending_query(false, Some(n)) == new + " LIMIT "@ + text::decimal_text(
                n as nat,
            )
        }),
{
    let none = Seq::<char>::empty();
    assert(artwork::PENDING_SELECT@ + none =~= artwork::PENDING_SELECT@);
    let all = artwork::PENDING_SELECT@ + artwork::PENDING_ORDER@;
    let new = artwork::PENDING_SELECT@ + artwork::UNCHECKED_ONLY@ + artwork::PENDING_ORDER@;
    assert(all + none =~= all);
    assert(new + none =~= new);
    let limit = " LIMIT "@ + text::decimal_text(n as nat);
    assert(all + limit =~= all + " LIMIT "@ + text::decimal_text(n as nat));
    assert(new + limit =~= new + " LIMIT "@ + text::decimal_text(n as nat));
}

/// Albums that have a gain, measured or tagged, are not measured again unless all
/// are asked for; albums that have a cover are not looked up. Only albums that are
/// still there count.
pub proof fn enriched_albums_are_left_alone(force: bool)
    ensures
        !force ==> ends_in(
            replaygain::pending_query(force),
            "
 WHERE al.present = 1
   AND al.rg_gain_db IS NULL
   AND NOT EXISTS (SELECT 1 FROM track t
                    WHERE t.album_id = al.id AND t.rg_album_gain IS NOT NULL)
 ORDER BY ar.sort_name, al.sort_title"@,
        ),
        force ==> ends_in(
            replaygain::pending_query(force),
            "
 WHERE al.present = 1
 ORDER BY ar.sort_name, al.sort_title"@,
        ),
        ends_in(
            artwork::PENDING_SELECT@,
            "
 WHERE al.present = 1
   AND al.art_path IS NULL
   AND al.art_cache_path IS NULL"@,
        ),
{
    reveal_strlit("SELECT al.id, ar.name || ' — ' || al.title
 FROM album al JOIN artist ar ON ar.id = al.album_artist_id
 WHERE al.present = 1
 ORDER BY ar.sort_name, al.sort_title");
    reveal_strlit("
 WHERE al.present = 1
 ORDER BY ar.sort_name, al.sort_title");
    reveal_strlit("SELECT al.id, ar.name || ' — ' || al.title
 FROM album al JOIN artist ar ON ar.id = al.album_artist_id
 WHERE al.present = 1
   AND al.rg_gain_db IS NULL
   AND NOT EXISTS (SELECT 1 FROM track t
                    WHERE t.album_id = al.id AND t.rg_album_gain IS NOT NULL)
 ORDER BY ar.sort_name, al.sort_title");
    reveal_strlit("
 WHERE al.present = 1
   AND al.rg_gain_db IS NULL
   AND NOT EXISTS (SELECT 1 FROM track t
                    WHERE t.album_id = al.id AND t.rg_album_gain IS NOT NULL)
 ORDER BY ar.sort_name, al.sort_title");
    reveal_strlit("SELECT al.id, ar.name, al.title, al.mb_album_id
 FROM album al JOIN artist ar ON ar.id = al.album_artist_id
 WHERE al.present = 1
   AND al.art_path IS NULL
   AND al.art_cache_path IS NULL");
    reveal_strlit("
 WHERE al.present = 1
   AND al.art_path IS NULL
   AND al.art_cache_path IS NULL");
    let all = "SELECT al.id, ar.name || ' — ' || al.title
 FROM album al JOIN artist ar ON ar.id = al.album_artist_id
 WHERE al.present = 1
 ORDER BY ar.sort_name, al.sort_title"@;
    let all_end = "
 WHERE al.present = 1
 ORDER BY ar.sort_name, al.sort_title"@;
    assert(all.skip(all.len() - all_end.len()) =~= all_end);
    let unmeasured = "SELECT al.id, ar.name || ' — ' || al.title
 FROM album al JOIN artist ar ON ar.id = al.album_artist_id
 WHERE al.present = 1
   AND al.rg_gain_db IS NULL
   AND NOT EXISTS (SELECT 1 FROM track t
                    WHERE t.album_id = al.id AND t.rg_album_gain IS NOT NULL)
 ORDER BY ar.sort_name, al.sort_title"@;
    let unmeasured_end = "
 WHERE al.present = 1
   AND al.rg_gain_db IS NULL
   AND NOT EXISTS (SELECT 1 FROM track t
                    WHERE t.album_id = al.id AND t.rg_album_gain IS NOT NULL)
 ORDER BY ar.sort_name, al.sort_title"@;
    assert(unmeasured.skip(unmeasured.len() - unmeasured_end.len()) =~= unmeasured_end);
    let pending = "SELECT al.id, ar.name, al.title, al.mb_album_id
 FROM album al JOIN artist ar ON ar.id = al.album_artist_id
 WHERE al.present = 1
   AND al.art_path IS NULL
   AND al.art_cache_path IS NULL"@;
    let pending_end = "
 WHERE al.present = 1
   AND al.art_path IS NULL
   AND al.art_cache_path IS NULL"@;
    assert(pending.skip(pending.len() - pending_end.len()) =~= pending_end);
}

/// Every album counts once in the report, as what came of it; only failures are
/// listed, with their reasons, the first fifty of them.
pub proof fn every_lookup_counts_once(
    before: artwork::Report,
    after: artwork::Report,
    label: String,
    outcome: artwork::Outcome,
)
    requires
        artwork::noted(before, after, label, outcome),
    ensures
        after.considered == before.considered,
        after.fetched + after.not_found + after.failed == before.fetched + before.not_found
            + before.failed + 1,
        outcome is Fetched ==> after.fetched == before.fetched + 1,
        outcome is NotFound ==> after.not_found == before.not_found + 1,
        outcome matches artwork::Outcome::Failed(why) ==> {
            &&& after.failed == before.failed + 1
            &&& before.errors@.len() < 50 ==> after.errors@ == before.errors@.push((label, why))
        },
        !(outcome is Failed) ==> after.errors@ == before.errors@,
        before.errors@.len() <= 50 ==> after.errors@.len() <= 50,
{
}

/// Every album counts once in the report, as what came of it; those that were
/// silent or failed are listed, the first fifty of them.
pub proof fn every_measurement_counts_once(
    before: replaygain::Report,
    after: replaygain::Report,
    label: String,
    outcome: replaygain::Outcome,
)
    requires
        replaygain::noted(before, after, label, outcome),
    ensures
        after.considered == before.considered,
        after.measured + after.silent + after.failed == before.measured + before.silent
            + before.failed + 1,
        outcome is Measured ==> after.measured == before.measured + 1 && after.errors@
            == before.errors@,
        outcome is Silent ==> after.silent == before.silent + 1,
        outcome is Failed ==> after.failed == before.failed + 1,
        !(outcome is Measured) && before.errors@.len() < 50 ==> {
            &&& after.errors@.len() == before.errors@.len() + 1
            &&& after.errors@.drop_last() == before.errors@
            &&& after.errors@.last().0 == label
            &&& outcome matches replaygain::Outcome::Failed(why) ==> after.errors@.last().1@ == why@
        },
        before.errors@.len() >= 50 ==> after.errors@ == before.errors@,
{
}

/// Covers are cached where the user says; failing that below the user's cache, and
/// failing that below the home directory.
pub proof fn the_user_says_where_things_go(dir: Seq<char>, base: Seq<char>, home: Seq<char>)
    requires
        dir.len() > 0,
    ensures
        artwork::cache_home(Some(dir), Some(base), Some(home)) == Some(path::path_of(dir)),
        artwork::cache_home(Some(dir), None, None) == Some(path::path_of(dir)),
        artwork::cache_home(None, Some(base), Some(home)) == Some(
            path::path_of(base).join(path::path_of("albumplayer/art"@)),
        ),
        artwork::cache_home(Some(Seq::empty()), Some(base), Some(home)) == artwork::cache_home(
            None,
            Some(base),
            None,
        ),
        artwork::cache_home(None, None, Some(home)) == Some(
            path::path_of(home).join(path::path_of(".cache"@)).join(
                path::path_of("albumplayer/art"@),
            ),
        ),
        artwork::cache_home(None, None, None) is None,
{
}

} // verus!
