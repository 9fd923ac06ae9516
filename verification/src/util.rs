//! Small helpers shared by the scanner and the query layer.

use vstd::prelude::*;

use crate::path::FilePath;
use crate::path::PathView;
use crate::text;
use crate::text::{
    append_chars, chars_of, digit, is_alphanumeric, lower_ascii_all, number_of, same_chars, same_text, slice_chars,
    strip_front, text_of, to_lowercase, trim_back_of, trim_front_of, trim_of, white_space,
};

verus! {

/// What the clock's reading is as a timestamp.
pub open spec fn unix_of(clock: Option<u64>) -> i64 {
    match clock {
        Some(s) => s as i64,
        None => 0,
    }
}

/// Reads the system clock through `SystemTime::elapsed` on the Unix epoch:
/// whole seconds since then, or nothing when the clock stands before it. What
/// the clock shows is not promised.
#[verifier::external_body]
fn clock_seconds() -> (r: Option<u64>) {
    std::time::UNIX_EPOCH.elapsed().ok().map(|d| d.as_secs())
}

/// The timestamp for a reading of the clock.
pub fn unix_seconds(clock: Option<u64>) -> (r: i64)
    ensures
        r == unix_of(clock),
        clock matches Some(s) ==> s <= i64::MAX ==> r == s,
        clock is None ==> r == 0,
{
    match clock {
        Some(s) => s as i64,
        None => 0,
    }
}

/// Seconds since the Unix epoch. Timestamps are stored as integers throughout.
pub fn now_unix() -> (r: i64)
    ensures
        exists|clock: Option<u64>| r == unix_of(clock),
{
    let clock = clock_seconds();
    unix_seconds(clock)
}

/// A text in lower case, with each run of white space between words made one
/// space and none in front or behind.
pub open spec fn norm(s: Seq<char>) -> Seq<char>
    decreases s.len(),
{
    if s.len() == 0 {
        Seq::empty()
    } else {
        let before = norm(s.drop_last());
        if text::is_white_space(s.last()) {
            before
        } else if before.len() > 0 && text::is_white_space(s[s.len() - 2]) {
            before.push(' ') + text::lowercase_of(s.last())
        } else {
            before + text::lowercase_of(s.last())
        }
    }
}

pub(crate) fn norm_chars(v: &Vec<char>) -> (out: Vec<char>)
    ensures
        out@ == norm(v@),
{
    let mut out: Vec<char> = Vec::new();
    for i in 0..v.len()
        invariant
            out@ == norm(v@.take(i as int)),
    {
        assert(v@.take(i + 1).drop_last() =~= v@.take(i as int));
        if !white_space(v[i]) {
            if i > 0 && white_space(v[i - 1]) && out.len() > 0 {
                out.push(' ');
            }
            append_chars(&mut out, &to_lowercase(v[i]));
        }
    }
    assert(v@.take(v@.len() as int) =~= v@);
    out
}

/// Lowercase, trim, and collapse internal white space. Used to build grouping
/// keys so that `"The  Beatles "` and `"the beatles"` land in the same bucket.
pub fn normalize(s: &str) -> (r: String)
    ensures
        r@ == norm(s@),
{
    text_of(&norm_chars(&chars_of(s)))
}

proof fn lemma_norm_append(x: Seq<char>, l: Seq<char>)
    requires
        l.len() > 0,
        forall|i: int|
            0 <= i < l.len() ==> text::lowercase_of(#[trigger] l[i]) == seq![l[i]]
                && !text::is_white_space(l[i]),
    ensures
        norm(x + l) == (if norm(x).len() > 0 && x.len() > 0 && text::is_white_space(x.last()) {
            norm(x).push(' ')
        } else {
            norm(x)
        }) + l,
    decreases l.len(),
{
    let whole = x + l;
    let front = l.drop_last();
    assert(whole.drop_last() =~= x + front);
    assert(whole.last() == l[l.len() - 1]);
    assert(l =~= front + seq![l.last()]);
    if front.len() > 0 {
        assert forall|i: int| 0 <= i < front.len() implies text::lowercase_of(
            #[trigger] front[i],
        ) == seq![front[i]] && !text::is_white_space(front[i]) by {
            assert(front[i] == l[i]);
        }
        lemma_norm_append(x, front);
        assert(whole[whole.len() - 2] == l[l.len() - 2]);
        assert(norm(whole) =~= norm(x + front) + seq![l.last()]);
    } else {
        assert(x + front =~= x);
        if x.len() > 0 {
            assert(whole[whole.len() - 2] == x.last());
        } else {
            assert(norm(x).len() == 0);
        }
    }
}

/// A normalized text is settled: normalizing it again changes nothing, and it
/// neither starts nor ends with white space. This holds of every text whose
/// characters settle in lower case.
pub proof fn normalizing_twice_changes_nothing(s: Seq<char>)
    requires
        all_settle(s),
    ensures
        norm(norm(s)) == norm(s),
        norm(s).len() > 0 ==> !text::is_white_space(norm(s).first()) && !text::is_white_space(
            norm(s).last(),
        ),
    decreases s.len(),
{
    if s.len() > 0 {
        let rest = s.drop_last();
        assert forall|i: int| 0 <= i < rest.len() implies settles(#[trigger] rest[i]) by {
            assert(settles(s[i]));
        }
        normalizing_twice_changes_nothing(rest);
        let n = norm(rest);
        let c = s.last();
        assert(settles(s[s.len() - 1]));
        if !text::is_white_space(c) {
            let l = text::lowercase_of(c);
            if n.len() > 0 && text::is_white_space(s[s.len() - 2]) {
                let spaced = n.push(' ');
                assert(spaced.drop_last() =~= n);
                assert(norm(spaced) == n);
                lemma_norm_append(spaced, l);
                assert(norm(s) == spaced + l);
            } else {
                lemma_norm_append(n, l);
                assert(norm(s) == n + l);
            }
            assert(norm(s).last() == l.last());
        }
    }
}

/// A character that is white space, or whose lowercase consists of characters that
/// are their own lowercase and no white space.
pub open spec fn settles(c: char) -> bool {
    let l = text::lowercase_of(c);
    text::is_white_space(c) || (l.len() > 0 && forall|i: int|
        0 <= i < l.len() ==> text::lowercase_of(#[trigger] l[i]) == seq![l[i]]
            && !text::is_white_space(l[i]))
}

/// Every character of a text settles.
pub open spec fn all_settle(s: Seq<char>) -> bool {
    forall|i: int| 0 <= i < s.len() ==> settles(#[trigger] s[i])
}

/// A normalized text without its leading article.
pub open spec fn without_article(n: Seq<char>) -> Seq<char> {
    if "the "@.is_prefix_of(n) {
        n.skip("the "@.len() as int)
    } else if "a "@.is_prefix_of(n) {
        n.skip("a "@.len() as int)
    } else if "an "@.is_prefix_of(n) {
        n.skip("an "@.len() as int)
    } else {
        n
    }
}

/// Sort key without a leading article, so "The Beatles" files under B. A
/// normalized string intended for ordering, not display.
pub fn sort_key(s: &str) -> (r: String)
    ensures
        r@ == without_article(norm(s@)),
{
    let n = norm_chars(&chars_of(s));
    if let Some(rest) = strip_front(&n, "the ") {
        return text_of(&rest);
    }
    if let Some(rest) = strip_front(&n, "a ") {
        return text_of(&rest);
    }
    if let Some(rest) = strip_front(&n, "an ") {
        return text_of(&rest);
    }
    text_of(&n)
}

/// The number a lower-case word spells, from one to twelve.
pub open spec fn number_word(w: Seq<char>) -> Option<u32> {
    if w == "one"@ {
        Some(1)
    } else if w == "two"@ {
        Some(2)
    } else if w == "three"@ {
        Some(3)
    } else if w == "four"@ {
        Some(4)
    } else if w == "five"@ {
        Some(5)
    } else if w == "six"@ {
        Some(6)
    } else if w == "seven"@ {
        Some(7)
    } else if w == "eight"@ {
        Some(8)
    } else if w == "nine"@ {
        Some(9)
    } else if w == "ten"@ {
        Some(10)
    } else if w == "eleven"@ {
        Some(11)
    } else if w == "twelve"@ {
        Some(12)
    } else {
        None
    }
}

fn word_number(w: &Vec<char>) -> (r: Option<u32>)
    ensures
        r == number_word(w@),
{
    if same_chars(w, &chars_of("one")) {
        Some(1)
    } else if same_chars(w, &chars_of("two")) {
        Some(2)
    } else if same_chars(w, &chars_of("three")) {
        Some(3)
    } else if same_chars(w, &chars_of("four")) {
        Some(4)
    } else if same_chars(w, &chars_of("five")) {
        Some(5)
    } else if same_chars(w, &chars_of("six")) {
        Some(6)
    } else if same_chars(w, &chars_of("seven")) {
        Some(7)
    } else if same_chars(w, &chars_of("eight")) {
        Some(8)
    } else if same_chars(w, &chars_of("nine")) {
        Some(9)
    } else if same_chars(w, &chars_of("ten")) {
        Some(10)
    } else if same_chars(w, &chars_of("eleven")) {
        Some(11)
    } else if same_chars(w, &chars_of("twelve")) {
        Some(12)
    } else {
        None
    }
}

/// The number that digits write, when it fits.
pub open spec fn small_number(s: Seq<char>) -> Option<u32> {
    match text::parse_decimal(s, u32::MAX as nat) {
        Some(n) => Some(n as u32),
        None => None,
    }
}

fn small_number_of(v: &Vec<char>) -> (r: Option<u32>)
    ensures
        r == small_number(v@),
{
    match number_of(v, u32::MAX as u64) {
        Some(n) => Some(n as u32),
        None => None,
    }
}

/// A disc number written as digits or as a word.
pub open spec fn disc_number(s: Seq<char>) -> Option<u32> {
    let t = text::trimmed(s);
    if text::all_digits(t) {
        small_number(t)
    } else {
        number_word(text::ascii_lowered(t))
    }
}

fn parse_disc_number(v: &Vec<char>) -> (r: Option<u32>)
    ensures
        r == disc_number(v@),
{
    let t = trim_of(v);
    for i in 0..t.len()
        invariant
            t@ == text::trimmed(v@),
            forall|j: int| 0 <= j < i ==> text::is_digit(#[trigger] t@[j]),
    {
        if !digit(t[i]) {
            assert(!text::is_digit(t@[i as int]));
            return word_number(&lower_ascii_all(&t));
        }
    }
    small_number_of(&t)
}

/// The separators allowed between a disc word and its number in a directory
/// name.
pub open spec fn dir_separators() -> Seq<char> {
    seq![' ', '-', '_', '.', '#']
}

/// What follows a disc word in front of a text.
pub open spec fn after_disc_word(n: Seq<char>) -> Option<Seq<char>> {
    if "disc"@.is_prefix_of(n) {
        Some(n.skip("disc"@.len() as int))
    } else if "disk"@.is_prefix_of(n) {
        Some(n.skip("disk"@.len() as int))
    } else if "cd"@.is_prefix_of(n) {
        Some(n.skip("cd"@.len() as int))
    } else {
        None
    }
}

/// The disc number a directory name encodes.
pub open spec fn dir_disc(name: Seq<char>) -> Option<u32> {
    match after_disc_word(norm(name)) {
        Some(rest) => disc_number(text::trim_front(rest, dir_separators(), false)),
        None => None,
    }
}

/// The disc number encoded in a directory name: `CD1` gives 1, `Disc 2` gives
/// 2. Nothing for names that merely start with the word, like `Discovery`.
pub fn disc_dir_number(name: &str) -> (r: Option<u32>)
    ensures
        r == dir_disc(name@),
{
    let n = norm_chars(&chars_of(name));
    let rest = match strip_front(&n, "disc") {
        Some(rest) => rest,
        None => match strip_front(&n, "disk") {
            Some(rest) => rest,
            None => match strip_front(&n, "cd") {
                Some(rest) => rest,
                None => return None,
            },
        },
    };
    let set: Vec<char> = vec![' ', '-', '_', '.', '#'];
    assert(set@ =~= dir_separators());
    parse_disc_number(&trim_front_of(&rest, &set, false))
}

/// True if a directory name looks like a disc subdirectory: `CD1`, `Disc 2`,
/// `disk-03`. These collapse into the parent so a multi-disc release stays one
/// album instead of fragmenting into one album per disc.
pub fn is_disc_dir(name: &str) -> (r: bool)
    ensures
        r == dir_disc(name@).is_some(),
{
    disc_dir_number(name).is_some()
}

/// The disc number of the directory a file lies in.
pub open spec fn path_disc(file: PathView) -> Option<u32> {
    match file.parent() {
        Some(dir) => match dir.file_name() {
            Some(name) => dir_disc(name),
            None => None,
        },
        None => None,
    }
}

/// The disc number of the disc subdirectory a file sits in, if any.
///
/// Plenty of rips put each disc in its own folder and never write a disc tag
/// at all, which would otherwise leave every track on "disc 1" with colliding
/// track numbers.
pub fn disc_no_from_path(file: &FilePath) -> (r: Option<u32>)
    ensures
        r == path_disc(file@),
{
    match file.parent() {
        Some(dir) => match dir.file_name() {
            Some(name) => disc_dir_number(&name),
            None => None,
        },
        None => None,
    }
}

/// The length of the disc word that stands at `i`, or 0.
pub open spec fn disc_word_at(s: Seq<char>, i: int) -> int {
    if text::occurs_at(s, "disc"@, i) {
        "disc"@.len() as int
    } else if text::occurs_at(s, "disk"@, i) {
        "disk"@.len() as int
    } else if text::occurs_at(s, "cd"@, i) {
        "cd"@.len() as int
    } else {
        0
    }
}

/// A disc word stands at `i`, and no letter or digit right before it.
pub open spec fn marks_disc(s: Seq<char>, i: int) -> bool {
    disc_word_at(s, i) > 0 && (i == 0 || !text::alphanumeric(s[i - 1]))
}

/// The last position below `n` that marks a disc, or -1.
pub open spec fn last_marker(s: Seq<char>, n: int) -> int
    decreases n,
{
    if n <= 0 {
        -1
    } else if marks_disc(s, n - 1) {
        n - 1
    } else {
        last_marker(s, n - 1)
    }
}

fn disc_word_len(v: &Vec<char>, i: usize) -> (r: usize)
    ensures
        r == disc_word_at(v@, i as int),
        i + r <= v@.len() || r == 0,
{
    proof {
        reveal_strlit("disc");
        reveal_strlit("disk");
        reveal_strlit("cd");
    }
    if text::found_at(v, &chars_of("disc"), i) {
        4
    } else if text::found_at(v, &chars_of("disk"), i) {
        4
    } else if text::found_at(v, &chars_of("cd"), i) {
        2
    } else {
        0
    }
}

/// What may stand between a disc word and its number in a title.
pub open spec fn title_separators() -> Seq<char> {
    seq![' ', '-', '_', '.', '#', ':']
}

/// What may stand behind the disc number in a title.
pub open spec fn title_closers() -> Seq<char> {
    seq![')', ']', '}', ' ', '.']
}

/// What is dropped, with white space, between a title and its disc marker.
pub open spec fn title_openers() -> Seq<char> {
    seq!['-', '_', '.', '(', '[', '{', '#', ':']
}

/// The text behind a disc word with the separators and the closing bracket
/// taken off.
pub open spec fn marker_tail(s: Seq<char>) -> Seq<char> {
    text::trimmed(
        text::trim_back(
            text::trim_front(text::trimmed(s), title_separators(), false),
            title_closers(),
            false,
        ),
    )
}

/// The text before a disc marker with the opening bracket taken off.
pub open spec fn marker_head(s: Seq<char>) -> Seq<char> {
    text::trimmed(text::trim_back(s, title_openers(), true))
}

/// The title and the number of a title that ends in a disc marker. The marker
/// is the last disc word on a word boundary, with exactly a number behind it
/// and a title before it.
pub open spec fn split_disc(t: Seq<char>) -> Option<(Seq<char>, u32)> {
    let low = text::ascii_lowered(t);
    let i = last_marker(low, low.len() as int);
    if i < 0 {
        None
    } else {
        match disc_number(marker_tail(t.skip(i + disc_word_at(low, i)))) {
            Some(n) => if marker_head(t.take(i)).len() == 0 {
                None
            } else {
                Some((marker_head(t.take(i)), n))
            },
            None => None,
        }
    }
}

fn split_disc_suffix(t: &Vec<char>) -> (r: Option<(Vec<char>, u32)>)
    ensures
        match r {
            Some(p) => split_disc(t@) == Some((p.0@, p.1)),
            None => split_disc(t@) is None,
        },
{
    let low = lower_ascii_all(t);
    let size: usize = low.len();
    let mut n: usize = size;
    while n > 0
        invariant
            size == low@.len(),
            n <= low@.len(),
            low@ == text::ascii_lowered(t@),
            last_marker(low@, low@.len() as int) == last_marker(low@, n as int),
        decreases n,
    {
        let i: usize = n - 1;
        let len: usize = disc_word_len(&low, i);
        if len > 0 && (i == 0 || !is_alphanumeric(low[i - 1])) {
            let tail = slice_chars(t, i + len, t.len());
            assert(tail@ =~= t@.skip(i + len));
            let head = slice_chars(t, 0, i);
            assert(head@ =~= t@.take(i as int));
            let seps: Vec<char> = vec![' ', '-', '_', '.', '#', ':'];
            assert(seps@ =~= title_separators());
            let closers: Vec<char> = vec![')', ']', '}', ' ', '.'];
            assert(closers@ =~= title_closers());
            let openers: Vec<char> = vec!['-', '_', '.', '(', '[', '{', '#', ':'];
            assert(openers@ =~= title_openers());
            let front = trim_front_of(&trim_of(&tail), &seps, false);
            let number = match parse_disc_number(&trim_of(&trim_back_of(&front, &closers, false))) {
                Some(number) => number,
                None => return None,
            };
            let title = trim_of(&trim_back_of(&head, &openers, true));
            if title.len() == 0 {
                // The title was only ever "Disc 2"; leave it alone.
                return None;
            }
            return Some((title, number));
        }
        n = i;
    }
    None
}

/// An album title without its disc marker, and the disc it names.
pub open spec fn without_disc(title: Seq<char>) -> (Seq<char>, Option<u32>) {
    match split_disc(text::trimmed(title)) {
        Some(p) => (p.0, Some(p.1)),
        None => (text::trimmed(title), None),
    }
}

/// Split a trailing disc marker off an album title.
///
/// `"Hullabaloo CD1"` gives `("Hullabaloo", Some(1))`, and
/// `"Forty Licks ( Disc 2 )"` gives `("Forty Licks", Some(2))`. Without this,
/// the two halves of a double album carry different album tags and get filed as
/// two separate releases.
pub fn strip_disc_suffix(title: &str) -> (r: (String, Option<u32>))
    ensures
        (r.0@, r.1) == without_disc(title@),
{
    let t = trim_of(&chars_of(title));
    match split_disc_suffix(&t) {
        Some(p) => (text_of(&p.0), Some(p.1)),
        None => (text_of(&t), None),
    }
}

/// Characters that trimming takes off the back of a text.
proof fn lemma_trim_back_run(x: Seq<char>, run: Seq<char>, set: Seq<char>, white: bool)
    requires
        x.len() > 0,
        !text::is_trimmed(x.last(), set, white),
        forall|i: int| 0 <= i < run.len() ==> text::is_trimmed(#[trigger] run[i], set, white),
    ensures
        text::trim_back(x + run, set, white) == x,
    decreases run.len(),
{
    if run.len() == 0 {
        assert(x + run =~= x);
    } else {
        let front = run.drop_last();
        assert forall|i: int| 0 <= i < front.len() implies text::is_trimmed(
            #[trigger] front[i],
            set,
            white,
        ) by {
            assert(front[i] == run[i]);
        }
        assert((x + run).drop_last() =~= x + front);
        assert((x + run).last() == run[run.len() - 1]);
        lemma_trim_back_run(x, front, set, white);
    }
}

/// Characters that trimming takes off the front of a text.
proof fn lemma_trim_front_run(run: Seq<char>, x: Seq<char>, set: Seq<char>, white: bool)
    requires
        x.len() > 0,
        !text::is_trimmed(x.first(), set, white),
        forall|i: int| 0 <= i < run.len() ==> text::is_trimmed(#[trigger] run[i], set, white),
    ensures
        text::trim_front(run + x, set, white) == x,
    decreases run.len(),
{
    if run.len() == 0 {
        assert(run + x =~= x);
    } else {
        let rest = run.drop_first();
        assert forall|i: int| 0 <= i < rest.len() implies text::is_trimmed(
            #[trigger] rest[i],
            set,
            white,
        ) by {
            assert(rest[i] == run[i + 1]);
        }
        assert((run + x).drop_first() =~= rest + x);
        assert((run + x).first() == run[0]);
        lemma_trim_front_run(rest, x, set, white);
    }
}

/// What is left of a run of characters at the end of a text once white space is
/// taken off is a shorter run.
proof fn lemma_trim_run_end(x: Seq<char>, run: Seq<char>)
    requires
        x.len() > 0,
        !text::is_white_space(x.last()),
    ensures
        text::trim_back(x + run, Seq::empty(), true) == x + text::trim_back(
            run,
            Seq::empty(),
            true,
        ),
        text::trim_back(run, Seq::empty(), true).is_prefix_of(run),
    decreases run.len(),
{
    if run.len() == 0 {
        assert(x + run =~= x);
    } else {
        assert((x + run).last() == run.last());
        if text::is_white_space(run.last()) {
            assert((x + run).drop_last() =~= x + run.drop_last());
            lemma_trim_run_end(x, run.drop_last());
            let kept = text::trim_back(run, Seq::empty(), true);
            assert(kept =~= run.subrange(0, kept.len() as int));
        }
    }
}

/// A disc word in any case of its letters.
pub open spec fn is_disc_word(w: Seq<char>) -> bool {
    let low = text::ascii_lowered(w);
    low == "disc"@ || low == "disk"@ || low == "cd"@
}

/// A disc number as it stands in a title: digits, or a word for it.
pub open spec fn writes_disc(number: Seq<char>, n: u32) -> bool {
    ||| number.len() > 0 && text::all_digits(number) && small_number(number) == Some(n)
    ||| number_word(text::ascii_lowered(number)) == Some(n)
}

/// A character that no disc word could be made of.
spec fn no_disc_letter(c: char) -> bool {
    let l = text::ascii_lower(c);
    l != 'c' && l != 'd' && l != 'k'
}

/// A character that a disc number can start or end with.
spec fn number_char(c: char) -> bool {
    text::is_digit(c) || 'a' <= text::ascii_lower(c) <= 'z'
}

/// A word of small letters, none of them one that a disc word needs.
spec fn plain_word(w: Seq<char>) -> bool {
    w.len() > 0 && forall|i: int|
        0 <= i < w.len() ==> 'a' <= #[trigger] w[i] <= 'z' && w[i] != 'c' && w[i] != 'd' && w[i]
            != 'k'
}

proof fn lemma_number_words(w: Seq<char>)
    requires
        number_word(w) is Some,
    ensures
        plain_word(w),
{
    reveal_strlit("one");
    reveal_strlit("two");
    reveal_strlit("three");
    reveal_strlit("four");
    reveal_strlit("five");
    reveal_strlit("six");
    reveal_strlit("seven");
    reveal_strlit("eight");
    reveal_strlit("nine");
    reveal_strlit("ten");
    reveal_strlit("eleven");
    reveal_strlit("twelve");
    assert(plain_word("one"@));
    assert(plain_word("two"@));
    assert(plain_word("three"@));
    assert(plain_word("four"@));
    assert(plain_word("five"@));
    assert(plain_word("six"@));
    assert(plain_word("seven"@));
    assert(plain_word("eight"@));
    assert(plain_word("nine"@));
    assert(plain_word("ten"@));
    assert(plain_word("eleven"@));
    assert(plain_word("twelve"@));
}

proof fn lemma_number_chars(number: Seq<char>, n: u32)
    requires
        writes_disc(number, n),
    ensures
        number.len() > 0,
        forall|i: int|
            0 <= i < number.len() ==> no_disc_letter(#[trigger] number[i]) && number_char(number[i]),
        disc_number(number) == Some(n),
{
    let low = text::ascii_lowered(number);
    assert(low.len() == number.len());
    if number.len() > 0 && text::all_digits(number) {
        assert forall|i: int| 0 <= i < number.len() implies no_disc_letter(#[trigger] number[i])
            && number_char(number[i]) by {
            assert(text::is_digit(number[i]));
        }
    } else {
        lemma_number_words(low);
        assert forall|i: int| 0 <= i < number.len() implies no_disc_letter(#[trigger] number[i])
            && number_char(number[i]) by {
            assert(low[i] == text::ascii_lower(number[i]));
        }
    }
    assert(number_char(number[0]));
    assert(number_char(number[number.len() - 1]));
    let none = Seq::<char>::empty();
    assert(number + none =~= number);
    assert(none + number =~= number);
    lemma_trim_front_run(none, number, none, true);
    lemma_trim_back_run(number, none, none, true);
    if text::all_digits(number) && number_word(low) is Some {
        lemma_number_words(low);
        assert(text::is_digit(number[0]));
        assert(low[0] == number[0]);
    }
}

proof fn lemma_last_marker(low: Seq<char>, i: int, n: int)
    requires
        0 <= i < n <= low.len(),
        marks_disc(low, i),
        forall|k: int| i < k < n ==> !#[trigger] marks_disc(low, k),
    ensures
        last_marker(low, n) == i,
    decreases n,
{
    if n - 1 > i {
        assert(!marks_disc(low, n - 1));
        lemma_last_marker(low, i, n - 1);
    }
}

/// The marker in front of a tail without disc letters is the last one.
proof fn lemma_word_marks(head: Seq<char>, word: Seq<char>, tail: Seq<char>)
    requires
        head.len() > 0,
        !text::alphanumeric(text::ascii_lower(head.last())),
        is_disc_word(word),
        forall|i: int| 0 <= i < tail.len() ==> no_disc_letter(#[trigger] tail[i]),
    ensures
        ({
            let low = text::ascii_lowered(head + word + tail);
            &&& last_marker(low, low.len() as int) == head.len()
            &&& disc_word_at(low, head.len() as int) == word.len()
        }),
{
    reveal_strlit("disc");
    reveal_strlit("disk");
    reveal_strlit("cd");
    let t = head + word + tail;
    let low = text::ascii_lowered(t);
    let w = text::ascii_lowered(word);
    let i = head.len() as int;
    let len = word.len() as int;
    assert(w.len() == len);
    assert forall|k: int| i <= k < i + len implies #[trigger] low[k] == w[k - i] by {
        assert(t[k] == word[k - i]);
    }
    assert forall|k: int| i + len <= k < low.len() implies #[trigger] low[k] != 'c' && low[k] != 'd'
        && low[k] != 'k' by {
        assert(t[k] == tail[k - i - len]);
        assert(no_disc_letter(tail[k - i - len]));
    }
    assert(low.subrange(i, i + len) =~= w);
    assert(text::occurs_at(low, w, i));
    if w == "disk"@ {
        assert(low.subrange(i, i + 4)[3] == 'k');
        assert("disc"@[3] == 'c');
    }
    if w == "cd"@ {
        assert(low[i] == 'c');
        if i + 4 <= low.len() {
            assert(low.subrange(i, i + 4)[0] == 'c');
        }
        assert("disc"@[0] == 'd');
        assert("disk"@[0] == 'd');
    }
    assert(disc_word_at(low, i) == len);
    assert(low[i - 1] == text::ascii_lower(head.last())) by {
        assert(t[i - 1] == head[i - 1]);
    }
    assert forall|k: int| i < k < low.len() implies !#[trigger] marks_disc(low, k) by {
        if text::occurs_at(low, "disc"@, k) {
            assert(low.subrange(k, k + 4)[0] == low[k]);
            assert(low.subrange(k, k + 4)[3] == low[k + 3]);
        }
        if text::occurs_at(low, "disk"@, k) {
            assert(low.subrange(k, k + 4)[0] == low[k]);
            assert(low.subrange(k, k + 4)[3] == low[k + 3]);
        }
        if text::occurs_at(low, "cd"@, k) {
            assert(low.subrange(k, k + 2)[0] == low[k]);
            assert(low.subrange(k, k + 2)[1] == low[k + 1]);
        }
    }
    lemma_last_marker(low, i, low.len() as int);
}

/// The text behind a disc word comes down to the number in it.
proof fn lemma_marker_tail(sep: Seq<char>, number: Seq<char>, close: Seq<char>, n: u32)
    requires
        writes_disc(number, n),
        forall|i: int| 0 <= i < sep.len() ==> title_separators().contains(#[trigger] sep[i]),
        forall|i: int| 0 <= i < close.len() ==> title_closers().contains(#[trigger] close[i]),
    ensures
        marker_tail(sep + number + close) == number,
    decreases sep.len(),
{
    lemma_number_chars(number, n);
    let none = Seq::<char>::empty();
    assert(number_char(number[0]));
    assert(number_char(number[number.len() - 1]));
    let whole = sep + number + close;
    if sep.len() > 0 && text::is_white_space(sep[0]) {
        // Leading spaces go first.
        let rest = sep.drop_first();
        assert(whole.first() == sep[0]);
        assert(whole.drop_first() =~= rest + number + close);
        assert forall|i: int| 0 <= i < rest.len() implies title_separators().contains(
            #[trigger] rest[i],
        ) by {
            assert(rest[i] == sep[i + 1]);
        }
        lemma_marker_tail(rest, number, close, n);
    } else {
        assert(!text::is_white_space(whole.first()));
        let front = sep + number;
        assert(front.last() == number[number.len() - 1]);
        lemma_trim_run_end(front, close);
        let kept = text::trim_back(close, none, true);
        assert(text::trimmed(whole) == front + kept);
        assert(front + kept =~= sep + (number + kept));
        assert forall|i: int| 0 <= i < sep.len() implies text::is_trimmed(
            #[trigger] sep[i],
            title_separators(),
            false,
        ) by {
            assert(title_separators().contains(sep[i]));
        }
        assert((number + kept).first() == number[0]);
        lemma_trim_front_run(sep, number + kept, title_separators(), false);
        assert forall|i: int| 0 <= i < kept.len() implies text::is_trimmed(
            #[trigger] kept[i],
            title_closers(),
            false,
        ) by {
            assert(kept[i] == close[i]);
            assert(title_closers().contains(close[i]));
        }
        lemma_trim_back_run(number, kept, title_closers(), false);
        assert(none + number =~= number);
        assert(number + none =~= number);
        lemma_trim_front_run(none, number, none, true);
        lemma_trim_back_run(number, none, none, true);
    }
}

/// A disc marker put behind a title comes off again, and tells the disc: a bracket,
/// dash or space, a disc word, separators, the number and a closing bracket. The
/// title is one that neither starts with white space nor ends in it or in an
/// opening character.
pub proof fn a_disc_marker_comes_off(
    title: Seq<char>,
    open: Seq<char>,
    word: Seq<char>,
    sep: Seq<char>,
    number: Seq<char>,
    close: Seq<char>,
    n: u32,
)
    requires
        title.len() > 0,
        !text::is_white_space(title.first()),
        !text::is_trimmed(title.last(), title_openers(), true),
        open.len() > 0,
        forall|i: int|
            0 <= i < open.len() ==> text::is_trimmed(#[trigger] open[i], title_openers(), true),
        !text::alphanumeric(open.last()),
        is_disc_word(word),
        forall|i: int| 0 <= i < sep.len() ==> title_separators().contains(#[trigger] sep[i]),
        writes_disc(number, n),
        forall|i: int| 0 <= i < close.len() ==> title_closers().contains(#[trigger] close[i]),
    ensures
        without_disc(title + open + word + sep + number + close) == (title, Some(n)),
{
    let none = Seq::<char>::empty();
    lemma_number_chars(number, n);
    assert(number_char(number[number.len() - 1]));
    let front = title + open + word + sep + number;
    let whole = front + close;
    let kept = text::trim_back(close, none, true);
    // White space around the whole title.
    assert(whole.first() == title.first());
    assert(front.last() == number[number.len() - 1]);
    lemma_trim_run_end(front, close);
    assert(text::trimmed(whole) == front + kept);
    let t = front + kept;
    // The word is the last marker of it.
    let head = title + open;
    let tail = sep + number + kept;
    assert(t =~= head + word + tail);
    assert(head.last() == open[open.len() - 1]);
    assert(text::is_trimmed(open[open.len() - 1], title_openers(), true));
    assert(text::ascii_lower(open.last()) == open.last());
    assert forall|i: int| 0 <= i < kept.len() implies title_closers().contains(
        #[trigger] kept[i],
    ) by {
        assert(kept[i] == close[i]);
    }
    assert forall|i: int| 0 <= i < tail.len() implies no_disc_letter(#[trigger] tail[i]) by {
        if i < sep.len() {
            assert(title_separators().contains(sep[i]));
        } else if i < sep.len() + number.len() {
            assert(no_disc_letter(number[i - sep.len()]));
        } else {
            assert(title_closers().contains(kept[i - sep.len() - number.len()]));
        }
    }
    lemma_word_marks(head, word, tail);
    let i = head.len() as int;
    assert(t.skip(i + word.len()) =~= tail);
    assert(t.take(i) =~= head);
    lemma_marker_tail(sep, number, kept, n);
    lemma_trim_back_run(title, open, title_openers(), true);
    assert(none + title =~= title);
    assert(title + none =~= title);
    lemma_trim_front_run(none, title, none, true);
    lemma_trim_back_run(title, none, none, true);
}

/// The directory of a file's album.
pub open spec fn album_dir_of(file: PathView) -> PathView {
    let parent = match file.parent() {
        Some(p) => p,
        None => PathView { rooted: false, parts: seq![seq!['.']] },
    };
    match parent.file_name() {
        Some(name) => if dir_disc(name) is Some {
            parent.parent().unwrap()
        } else {
            parent
        },
        None => parent,
    }
}

/// The directory that represents the album a file belongs to. Normally the
/// file's parent, but one level up when the parent is a disc subdirectory.
pub fn album_dir(file: &FilePath) -> (r: FilePath)
    ensures
        r@ == album_dir_of(file@),
{
    let parent = match file.parent() {
        Some(p) => p,
        None => {
            let here: Vec<char> = vec!['.'];
            assert(here@ =~= seq!['.']);
            let dot = FilePath { rooted: false, parts: vec![text_of(&here)] };
            assert(dot@.parts =~= seq![seq!['.']]);
            dot
        },
    };
    match parent.file_name() {
        Some(name) => if is_disc_dir(&name) {
            match parent.parent() {
                Some(up) => up,
                None => parent,
            }
        } else {
            parent
        },
        None => parent,
    }
}

/// The run of digits in front of a text.
pub open spec fn leading_digits(s: Seq<char>) -> Seq<char>
    decreases s.len(),
{
    if s.len() > 0 && text::is_digit(s[0]) {
        seq![s[0]] + leading_digits(s.drop_first())
    } else {
        Seq::empty()
    }
}

/// Parse a leading integer out of tag values like `"3"`, `"03/12"`, or
/// `"3 of 12"`.
pub fn leading_u32(s: &str) -> (r: Option<u32>)
    ensures
        r == small_number(leading_digits(text::trimmed(s@))),
{
    let t = trim_of(&chars_of(s));
    let mut digits: Vec<char> = Vec::new();
    let mut i: usize = 0;
    assert(t@.skip(0) =~= t@);
    assert(digits@ + leading_digits(t@) =~= leading_digits(t@));
    while i < t.len() && digit(t[i])
        invariant
            i <= t@.len(),
            leading_digits(t@) == digits@ + leading_digits(t@.skip(i as int)),
        decreases t@.len() - i,
    {
        let ghost before = digits@;
        digits.push(t[i]);
        assert(t@.skip(i as int).drop_first() =~= t@.skip(i + 1));
        assert(before + (seq![t@[i as int]] + leading_digits(t@.skip(i + 1))) =~= digits@
            + leading_digits(t@.skip(i + 1)));
        i += 1;
    }
    assert(digits@ + leading_digits(t@.skip(i as int)) =~= digits@);
    small_number_of(&digits)
}

/// The four digits at `i` write a year.
pub open spec fn year_at(s: Seq<char>, i: int) -> bool {
    &&& 0 <= i && i + 4 <= s.len()
    &&& text::all_digits(s.subrange(i, i + 4))
    &&& 1000 <= text::decimal(s.subrange(i, i + 4)) <= 2999
}

/// The first year written at or after `i`.
pub open spec fn first_year(s: Seq<char>, i: int) -> Option<i32>
    decreases s.len() - i,
{
    if i < 0 || i + 4 > s.len() {
        None
    } else if year_at(s, i) {
        Some(text::decimal(s.subrange(i, i + 4)) as i32)
    } else {
        first_year(s, i + 1)
    }
}

/// Pull a four-digit year out of a date tag (`1997`, `1997-08-12`, `08/1997`).
pub fn year_from_date(s: &str) -> (r: Option<i32>)
    ensures
        r == first_year(s@, 0),
{
    let v = chars_of(s);
    let mut i: usize = 0;
    while i < v.len() && v.len() - i >= 4
        invariant
            i <= v@.len(),
            v@ == s@,
            first_year(v@, 0) == first_year(v@, i as int),
        decreases v@.len() - i,
    {
        if let Some(y) = number_of(&slice_chars(&v, i, i + 4), 2999) {
            if y >= 1000 {
                return Some(y as i32);
            }
        }
        i += 1;
    }
    None
}

/// How often a text occurs in a list.
pub open spec fn occurrences(values: Seq<Option<Seq<char>>>, v: Seq<char>) -> nat
    decreases values.len(),
{
    if values.len() == 0 {
        0
    } else if values.last() == Some(v) {
        occurrences(values.drop_last(), v) + 1
    } else {
        occurrences(values.drop_last(), v)
    }
}

/// The position, among the first `n`, of the value that occurs most often in
/// the whole list; the earliest of several. Blank values do not count. -1 when
/// there is none.
pub open spec fn most_frequent(values: Seq<Option<Seq<char>>>, n: int) -> int
    decreases n,
{
    if n <= 0 {
        -1
    } else {
        let best = most_frequent(values, n - 1);
        match values[n - 1] {
            Some(v) => if text::is_blank(v) {
                best
            } else if best < 0 || occurrences(values, v) > occurrences(
                values,
                values[best].unwrap(),
            ) {
                n - 1
            } else {
                best
            },
            None => best,
        }
    }
}

/// The value a list agrees on most.
pub open spec fn majority_of(values: Seq<Option<Seq<char>>>) -> Option<Seq<char>> {
    let i = most_frequent(values, values.len() as int);
    if i < 0 {
        None
    } else {
        values[i]
    }
}

proof fn lemma_most_frequent(values: Seq<Option<Seq<char>>>, n: int)
    requires
        n <= values.len(),
    ensures
        most_frequent(values, n) < n || n <= 0,
        most_frequent(values, n) >= 0 ==> {
            &&& values[most_frequent(values, n)] matches Some(v)
            &&& !text::is_blank(v)
        },
        forall|j: int|
            0 <= j < n && (#[trigger] values[j]) is Some && !text::is_blank(values[j].unwrap()) ==> {
                let best = most_frequent(values, n);
                &&& best >= 0
                &&& occurrences(values, values[j].unwrap()) <= occurrences(
                    values,
                    values[best].unwrap(),
                )
                &&& j < best ==> occurrences(values, values[j].unwrap()) < occurrences(
                    values,
                    values[best].unwrap(),
                )
            },
    decreases n,
{
    if n > 0 {
        lemma_most_frequent(values, n - 1);
    }
}

/// The majority value is one of the list and not blank, no other value occurs
/// more often, and one that occurs as often does not stand before it. There is
/// none only when every value is missing or blank.
pub proof fn majority_wins(values: Seq<Option<Seq<char>>>)
    ensures
        majority_of(values) matches Some(v) ==> values.contains(Some(v)) && !text::is_blank(v),
        majority_of(values) is None ==> forall|j: int|
            0 <= j < values.len() && (#[trigger] values[j]) is Some ==> text::is_blank(
                values[j].unwrap(),
            ),
        majority_of(values) matches Some(v) ==> forall|w: Seq<char>| #[trigger]
            values.contains(Some(w)) && !text::is_blank(w) ==> occurrences(values, w)
                <= occurrences(values, v),
        majority_of(values) matches Some(v) ==> forall|j: int|
            0 <= j < values.index_of_first(Some(v)).unwrap() && (#[trigger] values[j]) is Some
                && !text::is_blank(values[j].unwrap()) ==> occurrences(values, values[j].unwrap())
                < occurrences(values, v),
{
    let n = values.len() as int;
    lemma_most_frequent(values, n);
    let best = most_frequent(values, n);
    if best >= 0 {
        let v = values[best].unwrap();
        assert(values[best] == Some(v));
        values.index_of_first_ensures(Some(v));
        let first = values.index_of_first(Some(v)).unwrap();
        assert(first <= best);
        if first < best {
            assert(values[first] == Some(v));
        }
        assert forall|w: Seq<char>| #[trigger]
            values.contains(Some(w)) && !text::is_blank(w) implies occurrences(values, w)
            <= occurrences(values, v) by {
            let j = choose|j: int| 0 <= j < values.len() && values[j] == Some(w);
            assert(values[j] is Some);
        }
    }
}

fn count_of(values: &Vec<Option<String>>, v: &String) -> (r: usize)
    ensures
        r == occurrences(text::opt_texts(values@), v@),
{
    let ghost all = text::opt_texts(values@);
    let mut n: usize = 0;
    for i in 0..values.len()
        invariant
            all == text::opt_texts(values@),
            n == occurrences(all.take(i as int), v@),
            n <= i,
    {
        assert(all.take(i + 1).drop_last() =~= all.take(i as int));
        if let Some(w) = &values[i] {
            if same_text(w, v) {
                n += 1;
            }
        }
    }
    assert(all.take(all.len() as int) =~= all);
    n
}

/// The most frequent non-blank value, ties broken by first occurrence. Used to
/// pick one album artist, year or identifier for a whole album when individual
/// files disagree.
pub fn majority(values: Vec<Option<String>>) -> (r: Option<String>)
    ensures
        text::opt_text(r) == majority_of(text::opt_texts(values@)),
{
    let ghost all = text::opt_texts(values@);
    let mut best: Option<usize> = None;
    let mut best_count: usize = 0;
    for i in 0..values.len()
        invariant
            all == text::opt_texts(values@),
            match best {
                Some(b) => {
                    &&& b < i
                    &&& most_frequent(all, i as int) == b
                    &&& all[b as int] is Some
                    &&& best_count == occurrences(all, all[b as int].unwrap())
                },
                None => most_frequent(all, i as int) == -1,
            },
    {
        if let Some(v) = &values[i] {
            if !text::blank(v) {
                let count: usize = count_of(&values, v);
                if best.is_none() || count > best_count {
                    best = Some(i);
                    best_count = count;
                }
            }
        }
    }
    match best {
        Some(b) => values[b].clone(),
        None => None,
    }
}

/// A folder called `Disc`, `Disk` or `CD` and a number, in digits or in words, with
/// spaces, dashes, dots or number signs between them, is that disc of the album.
pub proof fn disc_folders_give_their_number(
    name: Seq<char>,
    word: Seq<char>,
    sep: Seq<char>,
    number: Seq<char>,
    n: u32,
)
    requires
        word == "disc"@ || word == "disk"@ || word == "cd"@,
        forall|i: int| 0 <= i < sep.len() ==> " -_.#"@.contains(#[trigger] sep[i]),
        writes_disc(number, n),
        norm(name) == word + sep + number,
    ensures
        dir_disc(name) == Some(n),
{
    reveal_strlit("disc");
    reveal_strlit("disk");
    reveal_strlit("cd");
    reveal_strlit(" -_.#");
    assert(dir_separators() =~= " -_.#"@);
    lemma_number_chars(number, n);
    let whole = word + sep + number;
    let rest = sep + number;
    let k = word.len() as int;
    assert(whole.take(k) =~= word);
    assert(whole.skip(k) =~= rest);
    if word == "disk"@ {
        assert(whole.take(4)[3] == 'k');
        assert(!"disc"@.is_prefix_of(whole)) by {
            if "disc"@.is_prefix_of(whole) {
                assert(whole.take(4)[3] == "disc"@[3]);
            }
        }
    }
    if word == "cd"@ {
        assert(whole[0] == 'c');
        assert(!"disc"@.is_prefix_of(whole)) by {
            if "disc"@.is_prefix_of(whole) {
                assert(whole.take(4)[0] == "disc"@[0]);
            }
        }
        assert(!"disk"@.is_prefix_of(whole)) by {
            if "disk"@.is_prefix_of(whole) {
                assert(whole.take(4)[0] == "disk"@[0]);
            }
        }
    }
    assert(after_disc_word(whole) == Some(rest));
    assert(!text::is_trimmed(number.first(), dir_separators(), false)) by {
        assert(number_char(number[0]));
    }
    lemma_trim_front_run(sep, number, dir_separators(), false);
}

} // verus!
