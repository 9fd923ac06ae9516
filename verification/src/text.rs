//! Text primitives: white space, trimming, ASCII case, and decimal numbers.
//!
//! Text is worked on as a sequence of characters. The executable functions take
//! and return `Vec<char>` between the two conversions at the edges.

use vstd::prelude::*;

verus! {

/// Appending one character: `String::push` adds it at the end and changes
/// nothing before it.
pub assume_specification[ String::push ](s: &mut String, c: char)
    ensures
        final(s)@ == old(s)@.push(c),
;

/// The characters of a text, in order.
pub fn chars_of(s: &str) -> (out: Vec<char>)
    ensures
        out@ == s@,
{
    let mut out: Vec<char> = Vec::new();
    for c in it: s.chars()
        invariant
            out@ == s@.take(it.index() as int),
            it.seq() == s@,
    {
        out.push(c);
        assert(s@.take(it.index() + 1) =~= s@.take(it.index() as int).push(c));
    }
    assert(s@.take(s@.len() as int) =~= s@);
    out
}

/// The text made of the given characters.
pub fn text_of(v: &Vec<char>) -> (out: String)
    ensures
        out@ == v@,
{
    let mut out = String::new();
    for i in 0..v.len()
        invariant
            out@ == v@.take(i as int),
    {
        out.push(v[i]);
        assert(v@.take(i + 1) =~= v@.take(i as int).push(v@[i as int]));
    }
    assert(v@.take(v@.len() as int) =~= v@);
    out
}

/// Whether a character has the Unicode `White_Space` property.
pub open spec fn is_white_space(c: char) -> bool {
    ||| '\u{9}' <= c <= '\u{d}'
    ||| c == ' '
    ||| c == '\u{85}'
    ||| c == '\u{a0}'
    ||| c == '\u{1680}'
    ||| '\u{2000}' <= c <= '\u{200a}'
    ||| c == '\u{2028}'
    ||| c == '\u{2029}'
    ||| c == '\u{202f}'
    ||| c == '\u{205f}'
    ||| c == '\u{3000}'
}

pub fn white_space(c: char) -> (r: bool)
    ensures
        r == is_white_space(c),
{
    ('\u{9}' <= c && c <= '\u{d}') || c == ' ' || c == '\u{85}' || c == '\u{a0}' || c == '\u{1680}'
        || ('\u{2000}' <= c && c <= '\u{200a}') || c == '\u{2028}' || c == '\u{2029}'
        || c == '\u{202f}' || c == '\u{205f}' || c == '\u{3000}'
}

/// Whether a character is one of `0` to `9`.
pub open spec fn is_digit(c: char) -> bool {
    '0' <= c <= '9'
}

pub fn digit(c: char) -> (r: bool)
    ensures
        r == is_digit(c),
{
    '0' <= c && c <= '9'
}

/// The character with `A` to `Z` mapped to `a` to `z` and all others kept.
pub open spec fn ascii_lower(c: char) -> char {
    if 'A' <= c <= 'Z' {
        ((c as u8) + 32) as char
    } else {
        c
    }
}

pub fn lower_ascii(c: char) -> (r: char)
    ensures
        r == ascii_lower(c),
{
    if 'A' <= c && c <= 'Z' {
        ((c as u8) + 32) as char
    } else {
        c
    }
}

/// A text with its ASCII capitals lowered.
pub open spec fn ascii_lowered(s: Seq<char>) -> Seq<char> {
    s.map_values(|c: char| ascii_lower(c))
}

pub fn lower_ascii_all(v: &Vec<char>) -> (out: Vec<char>)
    ensures
        out@ == ascii_lowered(v@),
{
    let mut out: Vec<char> = Vec::new();
    for i in 0..v.len()
        invariant
            out@ == ascii_lowered(v@.take(i as int)),
    {
        out.push(lower_ascii(v[i]));
        assert(ascii_lowered(v@.take(i + 1)) =~= ascii_lowered(v@.take(i as int)).push(
            ascii_lower(v@[i as int]),
        ));
    }
    assert(v@.take(v@.len() as int) =~= v@);
    out
}

/// Whether trimming removes a character: it is in `set`, or white space is
/// being trimmed and it is white space.
pub open spec fn is_trimmed(c: char, set: Seq<char>, white: bool) -> bool {
    set.contains(c) || (white && is_white_space(c))
}

/// The text without the leading characters that trimming removes.
pub open spec fn trim_front(s: Seq<char>, set: Seq<char>, white: bool) -> Seq<char>
    decreases s.len(),
{
    if s.len() > 0 && is_trimmed(s.first(), set, white) {
        trim_front(s.drop_first(), set, white)
    } else {
        s
    }
}

/// The text without the trailing characters that trimming removes.
pub open spec fn trim_back(s: Seq<char>, set: Seq<char>, white: bool) -> Seq<char>
    decreases s.len(),
{
    if s.len() > 0 && is_trimmed(s.last(), set, white) {
        trim_back(s.drop_last(), set, white)
    } else {
        s
    }
}

/// The text without its leading and trailing white space.
pub open spec fn trimmed(s: Seq<char>) -> Seq<char> {
    trim_back(trim_front(s, Seq::empty(), true), Seq::empty(), true)
}

/// A text that holds nothing but white space.
pub open spec fn is_blank(s: Seq<char>) -> bool {
    trimmed(s).len() == 0
}

pub fn contains_char(v: &Vec<char>, c: char) -> (r: bool)
    ensures
        r == v@.contains(c),
{
    for i in 0..v.len()
        invariant
            forall|j: int| 0 <= j < i ==> v@[j] != c,
    {
        if v[i] == c {
            return true;
        }
    }
    false
}

/// A copy of `v[from..to]`.
pub fn slice_chars(v: &Vec<char>, from: usize, to: usize) -> (out: Vec<char>)
    requires
        from <= to <= v@.len(),
    ensures
        out@ == v@.subrange(from as int, to as int),
{
    let mut out: Vec<char> = Vec::new();
    for i in from..to
        invariant
            from <= to <= v@.len(),
            out@ == v@.subrange(from as int, i as int),
    {
        out.push(v[i]);
        assert(v@.subrange(from as int, i + 1) =~= v@.subrange(from as int, i as int).push(
            v@[i as int],
        ));
    }
    out
}

pub fn trim_front_of(v: &Vec<char>, set: &Vec<char>, white: bool) -> (out: Vec<char>)
    ensures
        out@ == trim_front(v@, set@, white),
{
    let mut i: usize = 0;
    assert(v@.skip(0) =~= v@);
    while i < v.len() && (contains_char(set, v[i]) || (white && white_space(v[i])))
        invariant
            i <= v@.len(),
            trim_front(v@, set@, white) == trim_front(v@.skip(i as int), set@, white),
        decreases v@.len() - i,
    {
        assert(v@.skip(i as int).drop_first() =~= v@.skip(i + 1));
        i += 1;
    }
    assert(v@.skip(i as int) =~= v@.subrange(i as int, v@.len() as int));
    slice_chars(v, i, v.len())
}

pub fn trim_back_of(v: &Vec<char>, set: &Vec<char>, white: bool) -> (out: Vec<char>)
    ensures
        out@ == trim_back(v@, set@, white),
{
    let mut n: usize = v.len();
    assert(v@.take(n as int) =~= v@);
    while n > 0 && (contains_char(set, v[n - 1]) || (white && white_space(v[n - 1])))
        invariant
            n <= v@.len(),
            trim_back(v@, set@, white) == trim_back(v@.take(n as int), set@, white),
        decreases n,
    {
        assert(v@.take(n as int).drop_last() =~= v@.take(n - 1));
        n -= 1;
    }
    assert(v@.take(n as int) =~= v@.subrange(0, n as int));
    slice_chars(v, 0, n)
}

pub fn trim_of(v: &Vec<char>) -> (out: Vec<char>)
    ensures
        out@ == trimmed(v@),
{
    let none: Vec<char> = Vec::new();
    let front = trim_front_of(v, &none, true);
    trim_back_of(&front, &none, true)
}

/// Whether a text holds nothing but white space.
pub fn blank(s: &str) -> (r: bool)
    ensures
        r == is_blank(s@),
{
    trim_of(&chars_of(s)).len() == 0
}

pub fn same_chars(a: &Vec<char>, b: &Vec<char>) -> (r: bool)
    ensures
        r == (a@ == b@),
{
    if a.len() != b.len() {
        return false;
    }
    for i in 0..a.len()
        invariant
            a@.len() == b@.len(),
            forall|j: int| 0 <= j < i ==> a@[j] == b@[j],
    {
        if a[i] != b[i] {
            return false;
        }
    }
    assert(a@ =~= b@);
    true
}

/// Whether two texts are the same.
pub fn same_text(a: &str, b: &str) -> (r: bool)
    ensures
        r == (a@ == b@),
{
    same_chars(&chars_of(a), &chars_of(b))
}

/// Whether `needle` stands in `s` at position `i`.
pub open spec fn occurs_at(s: Seq<char>, needle: Seq<char>, i: int) -> bool {
    0 <= i && i + needle.len() <= s.len() && s.subrange(i, i + needle.len()) == needle
}

pub fn found_at(v: &Vec<char>, needle: &Vec<char>, i: usize) -> (r: bool)
    ensures
        r == occurs_at(v@, needle@, i as int),
{
    if i > v.len() || needle.len() > v.len() - i {
        return false;
    }
    let n: usize = v.len();
    for j in 0..needle.len()
        invariant
            n == v@.len(),
            i + needle@.len() <= n,
            forall|k: int| 0 <= k < j ==> v@[i + k] == needle@[k],
    {
        if v[i + j] != needle[j] {
            assert(v@.subrange(i as int, i + needle@.len())[j as int] != needle@[j as int]);
            return false;
        }
    }
    assert(v@.subrange(i as int, i + needle@.len()) =~= needle@);
    true
}

/// The first position at or after `from` where `needle` stands.
pub open spec fn first_at(s: Seq<char>, needle: Seq<char>, from: int) -> Option<int>
    decreases s.len() + 1 - from,
{
    if from < 0 || from + needle.len() > s.len() {
        None
    } else if occurs_at(s, needle, from) {
        Some(from)
    } else {
        first_at(s, needle, from + 1)
    }
}

pub fn find_from(v: &Vec<char>, needle: &Vec<char>, from: usize) -> (r: Option<usize>)
    ensures
        match r {
            Some(i) => first_at(v@, needle@, from as int) == Some(i as int),
            None => first_at(v@, needle@, from as int) is None,
        },
        r matches Some(i) ==> from <= i && i + needle@.len() <= v@.len(),
{
    let mut i: usize = from;
    while i <= v.len() && needle.len() <= v.len() - i
        invariant
            from <= i,
            first_at(v@, needle@, from as int) == first_at(v@, needle@, i as int),
        decreases v@.len() + 1 - i,
    {
        if found_at(v, needle, i) {
            return Some(i);
        }
        if i == v.len() {
            assert(v@.subrange(i as int, i as int) =~= needle@);
            return None;
        }
        i += 1;
    }
    None
}

pub fn starts_with(v: &Vec<char>, prefix: &Vec<char>) -> (r: bool)
    ensures
        r == prefix@.is_prefix_of(v@),
{
    found_at(v, prefix, 0)
}

/// Append the characters of `more`.
pub fn append_chars(v: &mut Vec<char>, more: &Vec<char>)
    ensures
        final(v)@ == old(v)@ + more@,
{
    let ghost start = v@;
    assert(start + more@.take(0) =~= start);
    for i in 0..more.len()
        invariant
            v@ == start + more@.take(i as int),
    {
        v.push(more[i]);
        assert(start + more@.take(i + 1) =~= (start + more@.take(i as int)).push(more@[i as int]));
    }
    assert(more@.take(more@.len() as int) =~= more@);
}

/// Append a text.
pub fn append_text(v: &mut Vec<char>, more: &str)
    ensures
        final(v)@ == old(v)@ + more@,
{
    append_chars(v, &chars_of(more));
}

/// A text of decimal digits and nothing else.
pub open spec fn all_digits(s: Seq<char>) -> bool {
    forall|i: int| 0 <= i < s.len() ==> is_digit(#[trigger] s[i])
}

/// The number that a run of decimal digits writes.
pub open spec fn decimal(s: Seq<char>) -> nat
    decreases s.len(),
{
    if s.len() == 0 {
        0
    } else {
        10 * decimal(s.drop_last()) + ((s.last() as int) - ('0' as int)) as nat
    }
}

/// The number a text writes: one or more digits, and no more than `max`.
pub open spec fn parse_decimal(s: Seq<char>, max: nat) -> Option<nat> {
    if s.len() > 0 && all_digits(s) && decimal(s) <= max {
        Some(decimal(s))
    } else {
        None
    }
}

proof fn lemma_decimal_grows(s: Seq<char>, n: int)
    requires
        0 <= n <= s.len(),
        all_digits(s),
    ensures
        decimal(s.take(n)) <= decimal(s),
    decreases s.len() - n,
{
    if n < s.len() {
        lemma_decimal_grows(s, n + 1);
        assert(s.take(n + 1).drop_last() =~= s.take(n));
        assert(is_digit(s[n]));
    } else {
        assert(s.take(n) =~= s);
    }
}

pub fn number_of(v: &Vec<char>, max: u64) -> (r: Option<u64>)
    ensures
        match r {
            Some(n) => parse_decimal(v@, max as nat) == Some(n as nat),
            None => parse_decimal(v@, max as nat) is None,
        },
{
    if v.len() == 0 {
        return None;
    }
    for i in 0..v.len()
        invariant
            all_digits(v@.take(i as int)),
    {
        if !digit(v[i]) {
            assert(!is_digit(v@[i as int]));
            return None;
        }
        assert(v@.take(i + 1) =~= v@.take(i as int).push(v@[i as int]));
    }
    assert(v@.take(v@.len() as int) =~= v@);
    let mut n: u64 = 0;
    for i in 0..v.len()
        invariant
            all_digits(v@),
            n == decimal(v@.take(i as int)),
            n <= max,
    {
        assert(is_digit(v@[i as int]));
        assert(v@.take(i + 1).drop_last() =~= v@.take(i as int));
        let d: u64 = (v[i] as u8 - '0' as u8) as u64;
        if n > max / 10 || d > max - 10 * n {
            proof {
                lemma_decimal_grows(v@, i + 1);
            }
            return None;
        }
        n = 10 * n + d;
    }
    assert(v@.take(v@.len() as int) =~= v@);
    Some(n)
}

/// The number an unsigned integer text writes: digits, with one leading `+`
/// allowed.
pub open spec fn parse_unsigned(s: Seq<char>, max: nat) -> Option<nat> {
    if s.len() > 0 && s[0] == '+' {
        parse_decimal(s.skip(1), max)
    } else {
        parse_decimal(s, max)
    }
}

pub fn unsigned_of(v: &Vec<char>, max: u64) -> (r: Option<u64>)
    ensures
        match r {
            Some(n) => parse_unsigned(v@, max as nat) == Some(n as nat),
            None => parse_unsigned(v@, max as nat) is None,
        },
{
    if v.len() > 0 && v[0] == '+' {
        assert(v@.skip(1) =~= v@.subrange(1, v@.len() as int));
        number_of(&slice_chars(v, 1, v.len()), max)
    } else {
        number_of(v, max)
    }
}

/// The character for one decimal digit.
pub open spec fn digit_char(d: int) -> char {
    (('0' as u8) + d) as u8 as char
}

/// A number in decimal, without leading zeros.
pub open spec fn decimal_text(n: nat) -> Seq<char>
    decreases n,
{
    if n < 10 {
        seq![digit_char(n as int)]
    } else {
        decimal_text(n / 10).push(digit_char((n % 10) as int))
    }
}

/// A signed number in decimal.
pub open spec fn int_text(n: int) -> Seq<char> {
    if n < 0 {
        seq!['-'] + decimal_text((-n) as nat)
    } else {
        decimal_text(n as nat)
    }
}

pub fn decimal_chars(n: u64) -> (out: Vec<char>)
    ensures
        out@ == decimal_text(n as nat),
    decreases n,
{
    if n < 10 {
        let mut out: Vec<char> = Vec::new();
        out.push((('0' as u8) + (n as u8)) as char);
        assert(out@ =~= decimal_text(n as nat));
        out
    } else {
        let mut out = decimal_chars(n / 10);
        out.push((('0' as u8) + ((n % 10) as u8)) as char);
        out
    }
}

pub fn int_chars(n: i64) -> (out: Vec<char>)
    ensures
        out@ == int_text(n as int),
{
    if n < 0 {
        let size: u64 = ((-(n + 1)) as u64) + 1;
        let mut out: Vec<char> = Vec::new();
        out.push('-');
        append_chars(&mut out, &decimal_chars(size));
        assert(out@ =~= int_text(n as int));
        out
    } else {
        decimal_chars(n as u64)
    }
}

/// A run of spaces.
pub open spec fn spaces(n: int) -> Seq<char>
    decreases n,
{
    if n <= 0 {
        Seq::empty()
    } else {
        spaces(n - 1).push(' ')
    }
}

/// A text set flush right in a column of the given width. A longer one runs over.
pub open spec fn flush_right(s: Seq<char>, width: int) -> Seq<char> {
    spaces(width - s.len()) + s
}

/// A text cut to a column of the given width and filled up behind.
pub open spec fn flush_left(s: Seq<char>, width: int) -> Seq<char> {
    if s.len() >= width {
        s.take(width)
    } else {
        s + spaces(width - s.len())
    }
}

fn spaces_of(n: usize) -> (out: Vec<char>)
    ensures
        out@ == spaces(n as int),
{
    let mut out: Vec<char> = Vec::new();
    for i in 0..n
        invariant
            out@ == spaces(i as int),
    {
        out.push(' ');
    }
    out
}

pub fn right_of(v: &Vec<char>, width: usize) -> (out: Vec<char>)
    ensures
        out@ == flush_right(v@, width as int),
{
    let mut out = if v.len() < width {
        spaces_of(width - v.len())
    } else {
        Vec::new()
    };
    append_chars(&mut out, v);
    out
}

pub fn left_of(v: &Vec<char>, width: usize) -> (out: Vec<char>)
    ensures
        out@ == flush_left(v@, width as int),
{
    if v.len() >= width {
        let out = slice_chars(v, 0, width);
        assert(out@ =~= v@.take(width as int));
        out
    } else {
        let mut out = slice_chars(v, 0, v.len());
        assert(out@ =~= v@);
        append_chars(&mut out, &spaces_of(width - v.len()));
        out
    }
}

/// Dictionary order by code point: `a` comes strictly before `b`.
pub open spec fn text_before(a: Seq<char>, b: Seq<char>) -> bool
    decreases a.len(),
{
    if b.len() == 0 {
        false
    } else if a.len() == 0 {
        true
    } else if a[0] != b[0] {
        a[0] < b[0]
    } else {
        text_before(a.drop_first(), b.drop_first())
    }
}

pub fn chars_before(a: &Vec<char>, b: &Vec<char>) -> (r: bool)
    ensures
        r == text_before(a@, b@),
{
    let mut i: usize = 0;
    assert(a@.skip(0) =~= a@);
    assert(b@.skip(0) =~= b@);
    loop
        invariant
            i <= a@.len(),
            i <= b@.len(),
            text_before(a@, b@) == text_before(a@.skip(i as int), b@.skip(i as int)),
        decreases a@.len() - i,
    {
        if i == b.len() {
            return false;
        }
        if i == a.len() {
            return true;
        }
        if a[i] != b[i] {
            return a[i] < b[i];
        }
        assert(a@.skip(i as int).drop_first() =~= a@.skip(i + 1));
        assert(b@.skip(i as int).drop_first() =~= b@.skip(i + 1));
        i += 1;
    }
}

/// Dictionary order is a strict order in which distinct texts always compare.
pub proof fn text_order_is_total(a: Seq<char>, b: Seq<char>)
    ensures
        !(text_before(a, b) && text_before(b, a)),
        a != b ==> text_before(a, b) || text_before(b, a),
        !text_before(a, a),
    decreases a.len(),
{
    if a.len() > 0 {
        text_order_is_total(a.drop_first(), a.drop_first());
    }
    if a.len() > 0 && b.len() > 0 && a[0] == b[0] {
        text_order_is_total(a.drop_first(), b.drop_first());
        if a.drop_first() == b.drop_first() {
            assert(a =~= seq![a[0]] + a.drop_first());
            assert(b =~= seq![b[0]] + b.drop_first());
        }
    } else if a.len() == 0 && b.len() == 0 {
        assert(a =~= b);
    }
}

/// Dictionary order carries across a middle text.
pub proof fn text_order_is_transitive(a: Seq<char>, b: Seq<char>, c: Seq<char>)
    requires
        text_before(a, b),
        text_before(b, c),
    ensures
        text_before(a, c),
    decreases a.len(),
{
    if a.len() > 0 && a[0] == b[0] && b[0] == c[0] {
        text_order_is_transitive(a.drop_first(), b.drop_first(), c.drop_first());
    }
}

/// A text cut at every `sep`; never empty, and one longer than the number of
/// separators.
pub open spec fn split(s: Seq<char>, sep: char) -> Seq<Seq<char>>
    decreases s.len(),
{
    if s.len() == 0 {
        seq![Seq::empty()]
    } else if s.last() == sep {
        split(s.drop_last(), sep).push(Seq::empty())
    } else {
        let before = split(s.drop_last(), sep);
        before.drop_last().push(before.last().push(s.last()))
    }
}

/// Pieces put together with `sep` between them.
pub open spec fn join(pieces: Seq<Seq<char>>, sep: Seq<char>) -> Seq<char>
    decreases pieces.len(),
{
    if pieces.len() == 0 {
        Seq::empty()
    } else if pieces.len() == 1 {
        pieces[0]
    } else {
        join(pieces.drop_last(), sep) + sep + pieces.last()
    }
}

/// The character sequences of a list of character vectors.
pub open spec fn each_chars(v: Seq<Vec<char>>) -> Seq<Seq<char>> {
    v.map_values(|p: Vec<char>| p@)
}

pub fn split_of(v: &Vec<char>, sep: char) -> (out: Vec<Vec<char>>)
    ensures
        each_chars(out@) == split(v@, sep),
        out@.len() >= 1,
{
    let mut out: Vec<Vec<char>> = Vec::new();
    let mut piece: Vec<char> = Vec::new();
    assert(each_chars(out@).push(piece@) =~= split(v@.take(0), sep));
    for i in 0..v.len()
        invariant
            each_chars(out@).push(piece@) == split(v@.take(i as int), sep),
    {
        assert(v@.take(i + 1).drop_last() =~= v@.take(i as int));
        let ghost before = each_chars(out@).push(piece@);
        assert(before.drop_last() =~= each_chars(out@));
        if v[i] == sep {
            let ghost done = out@.push(piece);
            assert(each_chars(done) =~= before);
            out.push(piece);
            piece = Vec::new();
            assert(each_chars(out@).push(piece@) =~= split(v@.take(i + 1), sep));
        } else {
            piece.push(v[i]);
            assert(each_chars(out@).push(piece@) =~= split(v@.take(i + 1), sep));
        }
    }
    assert(v@.take(v@.len() as int) =~= v@);
    let ghost whole = out@.push(piece);
    assert(each_chars(whole) =~= each_chars(out@).push(piece@));
    out.push(piece);
    out
}

pub fn join_of(pieces: &Vec<Vec<char>>, sep: &Vec<char>) -> (out: Vec<char>)
    ensures
        out@ == join(each_chars(pieces@), sep@),
{
    let mut out: Vec<char> = Vec::new();
    for i in 0..pieces.len()
        invariant
            out@ == join(each_chars(pieces@).take(i as int), sep@),
    {
        let ghost all = each_chars(pieces@);
        assert(all.take(i + 1).drop_last() =~= all.take(i as int));
        if i > 0 {
            append_chars(&mut out, sep);
        }
        append_chars(&mut out, &pieces[i]);
        assert(out@ =~= join(all.take(i + 1), sep@));
    }
    assert(each_chars(pieces@).take(pieces@.len() as int) =~= each_chars(pieces@));
    out
}

/// Every piece of a split is free of the separator, and joining the pieces
/// gives the text back.
pub proof fn split_then_join(s: Seq<char>, sep: char)
    ensures
        split(s, sep).len() >= 1,
        join(split(s, sep), seq![sep]) == s,
        forall|i: int| 0 <= i < split(s, sep).len() ==> !(#[trigger] split(s, sep)[i]).contains(sep),
    decreases s.len(),
{
    if s.len() > 0 {
        let rest = s.drop_last();
        split_then_join(rest, sep);
        let before = split(rest, sep);
        let now = split(s, sep);
        if s.last() == sep {
            assert(now.drop_last() =~= before);
            assert(join(now, seq![sep]) =~= s);
        } else {
            assert(now.drop_last() =~= before.drop_last());
            assert(s =~= rest.push(s.last()));
            if before.len() == 1 {
                assert(rest == before[0]);
                assert(s =~= before[0].push(s.last()));
            } else {
                assert(rest == join(before.drop_last(), seq![sep]) + seq![sep] + before.last());
                assert(s =~= join(before.drop_last(), seq![sep]) + seq![sep] + before.last().push(
                    s.last(),
                ));
            }
            assert(join(now, seq![sep]) == s);
            assert forall|i: int| 0 <= i < now.len() implies !(#[trigger] now[i]).contains(sep) by {
                if i < before.len() - 1 {
                    assert(now[i] == before[i]);
                } else {
                    let last = before.last();
                    assert(!before[before.len() - 1].contains(sep));
                    assert forall|k: int| 0 <= k < now[i].len() implies now[i][k] != sep by {
                        if k < last.len() {
                            assert(last.contains(last[k]));
                        }
                    }
                }
            }
        }
    }
}

/// A text without `prefix` in front, when it starts with it.
pub open spec fn stripped(s: Seq<char>, prefix: Seq<char>) -> Option<Seq<char>> {
    if prefix.is_prefix_of(s) {
        Some(s.skip(prefix.len() as int))
    } else {
        None
    }
}

pub fn strip_front(v: &Vec<char>, prefix: &str) -> (r: Option<Vec<char>>)
    ensures
        match r {
            Some(rest) => stripped(v@, prefix@) == Some(rest@),
            None => stripped(v@, prefix@) is None,
        },
{
    let p = chars_of(prefix);
    if starts_with(v, &p) {
        assert(v@.skip(p@.len() as int) =~= v@.subrange(p@.len() as int, v@.len() as int));
        Some(slice_chars(v, p.len(), v.len()))
    } else {
        None
    }
}

/// The last position below `n` where `needle` stands, or -1.
pub open spec fn last_at(s: Seq<char>, needle: Seq<char>, n: int) -> int
    decreases n,
{
    if n <= 0 {
        -1
    } else if occurs_at(s, needle, n - 1) {
        n - 1
    } else {
        last_at(s, needle, n - 1)
    }
}

pub fn find_last(v: &Vec<char>, needle: &Vec<char>) -> (r: Option<usize>)
    ensures
        match r {
            Some(i) => last_at(v@, needle@, v@.len() as int) == i as int && i + needle@.len()
                <= v@.len(),
            None => last_at(v@, needle@, v@.len() as int) == -1,
        },
{
    let mut n: usize = v.len();
    while n > 0
        invariant
            n <= v@.len(),
            last_at(v@, needle@, v@.len() as int) == last_at(v@, needle@, n as int),
        decreases n,
    {
        if found_at(v, needle, n - 1) {
            return Some(n - 1);
        }
        n -= 1;
    }
    None
}

/// A text with a backslash in front of each character of a set.
pub open spec fn escaped(s: Seq<char>, set: Seq<char>) -> Seq<char>
    decreases s.len(),
{
    if s.len() == 0 {
        Seq::empty()
    } else {
        let before = escaped(s.drop_last(), set);
        if set.contains(s.last()) {
            before.push('\\').push(s.last())
        } else {
            before.push(s.last())
        }
    }
}

pub fn escape(v: &Vec<char>, set: &Vec<char>) -> (out: Vec<char>)
    ensures
        out@ == escaped(v@, set@),
{
    let mut out: Vec<char> = Vec::new();
    for i in 0..v.len()
        invariant
            out@ == escaped(v@.take(i as int), set@),
    {
        assert(v@.take(i + 1).drop_last() =~= v@.take(i as int));
        if contains_char(set, v[i]) {
            out.push('\\');
        }
        out.push(v[i]);
    }
    assert(v@.take(v@.len() as int) =~= v@);
    out
}

/// An escaped text as it is read: a character behind a backslash stands for
/// itself.
pub open spec fn unescaped(p: Seq<char>) -> Seq<char>
    decreases p.len(),
{
    if p.len() == 0 {
        Seq::empty()
    } else if p[0] == '\\' && p.len() > 1 {
        seq![p[1]] + unescaped(p.skip(2))
    } else {
        seq![p[0]] + unescaped(p.drop_first())
    }
}

pub proof fn lemma_escape_first(s: Seq<char>, set: Seq<char>)
    requires
        s.len() > 0,
    ensures
        escaped(s, set) == (if set.contains(s[0]) {
            seq!['\\', s[0]]
        } else {
            seq![s[0]]
        }) + escaped(s.drop_first(), set),
    decreases s.len(),
{
    let first = if set.contains(s[0]) {
        seq!['\\', s[0]]
    } else {
        seq![s[0]]
    };
    if s.len() == 1 {
        assert(s.drop_last() =~= Seq::empty());
        assert(s.drop_first() =~= Seq::empty());
        assert(escaped(s.drop_last(), set) =~= Seq::empty());
        assert(escaped(s, set) =~= first + escaped(s.drop_first(), set));
    } else {
        lemma_escape_first(s.drop_last(), set);
        assert(s.drop_last().drop_first() =~= s.drop_first().drop_last());
        assert(escaped(s, set) =~= first + escaped(s.drop_first(), set));
    }
}

/// Reading undoes escaping, when the backslash itself is escaped.
pub proof fn escaping_is_undone_by_reading(s: Seq<char>, set: Seq<char>)
    requires
        set.contains('\\'),
    ensures
        unescaped(escaped(s, set)) == s,
    decreases s.len(),
{
    if s.len() > 0 {
        lemma_escape_first(s, set);
        escaping_is_undone_by_reading(s.drop_first(), set);
        let rest = escaped(s.drop_first(), set);
        let c = s[0];
        if set.contains(c) {
            assert((seq!['\\', c] + rest).skip(2) =~= rest);
        } else {
            assert((seq![c] + rest).drop_first() =~= rest);
        }
        assert(seq![c] + s.drop_first() =~= s);
    } else {
        assert(escaped(s, set) =~= Seq::empty());
    }
}

/// The text in an optional string.
pub open spec fn opt_text(o: Option<String>) -> Option<Seq<char>> {
    match o {
        Some(s) => Some(s@),
        None => None,
    }
}

/// The texts in a list of optional strings.
pub open spec fn opt_texts(v: Seq<Option<String>>) -> Seq<Option<Seq<char>>> {
    v.map_values(|o: Option<String>| opt_text(o))
}

/// The length of a text in UTF-8 bytes.
pub open spec fn byte_len(s: Seq<char>) -> nat {
    vstd::utf8::encode_utf8(s).len()
}

pub fn bytes_in(s: &str) -> (r: usize)
    ensures
        r == byte_len(s@),
{
    s.as_bytes().len()
}

/// What `char::to_lowercase` yields for a character.
pub uninterp spec fn lowercase_of(c: char) -> Seq<char>;

/// Calls `char::to_lowercase`. The result is the character's Unicode lowercase
/// mapping, never empty; an ASCII character maps to its ASCII lowercase.
#[verifier::external_body]
pub(crate) fn to_lowercase(c: char) -> (out: Vec<char>)
    ensures
        out@ == lowercase_of(c),
        out@.len() >= 1,
        c < '\u{80}' ==> out@ == seq![ascii_lower(c)],
{
    c.to_lowercase().collect()
}

/// Whether `char::is_alphanumeric` holds of a character.
pub uninterp spec fn alphanumeric(c: char) -> bool;

/// Calls `char::is_alphanumeric`. Among the ASCII characters it holds of the
/// letters and digits and of nothing else.
#[verifier::external_body]
pub(crate) fn is_alphanumeric(c: char) -> (r: bool)
    ensures
        r == alphanumeric(c),
        c < '\u{80}' ==> r == ('0' <= c <= '9' || 'a' <= c <= 'z' || 'A' <= c <= 'Z'),
{
    c.is_alphanumeric()
}

} // verus!
