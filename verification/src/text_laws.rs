//! What writing and reading texts promises: numbers read back as they were
//! written, texts come apart where they were put together, and white space and
//! case do not matter where they should not.

use vstd::prelude::*;

use crate::text;
use crate::util;

verus! {

/// A number reads back as it was written, in digits and without a superfluous zero.
pub proof fn written_numbers_read_back(n: nat)
    ensures
        text::decimal_text(n).len() > 0,
        text::all_digits(text::decimal_text(n)),
        text::decimal(text::decimal_text(n)) == n,
        text::parse_decimal(text::decimal_text(n), n) == Some(n),
        text::decimal_text(n).len() > 1 ==> text::decimal_text(n)[0] != '0',
    decreases n,
{
    let t = text::decimal_text(n);
    if n < 10 {
        assert(t.drop_last() =~= Seq::empty());
        assert(text::decimal(t.drop_last()) == 0);
        assert(t.last() == text::digit_char(n as int));
    } else {
        written_numbers_read_back(n / 10);
        let front = text::decimal_text(n / 10);
        assert(t.drop_last() =~= front);
        assert(t[0] == front[0]);
        assert(front.len() == 1 ==> front[0] != '0') by {
            if front.len() == 1 {
                assert(front.drop_last() =~= Seq::empty());
                assert(text::decimal(front.drop_last()) == 0);
                assert(text::is_digit(front[0]));
                assert(text::decimal(front) == (front[0] as int) - ('0' as int));
            }
        }
        assert forall|i: int| 0 <= i < t.len() implies text::is_digit(#[trigger] t[i]) by {
            if i < front.len() {
                assert(text::is_digit(front[i]));
            }
        }
    }
}

/// Two numbers are written alike only when they are the same.
pub proof fn different_numbers_are_written_differently(m: int, n: int)
    ensures
        text::int_text(m) == text::int_text(n) <==> m == n,
        text::int_text(m).len() > 0,
        forall|i: int|
            0 <= i < text::int_text(m).len() ==> text::is_digit(#[trigger] text::int_text(m)[i])
                || text::int_text(m)[i] == '-',
{
    let (a, b) = (text::int_text(m), text::int_text(n));
    let size = |k: int| if k < 0 {
        (-k) as nat
    } else {
        k as nat
    };
    let (x, y) = (size(m), size(n));
    written_numbers_read_back(x);
    written_numbers_read_back(y);
    let (s, t) = (text::decimal_text(x), text::decimal_text(y));
    assert(text::is_digit(s[0]));
    assert(text::is_digit(t[0]));
    assert(m < 0 <==> a[0] == '-');
    assert(n < 0 <==> b[0] == '-');
    assert(m < 0 ==> a.skip(1) =~= s);
    assert(n < 0 ==> b.skip(1) =~= t);
    if a == b {
        assert(s == t);
        assert(x == y);
    }
}

proof fn lemma_split_at(a: Seq<char>, x: Seq<char>, b: Seq<char>, y: Seq<char>, sep: char)
    requires
        a + seq![sep] + x == b + seq![sep] + y,
        !a.contains(sep),
        !b.contains(sep),
    ensures
        a == b,
        x == y,
{
    let s = a + seq![sep] + x;
    let t = b + seq![sep] + y;
    if a.len() < b.len() {
        assert(s[a.len() as int] == sep);
        assert(t[a.len() as int] == b[a.len() as int]);
        assert(b.contains(sep));
    }
    if b.len() < a.len() {
        assert(t[b.len() as int] == sep);
        assert(s[b.len() as int] == a[b.len() as int]);
        assert(a.contains(sep));
    }
    assert forall|i: int| 0 <= i < a.len() implies a[i] == b[i] by {
        assert(s[i] == a[i]);
        assert(t[i] == b[i]);
    }
    assert(a =~= b);
    assert(s.len() == a.len() + 1 + x.len());
    assert(t.len() == b.len() + 1 + y.len());
    assert forall|i: int| 0 <= i < x.len() implies x[i] == y[i] by {
        assert(s[a.len() + 1 + i] == x[i]);
        assert(t[b.len() + 1 + i] == y[i]);
    }
    assert(x =~= y);
}

/// Texts put together around a separator that the first parts do not hold come
/// apart again in one way only.
pub proof fn joined_texts_come_apart(
    a: Seq<char>,
    x: Seq<char>,
    b: Seq<char>,
    y: Seq<char>,
    sep: char,
)
    requires
        !a.contains(sep),
        !b.contains(sep),
    ensures
        a + seq![sep] + x == b + seq![sep] + y <==> a == b && x == y,
{
    if a + seq![sep] + x == b + seq![sep] + y {
        lemma_split_at(a, x, b, y, sep);
    }
}

/// White space in front of and behind a text is trimmed off, and nothing else.
pub proof fn trimming_takes_off_white_space(front: Seq<char>, s: Seq<char>, back: Seq<char>)
    requires
        forall|i: int| 0 <= i < front.len() ==> text::is_white_space(#[trigger] front[i]),
        forall|i: int| 0 <= i < back.len() ==> text::is_white_space(#[trigger] back[i]),
        s.len() > 0 ==> !text::is_white_space(s.first()) && !text::is_white_space(s.last()),
    ensures
        text::trimmed(front + s + back) == s,
{
    let none = Seq::<char>::empty();
    lemma_front(front, s + back);
    assert(front + (s + back) =~= front + s + back);
    if s.len() == 0 {
        assert(s + back =~= back);
        lemma_front(back, none);
        assert(back + none =~= back);
        assert(text::trim_front(none, none, true) == none);
        assert(s =~= none);
    } else {
        assert((s + back).first() == s.first());
        assert(text::trim_front(s + back, none, true) == s + back);
        lemma_back(s, back);
    }
}

/// White space in front of a text is trimmed off it.
pub proof fn lemma_front(run: Seq<char>, s: Seq<char>)
    requires
        forall|i: int| 0 <= i < run.len() ==> text::is_white_space(#[trigger] run[i]),
    ensures
        text::trim_front(run + s, Seq::empty(), true) == text::trim_front(s, Seq::empty(), true),
    decreases run.len(),
{
    if run.len() == 0 {
        assert(run + s =~= s);
    } else {
        assert((run + s).first() == run[0]);
        assert((run + s).drop_first() =~= run.drop_first() + s);
        assert forall|i: int| 0 <= i < run.len() - 1 implies text::is_white_space(
            #[trigger] run.drop_first()[i],
        ) by {
            assert(run.drop_first()[i] == run[i + 1]);
        }
        lemma_front(run.drop_first(), s);
    }
}

proof fn lemma_back(s: Seq<char>, run: Seq<char>)
    requires
        s.len() > 0,
        !text::is_white_space(s.last()),
        forall|i: int| 0 <= i < run.len() ==> text::is_white_space(#[trigger] run[i]),
    ensures
        text::trim_back(s + run, Seq::empty(), true) == s,
    decreases run.len(),
{
    if run.len() == 0 {
        assert(s + run =~= s);
    } else {
        assert((s + run).last() == run[run.len() - 1]);
        assert((s + run).drop_last() =~= s + run.drop_last());
        assert forall|i: int| 0 <= i < run.len() - 1 implies text::is_white_space(
            #[trigger] run.drop_last()[i],
        ) by {
            assert(run.drop_last()[i] == run[i]);
        }
        lemma_back(s, run.drop_last());
    }
}

proof fn lemma_norm_tail(a: Seq<char>, b: Seq<char>, tail: Seq<char>)
    requires
        util::norm(a) == util::norm(b),
        (a.len() > 0 && text::is_white_space(a.last())) == (b.len() > 0 && text::is_white_space(
            b.last(),
        )),
        a.len() == 0 ==> util::norm(b).len() == 0,
        b.len() == 0 ==> util::norm(a).len() == 0,
    ensures
        util::norm(a + tail) == util::norm(b + tail),
    decreases tail.len(),
{
    if tail.len() == 0 {
        assert(a + tail =~= a);
        assert(b + tail =~= b);
    } else {
        let front = tail.drop_last();
        lemma_norm_tail(a, b, front);
        let (x, y) = (a + tail, b + tail);
        assert(x.drop_last() =~= a + front);
        assert(y.drop_last() =~= b + front);
        assert(x.last() == tail.last());
        assert(y.last() == tail.last());
        if front.len() > 0 {
            assert(x[x.len() - 2] == front.last());
            assert(y[y.len() - 2] == front.last());
        } else {
            assert(a + front =~= a);
            assert(b + front =~= b);
            if a.len() > 0 {
                assert(x[x.len() - 2] == a.last());
            }
            if b.len() > 0 {
                assert(y[y.len() - 2] == b.last());
            }
        }
    }
}

proof fn lemma_norm_spaces(a: Seq<char>, run: Seq<char>)
    requires
        forall|i: int| 0 <= i < run.len() ==> text::is_white_space(#[trigger] run[i]),
    ensures
        util::norm(a + run) == util::norm(a),
    decreases run.len(),
{
    if run.len() == 0 {
        assert(a + run =~= a);
    } else {
        assert((a + run).drop_last() =~= a + run.drop_last());
        assert((a + run).last() == run[run.len() - 1]);
        assert forall|i: int| 0 <= i < run.len() - 1 implies text::is_white_space(
            #[trigger] run.drop_last()[i],
        ) by {
            assert(run.drop_last()[i] == run[i]);
        }
        lemma_norm_spaces(a, run.drop_last());
    }
}

/// Normalizing does not see how wide a gap is: any two runs of white space between
/// the same words give the same text, and white space around a text gives the text
/// without it.
pub proof fn normalizing_evens_out_gaps(a: Seq<char>, gap: Seq<char>, other: Seq<char>, b: Seq<char>)
    requires
        gap.len() > 0,
        other.len() > 0,
        forall|i: int| 0 <= i < gap.len() ==> text::is_white_space(#[trigger] gap[i]),
        forall|i: int| 0 <= i < other.len() ==> text::is_white_space(#[trigger] other[i]),
    ensures
        util::norm(a + gap + b) == util::norm(a + other + b),
        util::norm(gap + b) == util::norm(b),
        util::norm(a + gap) == util::norm(a),
{
    lemma_norm_spaces(a, gap);
    lemma_norm_spaces(a, other);
    assert((a + gap).last() == gap[gap.len() - 1]);
    assert((a + other).last() == other[other.len() - 1]);
    lemma_norm_tail(a + gap, a + other, b);
    let none = Seq::<char>::empty();
    lemma_norm_spaces(none, gap);
    assert(none + gap =~= gap);
    lemma_norm_front(gap, b);
}

proof fn lemma_norm_front(run: Seq<char>, b: Seq<char>)
    requires
        forall|i: int| 0 <= i < run.len() ==> text::is_white_space(#[trigger] run[i]),
    ensures
        util::norm(run + b) == util::norm(b),
    decreases b.len(),
{
    let none = Seq::<char>::empty();
    lemma_norm_spaces(none, run);
    assert(none + run =~= run);
    if b.len() == 0 {
        assert(run + b =~= run);
        assert(b =~= none);
    } else {
        let front = b.drop_last();
        lemma_norm_front(run, front);
        let x = run + b;
        assert(x.drop_last() =~= run + front);
        assert(x.last() == b.last());
        if front.len() > 0 {
            assert(x[x.len() - 2] == b[b.len() - 2]);
        } else {
            assert(util::norm(front).len() == 0) by {
                assert(front =~= none);
            }
        }
    }
}

/// Words stay apart by one space and in their order: a text of two parts with a gap
/// between them is the two parts normalized with one space between them.
pub proof fn normalized_words_stay_apart(a: Seq<char>, gap: Seq<char>, b: Seq<char>)
    requires
        gap.len() > 0,
        forall|i: int| 0 <= i < gap.len() ==> text::is_white_space(#[trigger] gap[i]),
        util::norm(a).len() > 0,
        util::norm(b).len() > 0,
        forall|i: int| 0 <= i < b.len() ==> text::lowercase_of(#[trigger] b[i]).len() > 0,
    ensures
        util::norm(a + gap + b) == util::norm(a) + seq![' '] + util::norm(b),
    decreases b.len(),
{
    lemma_norm_spaces(a, gap);
    let head = a + gap;
    let front = b.drop_last();
    let x = head + b;
    assert(b.len() > 0);
    assert(x.drop_last() =~= head + front);
    assert(x.last() == b.last());
    assert forall|i: int| 0 <= i < front.len() implies text::lowercase_of(
        #[trigger] front[i],
    ).len() > 0 by {
        assert(front[i] == b[i]);
    }
    if util::norm(front).len() > 0 {
        normalized_words_stay_apart(a, gap, front);
        assert(x[x.len() - 2] == b[b.len() - 2]);
        assert(util::norm(x) =~= util::norm(a) + seq![' '] + util::norm(b));
    } else {
        lemma_blank(front);
        lemma_norm_spaces(head, front);
        assert(util::norm(head + front) == util::norm(a));
        if front.len() > 0 {
            assert(x[x.len() - 2] == front[front.len() - 1]);
        } else {
            assert(x[x.len() - 2] == gap[gap.len() - 1]);
        }
        assert(util::norm(x) =~= util::norm(a) + seq![' '] + util::norm(b));
    }
}

proof fn lemma_blank(s: Seq<char>)
    requires
        util::norm(s).len() == 0,
        forall|i: int| 0 <= i < s.len() ==> text::lowercase_of(#[trigger] s[i]).len() > 0,
    ensures
        forall|i: int| 0 <= i < s.len() ==> text::is_white_space(#[trigger] s[i]),
    decreases s.len(),
{
    if s.len() > 0 {
        assert forall|i: int| 0 <= i < s.len() - 1 implies text::lowercase_of(
            #[trigger] s.drop_last()[i],
        ).len() > 0 by {
            assert(s.drop_last()[i] == s[i]);
        }
        assert(text::lowercase_of(s[s.len() - 1]).len() > 0);
        lemma_blank(s.drop_last());
        assert forall|i: int| 0 <= i < s.len() implies text::is_white_space(#[trigger] s[i]) by {
            if i < s.len() - 1 {
                assert(s[i] == s.drop_last()[i]);
            }
        }
    }
}

/// A leading article is left out of a sort key, one of three, and nothing else.
pub proof fn articles_do_not_sort(rest: Seq<char>)
    ensures
        util::without_article("the "@ + rest) == rest,
        util::without_article("a "@ + rest) == rest,
        util::without_article("an "@ + rest) == rest,
        util::without_article(rest) == rest || "the "@.is_prefix_of(rest) || "a "@.is_prefix_of(
            rest,
        ) || "an "@.is_prefix_of(rest),
{
    reveal_strlit("the ");
    reveal_strlit("a ");
    reveal_strlit("an ");
    let (t, a, n) = ("the "@ + rest, "a "@ + rest, "an "@ + rest);
    assert("the "@ =~= t.subrange(0, 4));
    assert(t.skip(4) =~= rest);
    assert("a "@ =~= a.subrange(0, 2));
    assert(a.skip(2) =~= rest);
    assert("an "@ =~= n.subrange(0, 3));
    assert(n.skip(3) =~= rest);
    assert(a[0] == 'a' && a[1] == ' ');
    assert(n[0] == 'a' && n[1] == 'n');
    assert("the "@[0] == 't');
    assert(!"the "@.is_prefix_of(a));
    assert(!"the "@.is_prefix_of(n));
    assert("a "@[1] == ' ');
    assert(!"a "@.is_prefix_of(n)) by {
        if "a "@.is_prefix_of(n) {
            assert(n.subrange(0, 2)[1] == n[1]);
        }
    }
}

/// A search finds the first place where the text it looks for stands, and finds
/// nothing only where it stands nowhere.
pub proof fn searches_find_the_first_place(s: Seq<char>, needle: Seq<char>, from: int)
    requires
        0 <= from,
    ensures
        text::first_at(s, needle, from) matches Some(i) ==> {
            &&& from <= i <= s.len() - needle.len()
            &&& s.subrange(i, i + needle.len()) == needle
            &&& forall|k: int|
                from <= k < i ==> #[trigger] s.subrange(k, k + needle.len()) != needle
        },
        text::first_at(s, needle, from) is None ==> forall|k: int|
            from <= k <= s.len() - needle.len() ==> #[trigger] s.subrange(k, k + needle.len())
                != needle,
    decreases s.len() + 1 - from,
{
    if from + needle.len() <= s.len() {
        if !text::occurs_at(s, needle, from) {
            searches_find_the_first_place(s, needle, from + 1);
        }
    }
}

/// A search from the back finds the last place where the text it looks for stands
/// before a bound.
pub proof fn searches_from_the_back_find_the_last_place(s: Seq<char>, needle: Seq<char>, n: int)
    ensures
        text::last_at(s, needle, n) >= 0 ==> {
            let i = text::last_at(s, needle, n);
            &&& i < n
            &&& i + needle.len() <= s.len()
            &&& s.subrange(i, i + needle.len()) == needle
        },
        forall|k: int|
            0 <= k < n && text::last_at(s, needle, n) < k <= s.len() - needle.len()
                ==> #[trigger] s.subrange(k, k + needle.len()) != needle,
    decreases n,
{
    if n > 0 {
        if !text::occurs_at(s, needle, n - 1) {
            searches_from_the_back_find_the_last_place(s, needle, n - 1);
        }
    }
}

/// A text comes apart at every separator and nowhere else.
pub proof fn texts_come_apart_at_each_separator(a: Seq<char>, b: Seq<char>, sep: char)
    requires
        !a.contains(sep),
    ensures
        text::split(a, sep) == seq![a],
        text::split(a + seq![sep] + b, sep) == seq![a] + text::split(b, sep),
    decreases a.len() + b.len(),
{
    if b.len() == 0 {
        let whole = a + seq![sep] + b;
        assert(whole.drop_last() =~= a);
        assert(whole.last() == sep);
        if a.len() > 0 {
            assert(a[a.len() - 1] == a.last());
            assert forall|c: char| a.drop_last().contains(c) implies a.contains(c) by {
                let i = choose|i: int| 0 <= i < a.drop_last().len() && a.drop_last()[i] == c;
                assert(a[i] == c);
            }
            texts_come_apart_at_each_separator(a.drop_last(), b, sep);
            assert(seq![a.drop_last()].drop_last() =~= Seq::<Seq<char>>::empty());
            assert(a.drop_last().push(a.last()) =~= a);
            assert(text::split(a, sep) =~= seq![a]);
        } else {
            assert(a =~= Seq::empty());
        }
        assert(b =~= Seq::empty());
        assert(text::split(a, sep) =~= seq![a]);
        assert(text::split(whole, sep) =~= seq![a].push(Seq::empty()));
        assert(text::split(whole, sep) =~= seq![a] + text::split(b, sep));
    } else {
        texts_come_apart_at_each_separator(a, b.drop_last(), sep);
        let whole = a + seq![sep] + b;
        assert(whole.drop_last() =~= a + seq![sep] + b.drop_last());
        assert(whole.last() == b.last());
        let tail = text::split(b.drop_last(), sep);
        lemma_split_has_pieces(b.drop_last(), sep);
        if b.last() == sep {
            assert((seq![a] + tail).push(Seq::empty()) =~= seq![a] + tail.push(Seq::empty()));
        } else {
            let last = tail.last().push(b.last());
            assert((seq![a] + tail).drop_last().push((seq![a] + tail).last().push(b.last()))
                =~= seq![a] + tail.drop_last().push(last));
        }
    }
}

/// A text comes apart into at least one piece.
pub proof fn lemma_split_has_pieces(s: Seq<char>, sep: char)
    ensures
        text::split(s, sep).len() > 0,
    decreases s.len(),
{
    if s.len() > 0 {
        lemma_split_has_pieces(s.drop_last(), sep);
    }
}

/// Texts sort as in a dictionary: by the first character that differs, and a text
/// before every longer one that it begins.
pub proof fn texts_sort_like_a_dictionary(common: Seq<char>, a: Seq<char>, b: Seq<char>)
    requires
        b.len() > 0,
        a.len() > 0 ==> a[0] != b[0],
    ensures
        text::text_before(common + a, common + b) <==> a.len() == 0 || a[0] < b[0],
        text::text_before(common + b, common + a) <==> a.len() > 0 && b[0] < a[0],
    decreases common.len(),
{
    if common.len() == 0 {
        assert(common + a =~= a);
        assert(common + b =~= b);
    } else {
        assert((common + a).drop_first() =~= common.drop_first() + a);
        assert((common + b).drop_first() =~= common.drop_first() + b);
        texts_sort_like_a_dictionary(common.drop_first(), a, b);
    }
}

/// A number below zero is written as a minus sign and its digits, any other as its
/// digits alone, the last of which is what is left of it by ten.
pub proof fn numbers_are_written_in_decimal(n: nat, c: char)
    requires
        n > 0,
    ensures
        text::int_text(n as int) == text::decimal_text(n),
        text::int_text(-(n as int)) == seq!['-'] + text::decimal_text(n),
        text::decimal_text(n).last() == text::digit_char((n % 10) as int),
        n >= 10 ==> text::decimal_text(n).drop_last() == text::decimal_text(n / 10),
        text::digit_char(0) == '0' && text::digit_char(5) == '5' && text::digit_char(9) == '9',
        text::is_digit(c) <==> '0' <= c <= '9',
        text::digit_char((n % 10) as int) as int == '0' as int + n % 10,
{
    if n >= 10 {
        assert(text::decimal_text(n).drop_last() =~= text::decimal_text(n / 10));
    }
}

/// Only the letters from `A` to `Z` are made small, each to its own.
pub proof fn capitals_are_made_small(c: char)
    ensures
        'A' <= c <= 'Z' ==> text::ascii_lower(c) as int == c as int + 32,
        !('A' <= c <= 'Z') ==> text::ascii_lower(c) == c,
        !('A' <= text::ascii_lower(c) <= 'Z'),
{
}

/// A number reads back with the limit that its type sets, and with a plus in front
/// where it is unsigned.
pub proof fn numbers_are_read_up_to_their_limit(n: nat, max: nat)
    ensures
        text::parse_decimal(text::decimal_text(n), max) == if n <= max {
            Some(n)
        } else {
            None
        },
        text::parse_unsigned(text::decimal_text(n), max) == text::parse_decimal(
            text::decimal_text(n),
            max,
        ),
        text::parse_unsigned(seq!['+'] + text::decimal_text(n), max) == text::parse_decimal(
            text::decimal_text(n),
            max,
        ),
        text::parse_decimal(Seq::empty(), max) is None,
{
    written_numbers_read_back(n);
    let t = text::decimal_text(n);
    assert(text::is_digit(t[0]));
    assert((seq!['+'] + t).skip(1) =~= t);
}

} // verus!
