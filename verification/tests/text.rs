//! Characters and texts.

use albumplayer::order::stable_sort;
use albumplayer::text::{
    blank, bytes_in, chars_before, chars_of, decimal_chars, escape, find_from, find_last, int_chars, join_of, left_of,
    number_of, right_of, same_text, split_of, strip_front, text_of, trim_of, unsigned_of,
};

fn decimal(n: u64) -> String {
    text_of(&decimal_chars(n))
}

#[test]
fn texts_survive_being_taken_apart() {
    for text in ["", "Kid A", "Motörhead", "日本 ☃"] {
        assert_eq!(text_of(&chars_of(text)), text);
    }
    assert_eq!(bytes_in("Rós"), 4);
}

#[test]
fn white_space_is_trimmed_from_both_ends() {
    assert_eq!(text_of(&trim_of(&chars_of("\t a b\u{a0}\n"))), "a b");
    assert!(blank(" \u{2003} "));
    assert!(!blank(" x "));
    assert!(same_text("a", "a"));
    assert!(!same_text("a", "A"));
}

#[test]
fn pieces_join_back_to_the_text() {
    for text in ["", "a", "a,b", ",a,,b,"] {
        let pieces = split_of(&chars_of(text), ',');
        assert_eq!(text_of(&join_of(&pieces, &vec![','])), text);
        assert_eq!(pieces.len(), text.split(',').count());
    }
}

#[test]
fn texts_order_by_code_point() {
    let before = |a: &str, b: &str| chars_before(&chars_of(a), &chars_of(b));
    let texts = ["", "A", "a", "aa", "b", "é", "日"];
    for (i, a) in texts.iter().enumerate() {
        for (j, b) in texts.iter().enumerate() {
            assert_eq!(before(a, b), i < j, "{a:?} {b:?}");
        }
    }
}

#[test]
fn numbers_are_written_and_read() {
    assert_eq!(decimal(0), "0");
    assert_eq!(decimal(u64::MAX), "18446744073709551615");
    assert_eq!(text_of(&int_chars(i64::MIN)), "-9223372036854775808");
    assert_eq!(number_of(&chars_of("007"), 100), Some(7));
    assert_eq!(number_of(&chars_of("101"), 100), None);
    assert_eq!(number_of(&chars_of(""), 100), None);
    assert_eq!(unsigned_of(&chars_of("+7"), 100), Some(7));
    assert_eq!(unsigned_of(&chars_of("-7"), 100), None);
}

#[test]
fn columns_are_filled_up() {
    assert_eq!(text_of(&right_of(&chars_of("ab"), 4)), "  ab");
    assert_eq!(text_of(&right_of(&chars_of("abcde"), 4)), "abcde");
    assert_eq!(text_of(&left_of(&chars_of("ab"), 4)), "ab  ");
    assert_eq!(text_of(&left_of(&chars_of("abcde"), 4)), "abcd");
}

#[test]
fn needles_are_found_from_either_end() {
    let hay = chars_of("abcabc");
    assert_eq!(find_from(&hay, &chars_of("bc"), 0), Some(1));
    assert_eq!(find_from(&hay, &chars_of("bc"), 2), Some(4));
    assert_eq!(find_from(&hay, &chars_of("x"), 0), None);
    assert_eq!(find_last(&hay, &chars_of("bc")), Some(4));
    assert_eq!(strip_front(&hay, "abc").map(|v| text_of(&v)).as_deref(), Some("abc"));
    assert_eq!(strip_front(&hay, "bc"), None);
}

#[test]
fn escaping_puts_a_backslash_in_front() {
    assert_eq!(text_of(&escape(&chars_of("a%b\\"), &vec!['%', '\\'])), "a\\%b\\\\");
}

#[test]
fn sorting_is_stable() {
    let track = |disc: u32, no: u32, path: &str| {
        let json = format!(r#"{{"duration":"1","tags":{{"disc":"{disc}","track":"{no}"}}}}"#);
        albumplayer::ffprobe::parse(&json, albumplayer::path::FilePath::parse(path), 0, 0, 1000).unwrap()
    };
    let tracks = vec![track(2, 1, "/c"), track(1, 2, "/b"), track(1, 2, "/a"), track(1, 1, "/z")];
    let sorted = stable_sort::<_, albumplayer::group::PlayOrder>(tracks);
    let order: Vec<String> = sorted.iter().map(|t| t.path.to_text()).collect();
    assert_eq!(order, vec!["/z", "/a", "/b", "/c"]);
}
