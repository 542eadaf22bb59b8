use driver_rust::text::{
    add_once, append_decimal, decimal_text, join, parse_unsigned, position_of, same_text, split,
    text_precedes, to_chars,
};

fn strings(texts: &[&str]) -> Vec<String> {
    texts.iter().map(|t| t.to_string()).collect()
}

#[test]
fn numerals_are_written_without_leading_zeros() {
    assert_eq!(decimal_text(0), "0");
    assert_eq!(decimal_text(7), "7");
    assert_eq!(decimal_text(10), "10");
    assert_eq!(decimal_text(1_234_567_890), "1234567890");
    assert_eq!(decimal_text(u64::MAX), "18446744073709551615");
    let mut out = "n=".to_string();
    append_decimal(&mut out, 42);
    assert_eq!(out, "n=42");
}

#[test]
fn numerals_read_back() {
    for n in [0, 9, 10, 255, 65_536, u64::MAX] {
        assert_eq!(parse_unsigned(&decimal_text(n), u64::MAX), Some(n));
    }
}

#[test]
fn unsigned_numbers_are_read_as_by_std() {
    let inputs = [
        "", "+", "-", "-0", "+0", "0", "007", "+12", "++1", "1+", " 1", "1 ", "255", "256", "0255",
        "99999999999999999999", "1a", "\u{0661}", "1_0",
    ];
    for s in inputs {
        assert_eq!(parse_unsigned(s, 255).map(|v| v as u8), s.parse::<u8>().ok(), "{:?}", s);
        assert_eq!(parse_unsigned(s, u64::MAX), s.parse::<u64>().ok(), "{:?}", s);
    }
    assert_eq!(parse_unsigned("18446744073709551615", u64::MAX), Some(u64::MAX));
    assert_eq!(parse_unsigned("18446744073709551616", u64::MAX), None);
    assert_eq!(parse_unsigned("3", 2), None);
}

#[test]
fn splitting_is_that_of_std() {
    for s in ["", "|", "a", "a|b", "|a|", "a||b", "\u{e5}|\u{1f6d7}|x", "a,b"] {
        let expected: Vec<&str> = s.split('|').collect();
        assert_eq!(split(s, '|'), expected);
    }
}

#[test]
fn split_gives_back_what_was_joined() {
    let parts = strings(&["STATE", "", "\u{e5}3", "1,2;3,4"]);
    let whole = join(&parts, "|");
    assert_eq!(whole, "STATE||\u{e5}3|1,2;3,4");
    assert_eq!(split(&whole, '|'), parts);
    assert_eq!(join(&strings(&[]), "|"), "");
    assert_eq!(join(&strings(&["x"]), "|"), "x");
}

#[test]
fn order_of_texts_is_that_of_std() {
    let texts = ["", "1", "10", "2", "A", "a", "ab", "\u{e5}", "\u{ffff}", "\u{10000}"];
    for a in texts {
        for b in texts {
            assert_eq!(text_precedes(a, b), a < b, "{:?} {:?}", a, b);
            assert_eq!(same_text(a, b), a == b);
        }
    }
}

#[test]
fn texts_are_found_in_lists() {
    let list = strings(&["a", "b", "a"]);
    assert_eq!(position_of(&list, "a"), Some(0));
    assert_eq!(position_of(&list, "b"), Some(1));
    assert_eq!(position_of(&list, "c"), None);
}

#[test]
fn texts_are_added_once() {
    let mut list = strings(&["a"]);
    add_once(&mut list, "b");
    add_once(&mut list, "a");
    add_once(&mut list, "b");
    assert_eq!(list, strings(&["a", "b"]));
}

#[test]
fn characters_of_a_text() {
    assert_eq!(to_chars("a\u{e5}\u{1f6d7}"), vec!['a', '\u{e5}', '\u{1f6d7}']);
    assert!(to_chars("").is_empty());
}
