use kv_store::text::{
    decimal_string, is_space, parse_unsigned, precedes, same_text, split_words, to_chars,
};

#[test]
fn decimal_string_writes_numbers() {
    assert_eq!(decimal_string(0), "0");
    assert_eq!(decimal_string(7), "7");
    assert_eq!(decimal_string(10), "10");
    assert_eq!(decimal_string(1234567890), "1234567890");
    assert_eq!(decimal_string(usize::MAX), usize::MAX.to_string());
}

#[test]
fn to_chars_gives_each_character() {
    assert_eq!(to_chars(""), Vec::<char>::new());
    assert_eq!(to_chars("a\u{e9}\u{4e2d}"), vec!['a', '\u{e9}', '\u{4e2d}']);
}

#[test]
fn parse_unsigned_reads_what_std_reads() {
    let words = [
        "0",
        "7",
        "007",
        "+5",
        "+",
        "-",
        "",
        "-0",
        "-5",
        "++5",
        "5+",
        "12a",
        "a12",
        " 12",
        "12 ",
        "1_000",
        "0x10",
        "18446744073709551615",
        "18446744073709551616",
        "18446744073709551620",
        "99999999999999999999999",
        "+18446744073709551615",
        "000000000000000000000000000001",
        "\u{661}\u{662}",
        "1.0",
    ];
    for word in words {
        assert_eq!(parse_unsigned(word, u64::MAX), word.parse::<u64>().ok(), "{:?}", word);
    }
}

#[test]
fn parse_unsigned_keeps_to_the_limit() {
    assert_eq!(parse_unsigned("255", 255), Some(255));
    assert_eq!(parse_unsigned("256", 255), None);
    assert_eq!(parse_unsigned("0", 0), Some(0));
    assert_eq!(parse_unsigned("1", 0), None);
    assert_eq!(parse_unsigned("4294967295", u32::MAX as u64), Some(4294967295));
    assert_eq!(parse_unsigned("4294967296", u32::MAX as u64), None);
    assert_eq!(parse_unsigned("42949672950", u32::MAX as u64), None);
}

#[test]
fn is_space_agrees_with_std_on_every_character() {
    for code in 0..=0x10FFFFu32 {
        if let Some(c) = char::from_u32(code) {
            assert_eq!(is_space(c), c.is_whitespace(), "U+{:04X}", code);
        }
    }
}

#[test]
fn split_words_splits_as_std_does() {
    let lines = [
        "",
        " ",
        "SET",
        "SET k v",
        "  SET   k \t v  ",
        "a\u{a0}b\u{3000}c",
        "\r\nGET k\r\n",
        "x",
        " x",
        "x ",
        "one two  three   four    five six",
        "\u{e9}t\u{e9} \u{4e2d}\u{6587}",
    ];
    for line in lines {
        let expected: Vec<String> = line.split_whitespace().map(|w| w.to_string()).collect();
        assert_eq!(split_words(line), expected, "{:?}", line);
    }
}

#[test]
fn same_text_compares_texts() {
    assert!(same_text("", ""));
    assert!(same_text("abc", "abc"));
    assert!(!same_text("abc", "abd"));
    assert!(!same_text("abc", "ab"));
    assert!(!same_text("ab", "abc"));
    assert!(same_text("\u{e9}", "\u{e9}"));
    assert!(!same_text("\u{e9}", "e"));
}

#[test]
fn precedes_orders_as_std_orders_strings() {
    let words = [
        "", "a", "A", "aa", "ab", "b", "B", "Z", "z", "0", "9", "\u{e9}", "e", "\u{4e2d}",
        "\u{10000}", "\u{ffff}", "a\u{e9}", "ab\u{4e2d}", "~",
    ];
    for a in words {
        for b in words {
            assert_eq!(precedes(a, b), a < b, "{:?} against {:?}", a, b);
        }
    }
}
