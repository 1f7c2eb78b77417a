use task_store::text::{is_whitespace_char, join_words, parse_u32, push_decimal, trim};

fn decimal(n: u32) -> String {
    let mut out = String::new();
    push_decimal(&mut out, n);
    out
}

#[test]
fn decimal_of_small_and_large_numbers() {
    assert_eq!(decimal(0), "0");
    assert_eq!(decimal(7), "7");
    assert_eq!(decimal(9), "9");
    assert_eq!(decimal(10), "10");
    assert_eq!(decimal(99), "99");
    assert_eq!(decimal(100), "100");
    assert_eq!(decimal(1234567890), "1234567890");
    assert_eq!(decimal(4294967295), "4294967295");
}

#[test]
fn decimal_is_appended_to_what_is_there() {
    let mut out = String::from("n = ");
    push_decimal(&mut out, 305);
    assert_eq!(out, "n = 305");
    push_decimal(&mut out, 0);
    assert_eq!(out, "n = 3050");
}

#[test]
fn decimal_agrees_with_the_standard_rendering() {
    let mut n: u32 = 0;
    loop {
        assert_eq!(decimal(n), format!("{}", n));
        assert_eq!(decimal(u32::MAX - n), format!("{}", u32::MAX - n));
        if n > 400_000_000 {
            break;
        }
        n = n * 3 + 1;
    }
}

#[test]
fn parse_reads_plain_numerals() {
    assert_eq!(parse_u32("0"), Some(0));
    assert_eq!(parse_u32("7"), Some(7));
    assert_eq!(parse_u32("42"), Some(42));
    assert_eq!(parse_u32("007"), Some(7));
    assert_eq!(parse_u32("4294967295"), Some(u32::MAX));
    assert_eq!(parse_u32("0000000004294967295"), Some(u32::MAX));
}

#[test]
fn parse_takes_one_leading_plus() {
    assert_eq!(parse_u32("+5"), Some(5));
    assert_eq!(parse_u32("+0"), Some(0));
    assert_eq!(parse_u32("+"), None);
    assert_eq!(parse_u32("++5"), None);
    assert_eq!(parse_u32("5+"), None);
    assert_eq!(parse_u32("+5+"), None);
}

#[test]
fn parse_refuses_what_is_no_numeral() {
    assert_eq!(parse_u32(""), None);
    assert_eq!(parse_u32("-5"), None);
    assert_eq!(parse_u32("-0"), None);
    assert_eq!(parse_u32(" 5"), None);
    assert_eq!(parse_u32("5 "), None);
    assert_eq!(parse_u32("1_000"), None);
    assert_eq!(parse_u32("1.0"), None);
    assert_eq!(parse_u32("1e3"), None);
    assert_eq!(parse_u32("0x10"), None);
    assert_eq!(parse_u32("abc"), None);
    assert_eq!(parse_u32("12a"), None);
    assert_eq!(parse_u32("\u{663}"), None);
    assert_eq!(parse_u32("\u{ff11}"), None);
    assert_eq!(parse_u32("/"), None);
    assert_eq!(parse_u32(":"), None);
}

#[test]
fn parse_refuses_numbers_out_of_range() {
    assert_eq!(parse_u32("4294967296"), None);
    assert_eq!(parse_u32("4294967300"), None);
    assert_eq!(parse_u32("42949672950"), None);
    assert_eq!(parse_u32("99999999999999999999999999"), None);
    assert_eq!(parse_u32("4294967296x"), None);
}

#[test]
fn parse_agrees_with_the_standard_parser() {
    let samples = [
        "", "0", "1", "+1", "-1", "+", "-", "++1", "+-1", "12345", "4294967295", "4294967296",
        "18446744073709551616", "00", "+00012", " 1", "1 ", "1\n", "\t1", "1,000", "1_0", "0b1",
        "१२", "1١", "٣", "9876543210", "429496729", "4294967294", "4294967295 ", "42949672951",
    ];
    for s in samples {
        assert_eq!(parse_u32(s), s.parse::<u32>().ok(), "input {:?}", s);
    }
}

#[test]
fn parse_reads_back_every_rendered_number() {
    let mut n: u32 = 0;
    loop {
        assert_eq!(parse_u32(&decimal(n)), Some(n));
        if n > 1_000_000_000 {
            break;
        }
        n = n * 7 + 3;
    }
    assert_eq!(parse_u32(&decimal(u32::MAX)), Some(u32::MAX));
}

#[test]
fn trim_removes_white_space_at_both_ends() {
    assert_eq!(trim("  hello  "), "hello");
    assert_eq!(trim("hello\n"), "hello");
    assert_eq!(trim("\t hello world \r\n"), "hello world");
    assert_eq!(trim("a"), "a");
    assert_eq!(trim(" a"), "a");
    assert_eq!(trim("a "), "a");
    assert_eq!(trim("a  b"), "a  b");
}

#[test]
fn trim_of_white_space_alone_is_empty() {
    assert_eq!(trim(""), "");
    assert_eq!(trim(" "), "");
    assert_eq!(trim("\n"), "");
    assert_eq!(trim(" \t\r\n\u{b}\u{c}"), "");
    assert_eq!(trim("\u{85}\u{a0}\u{1680}\u{2000}\u{200a}\u{2028}\u{2029}\u{202f}\u{205f}\u{3000}"), "");
}

#[test]
fn trim_knows_white_space_beyond_ascii() {
    assert_eq!(trim("\u{3000}title\u{a0}"), "title");
    assert_eq!(trim("\u{2003}caf\u{e9}\u{2009}"), "caf\u{e9}");
}

#[test]
fn trim_keeps_what_only_looks_like_white_space() {
    assert_eq!(trim("\u{200b}x\u{200b}"), "\u{200b}x\u{200b}");
    assert_eq!(trim("\u{feff}x"), "\u{feff}x");
    assert_eq!(trim("\u{1c}x\u{1f}"), "\u{1c}x\u{1f}");
    assert_eq!(trim("\u{8}x\u{e}"), "\u{8}x\u{e}");
    assert_eq!(trim("\u{180e}x"), "\u{180e}x");
}

#[test]
fn trim_agrees_with_the_standard_trim() {
    let samples = [
        "", " ", "x", " x", "x ", " x ", "\n\nx y\n\n", "\u{a0}\u{a0}", " \u{1f600} ",
        "\u{2028}line\u{2029}", "  a \u{3000} b  ", "\u{200b} x \u{200b}", "\r\n", "é ", " é",
        "tab\tinside", "\u{85}next\u{85}", "\u{1680}ogham\u{1680}",
    ];
    for s in samples {
        assert_eq!(trim(s), s.trim(), "input {:?}", s);
    }
}

#[test]
fn white_space_is_what_the_standard_library_calls_so() {
    let mut code: u32 = 0;
    let mut count = 0;
    while code <= 0x10ffff {
        if let Some(c) = char::from_u32(code) {
            assert_eq!(is_whitespace_char(c), c.is_whitespace(), "U+{:04X}", code);
            if is_whitespace_char(c) {
                count += 1;
            }
        }
        code += 1;
    }
    assert_eq!(count, 25);
}

#[test]
fn join_puts_one_space_between_words() {
    let words = vec![String::from("buy"), String::from("more"), String::from("milk")];
    assert_eq!(join_words(&words), "buy more milk");
}

#[test]
fn join_of_one_word_or_none() {
    assert_eq!(join_words(&[String::from("solo")]), "solo");
    assert_eq!(join_words(&[]), "");
}

#[test]
fn join_keeps_empty_and_spaced_words() {
    let words = vec![String::from(""), String::from("a b"), String::from(""), String::from(" c")];
    assert_eq!(join_words(&words), " a b   c");
    assert_eq!(join_words(&words), words.join(" "));
}
