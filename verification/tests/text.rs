use rocket::names::comes_before;
use rocket::numbers::{decimal_text, hex16_text, parse_u32, signed_decimal_text};
use rocket::text::{
    ends_with, is_white_space, join, lines, replace, same_text, skip_chars, split, starts_with, trim,
    trim_end_char, trim_start_char,
};

const SAMPLES: [&str; 12] = [
    "",
    "a",
    ":",
    "a:b:c",
    "::x::",
    "line\nother\n",
    "one\r\ntwo\rthree\n\n",
    "  \t padded\u{a0}\u{3000}\n",
    "/usr//bin/",
    "{{name}}-{{name}}",
    "gr\u{fc}n\u{1F680}",
    "aaaa",
];

#[test]
fn white_space_is_that_of_char() {
    let mut n: u32 = 0;
    while n <= 0x10ffff {
        if let Some(c) = char::from_u32(n) {
            assert_eq!(is_white_space(c), c.is_whitespace(), "{:x}", n);
        }
        n += 1;
    }
}

#[test]
fn trimming_is_that_of_str() {
    for s in SAMPLES {
        assert_eq!(trim(s), s.trim());
        assert_eq!(trim_start_char(s, '/'), s.trim_start_matches('/'));
        assert_eq!(trim_end_char(s, '/'), s.trim_end_matches('/'));
    }
}

#[test]
fn splitting_is_that_of_str() {
    for s in SAMPLES {
        assert_eq!(split(s, ':'), s.split(':').collect::<Vec<&str>>());
        assert_eq!(lines(s), s.lines().collect::<Vec<&str>>());
    }
    assert_eq!(lines("a\r"), "a\r".lines().collect::<Vec<&str>>());
    assert_eq!(lines("a\r\r\n"), "a\r\r\n".lines().collect::<Vec<&str>>());
}

#[test]
fn replacing_is_that_of_str() {
    for s in SAMPLES {
        assert_eq!(replace(s, "{{name}}", "x"), s.replace("{{name}}", "x"));
        assert_eq!(replace(s, "aa", "b"), s.replace("aa", "b"));
        assert_eq!(replace(s, "a", "aa"), s.replace("a", "aa"));
        assert_eq!(replace(s, "\u{fc}", ""), s.replace("\u{fc}", ""));
    }
}

#[test]
fn prefixes_and_suffixes_are_those_of_str() {
    for s in SAMPLES {
        for t in SAMPLES {
            assert_eq!(starts_with(s, t), s.starts_with(t));
            assert_eq!(ends_with(s, t), s.ends_with(t));
            assert_eq!(same_text(s, t), s == t);
            assert_eq!(comes_before(s, t), s < t);
        }
    }
    assert_eq!(skip_chars("file:///x", 7), "/x");
}

#[test]
fn joining_is_that_of_slices() {
    let none: Vec<String> = vec![];
    let parts: Vec<String> = vec!["a".to_string(), "".to_string(), "b".to_string()];
    assert_eq!(join(&none, ", "), "");
    assert_eq!(join(&parts, ", "), parts.join(", "));
}

#[test]
fn numbers_are_written_in_decimal() {
    for n in [0u64, 9, 10, 99, 100, 4096, u64::MAX] {
        assert_eq!(decimal_text(n), n.to_string());
    }
    for n in [0i64, 7, -7, 10, -10, i64::MAX, i64::MIN] {
        assert_eq!(signed_decimal_text(n), n.to_string());
    }
}

#[test]
fn hashes_are_written_in_hexadecimal() {
    for n in [0u64, 1, 15, 16, 0xdeadbeef, u64::MAX] {
        assert_eq!(hex16_text(n), format!("{:016x}", n));
    }
}

#[test]
fn numbers_are_read_as_by_parse() {
    for s in [
        "", "0", "1000", "+1000", "-1", "++1", "+", "4294967295", "4294967296", "00000000000007",
        " 1", "1 ", "1_000", "0x10", "\u{661}",
    ] {
        assert_eq!(parse_u32(s), s.parse::<u32>().ok(), "{}", s);
    }
}
