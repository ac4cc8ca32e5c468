//! Text operations, held against those of the standard library.

use recuros::text::{
    chars_of, contains_char, ends_with_char, join, lines_of, push_decimal, push_padded,
    push_padded_number, replace_line_feeds, same_text, starts_with, strip_prefix, text_before, trim,
    trim_end_matches, white_space,
};

const SAMPLES: [&str; 14] = [
    "",
    " ",
    "a",
    " a b ",
    "\u{a0}x\u{2003}",
    "one\ntwo",
    "one\r\ntwo\r\n",
    "\n",
    "\r",
    "a\rb\n\nc",
    "//x//",
    "https://e",
    "\u{e9}t\u{e9}",
    "z\u{1f600}",
];

#[test]
fn white_space_is_what_the_standard_library_says() {
    for c in '\u{0}'..=char::MAX {
        assert_eq!(white_space(c), c.is_whitespace(), "{:?}", c);
    }
}

#[test]
fn operations_agree_with_the_standard_library() {
    for s in SAMPLES {
        assert_eq!(trim(s), s.trim(), "{:?}", s);
        assert_eq!(trim_end_matches(s, '/'), s.trim_end_matches('/'));
        assert_eq!(lines_of(s), s.lines().collect::<Vec<_>>(), "{:?}", s);
        assert_eq!(chars_of(s), s.chars().collect::<Vec<_>>());
        assert_eq!(replace_line_feeds(s, "--"), s.replace('\n', "--"));
        assert_eq!(contains_char(s, 'a'), s.contains('a'));
        assert_eq!(ends_with_char(s, '\n'), s.ends_with('\n'));
        for t in SAMPLES {
            assert_eq!(same_text(s, t), s == t);
            assert_eq!(text_before(s, t), s < t, "{:?} {:?}", s, t);
            assert_eq!(starts_with(s, t), s.starts_with(t));
            assert_eq!(strip_prefix(s, t).as_deref(), s.strip_prefix(t));
            let parts = vec![s.to_string(), t.to_string(), "x".to_string()];
            assert_eq!(join(&parts, ", "), parts.join(", "));
        }
    }
}

#[test]
fn numbers_and_columns_are_formatted_alike() {
    for n in [0u64, 1, 9, 10, 42, 99999, 100000, u64::MAX] {
        let mut out = "n=".to_string();
        push_decimal(&mut out, n);
        assert_eq!(out, format!("n={n}"));
        let mut out = String::new();
        push_padded_number(&mut out, n, 5);
        assert_eq!(out, format!("{n:>5}"));
    }
    for s in SAMPLES {
        let mut out = String::new();
        push_padded(&mut out, s, 4);
        assert_eq!(out, format!("{s:<4}"));
    }
}
