use std::io::BufRead;

use review_search::metadata::split_record_lines;
use review_search::text::{char_is_whitespace, chars_of, tokenize};

fn words(text: &str) -> Vec<String> {
    tokenize(&chars_of(text)).into_iter().map(|t| t.into_iter().collect()).collect()
}

#[test]
fn whitespace_is_what_the_standard_library_says() {
    for code in 0..=0x10ffffu32 {
        match char::from_u32(code) {
            Some(c) => assert_eq!(char_is_whitespace(c), c.is_whitespace(), "U+{:04X}", code),
            None => {}
        }
    }
}

#[test]
fn chars_of_lists_the_characters() {
    assert_eq!(chars_of("aé漢 "), vec!['a', 'é', '漢', ' ']);
    assert_eq!(chars_of(""), Vec::<char>::new());
}

#[test]
fn tokenize_splits_on_runs_of_whitespace() {
    assert_eq!(words("great  battery\tlife\n"), vec!["great", "battery", "life"]);
    assert_eq!(words("  one"), vec!["one"]);
    assert_eq!(words("one"), vec!["one"]);
}

#[test]
fn tokenize_of_blank_text_is_empty() {
    assert_eq!(words(""), Vec::<String>::new());
    assert_eq!(words(" \t\r\n\u{3000}"), Vec::<String>::new());
}

#[test]
fn tokenize_agrees_with_split_whitespace() {
    let samples = [
        "Great battery Lasts all day",
        "a\u{a0}b\u{2003}c",
        "\u{85}x\u{85}",
        "first-class, high-quality!",
        "tabs\tand\nnewlines\r\nmixed  ",
        "ünïcödé wörds ärë fine",
    ];
    for s in samples {
        let expected: Vec<String> = s.split_whitespace().map(|w| w.to_string()).collect();
        assert_eq!(words(s), expected, "{:?}", s);
    }
}

fn std_record_lines(content: &str) -> Vec<String> {
    let mut out = Vec::new();
    let mut rest = content;
    while !rest.is_empty() {
        let line;
        match rest.find('\n') {
            Some(at) => {
                let raw = &rest[..at];
                line = raw.strip_suffix('\r').unwrap_or(raw);
                rest = &rest[at + 1..];
            }
            None => {
                line = rest;
                rest = "";
            }
        }
        if !line.trim().is_empty() {
            out.push(line.to_string());
        }
    }
    out
}

#[test]
fn record_lines_skip_blank_lines() {
    let content = "{\"a\":1}\n\n   \n{\"b\":2}\n";
    assert_eq!(split_record_lines(content), vec!["{\"a\":1}", "{\"b\":2}"]);
}

#[test]
fn record_lines_of_empty_file_are_none() {
    assert_eq!(split_record_lines(""), Vec::<String>::new());
    assert_eq!(split_record_lines("\n\n"), Vec::<String>::new());
}

#[test]
fn record_lines_strip_carriage_return_before_line_feed() {
    assert_eq!(split_record_lines("one\r\ntwo\r\n"), vec!["one", "two"]);
    assert_eq!(split_record_lines("one\r\r\n"), vec!["one\r"]);
}

#[test]
fn record_lines_keep_last_line_without_line_feed() {
    assert_eq!(split_record_lines("one\ntwo"), vec!["one", "two"]);
    assert_eq!(split_record_lines("one\ntwo\r"), vec!["one", "two\r"]);
}

#[test]
fn record_lines_agree_with_buffered_reading() {
    let samples = [
        "a\nb\nc",
        "a\r\n\r\nb\n \t \nc\r",
        "\n\nx",
        "only",
        " lead\ntrail \n",
        "é\n漢字\r\n",
    ];
    for s in samples {
        let read: Vec<String> = std::io::Cursor::new(s.as_bytes())
            .lines()
            .map(|l| l.unwrap())
            .filter(|l| !l.trim().is_empty())
            .collect();
        assert_eq!(split_record_lines(s), read, "{:?}", s);
        assert_eq!(split_record_lines(s), std_record_lines(s), "{:?}", s);
    }
}
