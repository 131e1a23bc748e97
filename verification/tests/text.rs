use std::path::Path;

use aster::engine::display::sanitize_display;
use aster::number::{decimal_chars, hex_chars, parse_signed, parse_unsigned};
use aster::order::in_text_order;
use aster::paths::{file_name_of, is_absolute, joined, parent_of};
use aster::records::records_of;
use aster::text::{
    has_alphabetic, line_pieces, lowered, replaced, same_text, split_pieces, uppered, word_pieces,
    Class,
};

fn characters(text: &str) -> Vec<char> {
    text.chars().collect()
}

fn strings(list: Vec<&[char]>) -> Vec<String> {
    list.into_iter().map(|part| part.iter().collect()).collect()
}

#[test]
fn classes_of_characters_are_those_of_the_language() {
    for c in (0..=0x10ffffu32).filter_map(char::from_u32) {
        assert_eq!(Class::Whitespace.admits(c), c.is_whitespace());
        assert_eq!(Class::Control.admits(c), c.is_control());
        assert_eq!(Class::AsciiWhitespace.admits(c), c.is_ascii_whitespace());
        assert_eq!(Class::AsciiDigit.admits(c), c.is_ascii_digit());
        assert_eq!(Class::AsciiLetter.admits(c), c.is_ascii_alphabetic());
        assert_eq!(Class::HexDigit.admits(c), c.is_ascii_hexdigit());
        assert_eq!(has_alphabetic(&[c]), c.is_alphabetic());
    }
}

#[test]
fn texts_are_taken_apart() {
    for text in ["", "a", "a\n", "a\nb", "\n", "a\r\nb\r", "a\r\n", "\n\nx", "a;b;;c"] {
        let all = characters(text);
        let expected: Vec<&str> = text.lines().collect();
        assert_eq!(strings(line_pieces(&all)), expected);
        let expected: Vec<&str> = text.split(';').collect();
        assert_eq!(strings(split_pieces(&all, ';')), expected);
        let expected: Vec<&str> = text.split_whitespace().collect();
        assert_eq!(strings(word_pieces(&all, Class::Whitespace)), expected);
        let back: String = replaced(&all, &['a'], &['x', 'y']).into_iter().collect();
        assert_eq!(back, text.replace('a', "xy"));
    }
    let twice: String = replaced(&characters("aaa"), &['a', 'a'], &['b']).into_iter().collect();
    assert_eq!(twice, "ba");
    assert!(same_text("ab", "ab"));
    assert!(!same_text("ab", "ac"));
    let upper: String = uppered(&characters("a\u{e9}Z1")).into_iter().collect();
    assert_eq!(upper, "A\u{e9}Z1");
    let lower: String = lowered(&characters("A\u{c9}z1")).into_iter().collect();
    assert_eq!(lower, "a\u{c9}z1");
}

#[test]
fn numbers_are_read_as_they_are_written() {
    for n in [0u64, 1, 9, 10, 255, 65535, u64::MAX] {
        let written: String = decimal_chars(n).into_iter().collect();
        assert_eq!(written, n.to_string());
        assert_eq!(parse_unsigned(&characters(&written), u64::MAX), Some(n));
    }
    for n in 0..=255u8 {
        let written: String = hex_chars(n).into_iter().collect();
        assert_eq!(written, format!("{n:02x}"));
    }
    for text in ["", "+", "-", "+5", "-5", "05", "5x", " 5", "256", "99999999999999999999"] {
        assert_eq!(
            parse_unsigned(&characters(text), 255),
            text.parse::<u8>().ok().map(u64::from)
        );
        assert_eq!(parse_signed(&characters(text)), text.parse::<i64>().ok());
    }
    assert_eq!(parse_signed(&characters("-9223372036854775808")), Some(i64::MIN));
    assert_eq!(parse_signed(&characters("9223372036854775808")), None);
}

#[test]
fn texts_are_ordered_by_their_bytes() {
    for (a, b) in [("", "a"), ("a", "ab"), ("Z", "a"), ("z", "\u{e9}"), ("a", "a")] {
        assert!(in_text_order(a, b));
        assert_eq!(in_text_order(b, a), b <= a);
    }
}

#[test]
fn paths_are_those_of_the_system() {
    for path in [
        "/", "/a", "/a/", "/a//b", "a", "a/b/", "", ".", "..", "/a/..", "/a/.", "./a", "a/./b",
        "/a/b//", "//a",
    ] {
        let bytes = path.as_bytes();
        assert_eq!(is_absolute(bytes), Path::new(path).is_absolute(), "{path}");
        assert_eq!(
            file_name_of(bytes).map(|name| name.to_vec()),
            Path::new(path).file_name().map(|name| name.as_encoded_bytes().to_vec()),
            "{path}"
        );
        assert_eq!(
            parent_of(bytes).map(|parent| parent.to_vec()),
            Path::new(path).parent().map(|parent| parent.as_os_str().as_encoded_bytes().to_vec()),
            "{path}"
        );
        for base in ["/x", "/x/", "", "x"] {
            assert_eq!(
                joined(base.as_bytes(), bytes),
                Path::new(base).join(path).as_os_str().as_encoded_bytes(),
                "{base} {path}"
            );
        }
    }
}

#[test]
fn records_end_with_a_zero_byte() {
    assert_eq!(records_of(&vec!["a".to_owned(), "".to_owned(), "bc".to_owned()]), b"a\0\0bc\0");
}

#[test]
fn shown_text_has_no_control_characters() {
    assert_eq!(sanitize_display("a\nb\u{9b}\u{202e}c"), "a\\nb\\u{9b}\u{202e}c");
}
