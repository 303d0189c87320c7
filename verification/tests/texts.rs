//! Integers, texts and UTF-16.

use web_rdp::text::{chars_of, find_from, is_empty_text, put_text, replace_text, same_text, string_of, trim};
use web_rdp::utf16::{decode_bytes, decode_units, split_units, utf16_len, utf16le_to_string, write_utf16};
use web_rdp::wire::{get_le16, get_le32, put_le16, put_le32};

#[test]
fn integers_are_little_endian() {
    let mut out = Vec::new();
    put_le16(&mut out, 0x1234);
    put_le32(&mut out, 0xDEADBEEF);
    assert_eq!(out, vec![0x34, 0x12, 0xEF, 0xBE, 0xAD, 0xDE]);
    assert_eq!(get_le16(&out, 0), 0x1234);
    assert_eq!(get_le32(&out, 2), 0xDEADBEEF);
}

#[test]
fn a_text_survives_utf16() {
    let text = "aé\u{20AC}😀";
    let mut out = Vec::new();
    write_utf16(&mut out, text);
    assert_eq!(out, vec![b'a', 0, 0xE9, 0, 0xAC, 0x20, 0x3D, 0xD8, 0x00, 0xDE]);
    assert_eq!(utf16_len(text), 10);
    assert_eq!(decode_bytes(&out), text);
    assert_eq!(split_units(&out), vec![0x61, 0xE9, 0x20AC, 0xD83D, 0xDE00]);
}

#[test]
fn a_lone_surrogate_is_replaced() {
    assert_eq!(decode_units(&[0xD83D, 0x61]), "\u{FFFD}a");
    assert_eq!(decode_units(&[0xDE00]), "\u{FFFD}");
    assert_eq!(decode_units(&[0xD83D]), "\u{FFFD}");
    assert_eq!(String::from_utf16_lossy(&[0xD83D, 0xD83D, 0xDE00]), decode_units(&[0xD83D, 0xD83D, 0xDE00]));
}

#[test]
fn a_zero_unit_ends_a_text() {
    assert_eq!(utf16le_to_string(&[b'a', 0, 0, 0, b'b', 0]), "a");
    assert_eq!(utf16le_to_string(&[b'a', 0, b'b']), "a");
    assert_eq!(utf16le_to_string(&[]), "");
}

#[test]
fn texts_are_searched_and_compared() {
    let hay = chars_of("abcabc");
    assert_eq!(find_from(&hay, &chars_of("bc"), 0), Some(1));
    assert_eq!(find_from(&hay, &chars_of("bc"), 2), Some(4));
    assert_eq!(find_from(&hay, &chars_of("bc"), 5), None);
    assert_eq!(find_from(&hay, &chars_of(""), 6), Some(6));
    assert_eq!(string_of(&hay, 1, 4), "bca");
    assert!(same_text("é", "é"));
    assert!(!same_text("a", "ab"));
    assert!(is_empty_text(""));
    assert!(!is_empty_text(" "));
    let mut out = "a".to_string();
    put_text(&mut out, "bé");
    assert_eq!(out, "abé");
}

#[test]
fn white_space_is_trimmed() {
    assert_eq!(trim("\u{2003} a b\t\n"), "a b");
    assert_eq!(trim(" \r\n"), "");
}

#[test]
fn every_place_is_replaced() {
    assert_eq!(replace_text("aXbXX", "X", "--"), "aXbXX".replace("X", "--"));
    assert_eq!(replace_text("aaa", "aa", "b"), "ba");
    assert_eq!(replace_text("abc", "x", "y"), "abc");
    assert_eq!(replace_text("", "x", "y"), "");
}
