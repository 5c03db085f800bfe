use serial_tool::codec::text::{decode, encode};
use serial_tool::config::TextEncoding;

#[test]
fn utf8_lossy() {
    assert_eq!(decode(b"hello", TextEncoding::Utf8), "hello");
    assert!(decode(&[0xFF, 0xFE], TextEncoding::Utf8).contains('\u{FFFD}'));
}

#[test]
fn gbk_decode() {
    let bytes = [0xD6, 0xD0, 0xCE, 0xC4];
    assert_eq!(decode(&bytes, TextEncoding::Gbk), "中文");
}

#[test]
fn ascii_replaces_control() {
    assert_eq!(decode(b"a\x00b\xFF", TextEncoding::Ascii), "a\u{FFFD}b\u{FFFD}");
}

#[test]
fn encode_round_trip_utf8() {
    assert_eq!(encode("中a", TextEncoding::Utf8), "中a".as_bytes());
}

#[test]
fn encode_gbk() {
    assert_eq!(encode("中文", TextEncoding::Gbk), vec![0xD6, 0xD0, 0xCE, 0xC4]);
}

#[test]
fn encode_ascii_replaces_non_ascii() {
    assert_eq!(encode("a中b", TextEncoding::Ascii), b"a?b");
}

#[test]
fn gbk_round_trip_of_mixed_text() {
    let text = "温度=25℃ ok";
    let bytes = encode(text, TextEncoding::Gbk);
    assert_ne!(bytes, text.as_bytes());
    assert_eq!(decode(&bytes, TextEncoding::Gbk), text);
}

#[test]
fn utf8_decode_of_valid_bytes_is_the_text() {
    let text = "中文 ✓";
    assert_eq!(decode(text.as_bytes(), TextEncoding::Utf8), text);
}
