use serial_tool::codec::hex::{format_hex, parse_hex};
use serial_tool::i18n::Language;

fn parse(input: &str) -> Result<Vec<u8>, String> {
    parse_hex(input, Language::Chinese)
}

#[test]
fn parse_basic() {
    assert_eq!(parse("01 0A FF").unwrap(), vec![0x01, 0x0A, 0xFF]);
}

#[test]
fn parse_contiguous() {
    assert_eq!(parse("010AFF").unwrap(), vec![0x01, 0x0A, 0xFF]);
}

#[test]
fn parse_prefix_and_separators() {
    assert_eq!(parse("0x01, 0x0A").unwrap(), vec![0x01, 0x0A]);
    assert_eq!(parse("0x01\r\n0x0A").unwrap(), vec![0x01, 0x0A]);
}

#[test]
fn parse_lowercase() {
    assert_eq!(parse("ab cd").unwrap(), vec![0xAB, 0xCD]);
}

#[test]
fn parse_odd_length_errors() {
    assert!(parse("0x1").is_err());
    assert!(parse("1").is_err());
    assert!(parse("010").is_err());
}

#[test]
fn parse_invalid_errors() {
    assert!(parse("GG").is_err());
    assert!(parse("0x").is_err());
}

#[test]
fn parse_empty() {
    assert_eq!(parse("").unwrap(), Vec::<u8>::new());
}

#[test]
fn format_uppercase_spaced() {
    assert_eq!(format_hex(&[0x01, 0x0a, 0xff]), "01 0A FF");
}

#[test]
fn parse_reads_back_what_format_writes() {
    let bytes: Vec<u8> = (0u8..=255).collect();
    let text = format_hex(&bytes);
    assert_eq!(parse_hex(&text, Language::English).unwrap(), bytes);
    assert_eq!(format_hex(&[]), "");
}

#[test]
fn parse_separators_and_upper_prefix() {
    assert_eq!(parse("0X0a,0b\t0C").unwrap(), vec![0x0A, 0x0B, 0x0C]);
    assert!(parse("0a;0b").is_err());
}

#[test]
fn parse_error_messages_name_the_token() {
    let e = parse_hex("12 3", Language::English).unwrap_err();
    assert!(e.contains('3'), "{e}");
    let e = parse_hex("zz", Language::English).unwrap_err();
    assert!(e.contains("zz"), "{e}");
    let e = parse_hex("0x", Language::Chinese).unwrap_err();
    assert!(!e.is_empty());
}

#[test]
fn parse_rejects_sign_and_non_ascii_digits() {
    assert!(parse("+1").is_err());
    assert!(parse("+F").is_err());
    assert!(parse("a\u{e9}b").is_err());
    assert!(parse("\u{4e2d}\u{4e2d}").is_err());
    assert!(parse("0x\u{e9}").is_err());
    assert_eq!(parse("0x0f").unwrap(), vec![0x0F]);
}
