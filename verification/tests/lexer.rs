use mqtt_discord_bridge::codec::bytes_equal;
use mqtt_discord_bridge::json::{read_number, skip_whitespace, write_decimal};
use mqtt_discord_bridge::quoted::{read_string, write_quoted};

#[test]
fn whitespace_is_space_tab_and_line_ends() {
    assert_eq!(skip_whitespace(b"  \t\r\n x", 0), 6);
    assert_eq!(skip_whitespace(b"  \t\r\n x", 3), 6);
    assert_eq!(skip_whitespace(b"x  ", 0), 0);
    assert_eq!(skip_whitespace(b"   ", 0), 3);
    assert_eq!(skip_whitespace(b"", 0), 0);
    assert_eq!(skip_whitespace(b"\x0b\x0c", 0), 0);
    assert_eq!(skip_whitespace(b"\xa0", 0), 0);
    assert_eq!(skip_whitespace(b"  ", 7), 7);
}

#[test]
fn number_is_zero_or_starts_with_nonzero_digit() {
    assert_eq!(read_number(b"0", 0), Some((0, 1)));
    assert_eq!(read_number(b"0,", 0), Some((0, 1)));
    assert_eq!(read_number(b"01", 0), Some((0, 1)));
    assert_eq!(read_number(b"7", 0), Some((7, 1)));
    assert_eq!(read_number(b"x120y", 1), Some((120, 4)));
    assert_eq!(read_number(b"1009", 0), Some((1009, 4)));
    assert_eq!(read_number(b"12.5", 0), Some((12, 2)));
    assert_eq!(read_number(b"18446744073709551615", 0), Some((u64::MAX, 20)));
    assert_eq!(read_number(b"18446744073709551615}", 0), Some((u64::MAX, 20)));
}

#[test]
fn number_that_is_none_or_too_large_is_not_read() {
    assert_eq!(read_number(b"", 0), None);
    assert_eq!(read_number(b"-1", 0), None);
    assert_eq!(read_number(b"+1", 0), None);
    assert_eq!(read_number(b" 1", 0), None);
    assert_eq!(read_number(b"a", 0), None);
    assert_eq!(read_number(b".5", 0), None);
    assert_eq!(read_number(b"12", 2), None);
    assert_eq!(read_number(b"12", 9), None);
    assert_eq!(read_number(b"18446744073709551616", 0), None);
    assert_eq!(read_number(b"18446744073709551620", 0), None);
    assert_eq!(read_number(b"28446744073709551615", 0), None);
    assert_eq!(read_number(b"184467440737095516150", 0), None);
    assert_eq!(read_number(b"99999999999999999999", 0), None);
    assert_eq!(read_number(b"100000000000000000000000000000000000000000", 0), None);
}

#[test]
fn decimal_is_written_without_leading_zeros() {
    for (n, text) in [
        (0u64, "0"),
        (9, "9"),
        (10, "10"),
        (101, "101"),
        (663862252629393421, "663862252629393421"),
        (u64::MAX, "18446744073709551615"),
    ] {
        let mut out = b"#".to_vec();
        write_decimal(&mut out, n);
        assert_eq!(out, format!("#{}", text).into_bytes());
        assert_eq!(read_number(&out, 1), Some((n, out.len())));
    }
}

#[test]
fn string_is_read_up_to_its_closing_quote() {
    assert_eq!(read_string(b"\"\"", 0), Some((b"".to_vec(), 2)));
    assert_eq!(read_string(b"\"abc\" rest", 0), Some((b"abc".to_vec(), 5)));
    assert_eq!(read_string(b"x\"abc\"", 1), Some((b"abc".to_vec(), 6)));
    assert_eq!(read_string(b"\"a\\\"b\"", 0), Some((b"a\"b".to_vec(), 6)));
    assert_eq!(read_string(b"\"\\u00e9\"", 0), Some((vec![0xc3, 0xa9], 8)));
    assert_eq!(read_string(b"\"\\u0000\"", 0), Some((vec![0], 8)));
    assert_eq!(read_string(b"\"\\u007f\\u0080\"", 0), Some((vec![0x7f, 0xc2, 0x80], 14)));
    assert_eq!(read_string(b"\"\\u07ff\\u0800\"", 0), Some((vec![0xdf, 0xbf, 0xe0, 0xa0, 0x80], 14)));
    assert_eq!(read_string(b"\"\\ud7ff\\ue000\"", 0), Some((vec![0xed, 0x9f, 0xbf, 0xee, 0x80, 0x80], 14)));
    assert_eq!(read_string(b"\"\\uffff\"", 0), Some((vec![0xef, 0xbf, 0xbf], 8)));
    assert_eq!(read_string(b"\"\\ud800\\udc00\"", 0), Some((vec![0xf0, 0x90, 0x80, 0x80], 14)));
    assert_eq!(read_string(b"\"\\uDBFF\\uDFFF\"", 0), Some((vec![0xf4, 0x8f, 0xbf, 0xbf], 14)));
    assert_eq!(read_string(b"\"\xff\x80\"", 0), Some((vec![0xff, 0x80], 4)));
    assert_eq!(read_string(b"\"\x7f\"", 0), Some((vec![0x7f], 3)));
}

#[test]
fn string_that_is_not_closed_or_badly_escaped_is_not_read() {
    assert_eq!(read_string(b"", 0), None);
    assert_eq!(read_string(b"abc", 0), None);
    assert_eq!(read_string(b"\"abc", 0), None);
    assert_eq!(read_string(b"\"abc\\\"", 0), None);
    assert_eq!(read_string(b"\"a\tb\"", 0), None);
    assert_eq!(read_string(b"\"\\a\"", 0), None);
    assert_eq!(read_string(b"\"\\u12\"", 0), None);
    assert_eq!(read_string(b"\"\\u12g4\"", 0), None);
    assert_eq!(read_string(b"\"\\udc00\"", 0), None);
    assert_eq!(read_string(b"\"\\ud800\"", 0), None);
    assert_eq!(read_string(b"\"\\ud800\\u0041\"", 0), None);
    assert_eq!(read_string(b"\"\\ud800\\ud800\"", 0), None);
    assert_eq!(read_string(b"\"\\ud800\\", 0), None);
    assert_eq!(read_string(b"\"\\ud800\\u", 0), None);
    assert_eq!(read_string(b"\"\\", 0), None);
    assert_eq!(read_string(b"\"\\u", 0), None);
    assert_eq!(read_string(b"\"abc\"", 5), None);
    assert_eq!(read_string(b"\"abc\"", 50), None);
}

#[test]
fn quoted_escapes_what_a_literal_cannot_hold() {
    let mut out = b"=".to_vec();
    write_quoted(&mut out, b"a\"b\\c/\x08\x0c\n\r\t\x00\x1f\x7f\xc3\xa9");
    assert_eq!(
        out,
        b"=\"a\\\"b\\\\c/\\b\\f\\n\\r\\t\\u0000\\u001f\x7f\xc3\xa9\"".to_vec()
    );
    let mut out = Vec::new();
    write_quoted(&mut out, b"");
    assert_eq!(out, b"\"\"".to_vec());
}

#[test]
fn string_reads_back_every_quoted_byte() {
    let all: Vec<u8> = (0u8..=255).collect();
    let mut out = Vec::new();
    write_quoted(&mut out, &all);
    assert_eq!(read_string(&out, 0), Some((all, out.len())));
}

#[test]
fn bytes_are_equal_when_each_is() {
    assert!(bytes_equal(b"", b""));
    assert!(bytes_equal(b"Message", b"Message"));
    assert!(!bytes_equal(b"Message", b"message"));
    assert!(!bytes_equal(b"Message", b"Messag"));
    assert!(!bytes_equal(b"", b"x"));
}
