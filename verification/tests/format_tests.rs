use tiny_http_response::common::{Header, StatusCode};
use tiny_http_response::eq_ignore_case;
use tiny_http_response::httpdate::{build_date_header, format_http_date, DateParts};
use tiny_http_response::numfmt::{dec_bytes, hex_bytes, parse_dec};

#[test]
fn decimal_rendering_is_exact() {
    assert_eq!(dec_bytes(0), b"0");
    assert_eq!(dec_bytes(7), b"7");
    assert_eq!(dec_bytes(200), b"200");
    assert_eq!(dec_bytes(32768), b"32768");
    assert_eq!(dec_bytes(u64::MAX), b"18446744073709551615");
}

#[test]
fn hexadecimal_rendering_is_exact() {
    assert_eq!(hex_bytes(0), b"0");
    assert_eq!(hex_bytes(10), b"a");
    assert_eq!(hex_bytes(255), b"ff");
    assert_eq!(hex_bytes(4096), b"1000");
}

#[test]
fn decimal_parsing_accepts_exactly_digit_strings() {
    assert_eq!(parse_dec(b"0"), Some(0));
    assert_eq!(parse_dec(b"42"), Some(42));
    assert_eq!(parse_dec(b"007"), Some(7));
    assert_eq!(parse_dec(b""), None);
    assert_eq!(parse_dec(b"12a"), None);
    assert_eq!(parse_dec(b"-1"), None);
    assert_eq!(parse_dec(b" 1"), None);
    // Far beyond any machine's usize.
    assert_eq!(parse_dec(b"99999999999999999999999999"), None);
}

#[test]
fn http_date_format_is_exact() {
    let d = DateParts { year: 2015, month: 10, day: 21, hour: 7, minute: 28, second: 0, weekday: 3 };
    assert_eq!(format_http_date(&d), b"Wed, 21 Oct 2015 07:28:00 GMT");
    let d = DateParts { year: 999, month: 1, day: 1, hour: 0, minute: 0, second: 0, weekday: 0 };
    assert_eq!(format_http_date(&d), b"Sun, 01 Jan 0999 00:00:00 GMT");
}

#[test]
fn date_header_looks_like_an_http_date() {
    // Would fail if the clock reading were handed back unformatted: the
    // value must have the fixed 29-byte shape ending in " GMT".
    let h = build_date_header();
    assert_eq!(h.field, b"Date");
    assert_eq!(h.value.len(), 29);
    assert!(h.value.ends_with(b" GMT"));
    assert_eq!(&h.value[3..5], b", ");
    assert!(h.value[0].is_ascii_uppercase());
}

#[test]
fn field_comparison_ignores_case_only() {
    assert!(eq_ignore_case(b"Content-Length", b"content-length"));
    assert!(eq_ignore_case(b"TE", b"te"));
    assert!(!eq_ignore_case(b"TE", b"T"));
    assert!(!eq_ignore_case(b"A", b"B"));
    assert!(eq_ignore_case(b"", b""));
}

#[test]
fn reason_phrases_from_the_table() {
    assert_eq!(StatusCode(200).default_reason_phrase(), b"OK");
    assert_eq!(StatusCode(404).default_reason_phrase(), b"Not Found");
    assert_eq!(StatusCode(101).default_reason_phrase(), b"Switching Protocols");
    assert_eq!(StatusCode(599).default_reason_phrase(), b"Unknown");
    assert_eq!(StatusCode(204).as_u16(), 204);
}

#[test]
fn header_construction_keeps_bytes() {
    let h = Header::new(b"X-A".to_vec(), b"b".to_vec());
    assert_eq!(h.field, b"X-A");
    assert_eq!(h.value, b"b");
    let h = Header::from_strs("Content-Type", "text/html");
    assert_eq!(h.field, b"Content-Type");
    assert_eq!(h.value, b"text/html");
}
