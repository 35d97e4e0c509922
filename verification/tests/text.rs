use schlep::number::{parse_u32, push_decimal, IntError};
use schlep::text::{eq_ignore_ascii_case, find_byte, push_ascii, split_once};

fn decimal(n: u32) -> Vec<u8> {
    let mut out = Vec::new();
    push_decimal(&mut out, n);
    out
}

#[test]
fn finds_the_first_separator() {
    assert_eq!(find_byte(b"a=b=c", b'='), 1);
    assert_eq!(find_byte(b"abc", b'='), 3);
    assert_eq!(find_byte(b"", b'='), 0);
}

#[test]
fn splits_once_at_the_first_separator() {
    assert_eq!(split_once(b"a=b=c", b'='), Some((&b"a"[..], &b"b=c"[..])));
    assert_eq!(split_once(b"=", b'='), Some((&b""[..], &b""[..])));
    assert_eq!(split_once(b"abc", b'='), None);
}

#[test]
fn compares_without_case() {
    assert!(eq_ignore_ascii_case(b"Fail-RATE", b"fail-rate"));
    assert!(!eq_ignore_ascii_case(b"fail-rate", b"fail_rate"));
    assert!(!eq_ignore_ascii_case(b"fail", b"fail-rate"));
    assert!(!eq_ignore_ascii_case(b"\xe4", b"\xc4"));
}

#[test]
fn reads_numbers() {
    assert_eq!(parse_u32(b"0"), Ok(0));
    assert_eq!(parse_u32(b"007"), Ok(7));
    assert_eq!(parse_u32(b"+12"), Ok(12));
    assert_eq!(parse_u32(b"4294967295"), Ok(u32::MAX));
}

#[test]
fn refuses_what_is_no_number() {
    assert_eq!(parse_u32(b""), Err(IntError::Empty));
    assert_eq!(parse_u32(b"+"), Err(IntError::InvalidDigit));
    assert_eq!(parse_u32(b"-"), Err(IntError::InvalidDigit));
    assert_eq!(parse_u32(b"-1"), Err(IntError::InvalidDigit));
    assert_eq!(parse_u32(b"1 "), Err(IntError::InvalidDigit));
    assert_eq!(parse_u32(b"++1"), Err(IntError::InvalidDigit));
    assert_eq!(parse_u32(b"4294967296"), Err(IntError::PosOverflow));
}

#[test]
fn reports_what_stands_first() {
    assert_eq!(parse_u32(b"99999999999x"), Err(IntError::PosOverflow));
    assert_eq!(parse_u32(b"9x99999999999"), Err(IntError::InvalidDigit));
}

#[test]
fn agrees_with_the_standard_library() {
    for text in [
        "", "+", "-", "0", "00", "+0", "1", "12x", "x", "4294967295", "4294967296", "42949672950",
        "429496729x", "4294967295x", "4294967296x", "+4294967296", " 1", "1_000",
    ] {
        let ours = parse_u32(text.as_bytes());
        match (text.parse::<u32>(), ours) {
            (Ok(n), Ok(m)) => assert_eq!(n, m),
            (Err(e), Err(f)) => assert_eq!(format!("{:?}", e.kind()), format!("{:?}", f)),
            (theirs, ours) => panic!("{text:?}: {theirs:?} and {ours:?}"),
        }
    }
}

#[test]
fn numbers_read_back_as_written() {
    for n in [0, 1, 9, 10, 99, 100, 12345, u32::MAX - 1, u32::MAX] {
        assert_eq!(decimal(n), n.to_string().into_bytes());
        assert_eq!(parse_u32(&decimal(n)), Ok(n));
    }
}

#[test]
fn writes_behind_what_is_there() {
    let mut out = b"n=".to_vec();
    push_decimal(&mut out, 42);
    push_ascii(&mut out, "!");
    assert_eq!(out, b"n=42!".to_vec());
}
