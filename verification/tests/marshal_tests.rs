use clear_coat::marshal::{scratch_as_slice, scratch_new, str_to_c_vec, CStrSource};
use clear_coat::numtext::{format_i32, format_u64, parse_i32, parse_int_pair, parse_u64};

#[test]
fn fast_path_borrows_input() {
    // A single exactly-trailing NUL: the marshaled bytes are the input's own.
    let mut buf = scratch_new();
    let src = str_to_c_vec("TITLE\0", &mut buf);
    assert_eq!(src, CStrSource::Inline);
    assert_eq!(scratch_as_slice(&buf).len(), 0);
}

#[test]
fn slow_path_copies_and_terminates() {
    let mut buf = scratch_new();
    let src = str_to_c_vec("TITLE", &mut buf);
    assert_eq!(src, CStrSource::Scratch);
    assert_eq!(scratch_as_slice(&buf), b"TITLE\0");
}

#[test]
fn slow_path_replaces_embedded_nuls() {
    // Two embedded NULs become placeholders; exactly one NUL is appended,
    // and the result is one byte longer than the input.
    let mut buf = scratch_new();
    let src = str_to_c_vec("a\0b\0c", &mut buf);
    assert_eq!(src, CStrSource::Scratch);
    assert_eq!(scratch_as_slice(&buf), b"a?b?c\0");
    assert_eq!(scratch_as_slice(&buf).len(), "a\0b\0c".len() + 1);
}

#[test]
fn trailing_and_embedded_nul_takes_slow_path() {
    let mut buf = scratch_new();
    let src = str_to_c_vec("a\0b\0", &mut buf);
    assert_eq!(src, CStrSource::Scratch);
    assert_eq!(scratch_as_slice(&buf), b"a?b?\0");
}

#[test]
fn empty_input_yields_single_nul() {
    let mut buf = scratch_new();
    let src = str_to_c_vec("", &mut buf);
    assert_eq!(src, CStrSource::Scratch);
    assert_eq!(scratch_as_slice(&buf), b"\0");
}

#[test]
fn format_unsigned_digits() {
    assert_eq!(format_u64(0), b"0".to_vec());
    assert_eq!(format_u64(1234), b"1234".to_vec());
    assert_eq!(format_u64(u64::MAX), b"18446744073709551615".to_vec());
}

#[test]
fn format_signed_digits() {
    assert_eq!(format_i32(75), b"75".to_vec());
    assert_eq!(format_i32(-3), b"-3".to_vec());
    assert_eq!(format_i32(i32::MIN), b"-2147483648".to_vec());
}

#[test]
fn parse_unsigned() {
    assert_eq!(parse_u64(b"0042"), Some(42));
    assert_eq!(parse_u64(b""), None);
    assert_eq!(parse_u64(b"12a"), None);
    assert_eq!(parse_u64(b"18446744073709551615"), Some(u64::MAX));
    assert_eq!(parse_u64(b"18446744073709551616"), None);
}

#[test]
fn parse_signed() {
    assert_eq!(parse_i32(b"-17"), Some(-17));
    assert_eq!(parse_i32(b"2147483647"), Some(i32::MAX));
    assert_eq!(parse_i32(b"-2147483648"), Some(i32::MIN));
    assert_eq!(parse_i32(b"2147483648"), None);
    assert_eq!(parse_i32(b"-"), None);
}

#[test]
fn parse_pairs() {
    assert_eq!(parse_int_pair(b"75x0"), Some((75, 0)));
    assert_eq!(parse_int_pair(b"-1x23"), Some((-1, 23)));
    assert_eq!(parse_int_pair(b"75"), None);
    assert_eq!(parse_int_pair(b"x1"), None);
    assert_eq!(parse_int_pair(b"1x"), None);
}
