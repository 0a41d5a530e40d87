use skipline::cursor::{parse_lines_to_skip, u64_to_array};

#[test]
fn round_trip_zero() {
    assert_eq!(parse_lines_to_skip(&u64_to_array::<8>(0)), 0);
}

#[test]
fn round_trip_small_values() {
    for c in [1u64, 7, 9, 10, 42, 105, 4096, 1000000, 99999999] {
        assert_eq!(parse_lines_to_skip(&u64_to_array::<8>(c)), c);
    }
}

#[test]
fn parse_ignores_filler_bytes() {
    // "00", a NUL, "1", a NUL, "05": the digits 0, 0, 1, 0, 5 in order.
    let record = [b'0', b'0', 0u8, b'1', 0u8, b'0', b'5'];
    assert_eq!(parse_lines_to_skip(&record), 105);
}

#[test]
fn parse_empty_record() {
    assert_eq!(parse_lines_to_skip(&[]), 0);
}

#[test]
fn parse_all_nondigits() {
    assert_eq!(parse_lines_to_skip(&[0u8, b' ', b'x', 255u8]), 0);
}

#[test]
fn parse_plain_digits() {
    assert_eq!(parse_lines_to_skip(b"00000042"), 42);
}

#[test]
fn encode_writes_digits_then_zero_filler() {
    assert_eq!(u64_to_array::<8>(42), [b'4', b'2', 0, 0, 0, 0, 0, 0]);
    assert_eq!(u64_to_array::<8>(0), [b'0', 0, 0, 0, 0, 0, 0, 0]);
    assert_eq!(u64_to_array::<8>(99999999), *b"99999999");
}

#[test]
fn encode_narrow_record_keeps_low_digits() {
    assert_eq!(u64_to_array::<4>(123456), *b"3456");
    assert_eq!(u64_to_array::<4>(100456), *b"0456");
}
