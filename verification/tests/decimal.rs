use calc_bridge::decimal::{int_to_chars, ZERO};

#[test]
fn zero_renders_as_eight_zeros() {
    assert_eq!(&int_to_chars(0), b"00000000");
}

#[test]
fn small_value_is_padded() {
    assert_eq!(&int_to_chars(15), b"00000015");
    assert_eq!(&int_to_chars(7), b"00000007");
    assert_eq!(&int_to_chars(9998), b"00009998");
}

#[test]
fn eight_digit_value_fills_the_rendering() {
    assert_eq!(&int_to_chars(12_345_678), b"12345678");
    assert_eq!(&int_to_chars(99_980_001), b"99980001");
    assert_eq!(&int_to_chars(99_999_999), b"99999999");
    assert_eq!(&int_to_chars(10_000_000), b"10000000");
}

#[test]
fn inner_zeros_are_rendered() {
    assert_eq!(&int_to_chars(1_000_200), b"01000200");
}

#[test]
fn first_position_takes_the_whole_quotient() {
    // 123_456_789 / 10_000_000 = 12, and 12 + 48 is the code of '<'.
    assert_eq!(&int_to_chars(123_456_789), b"<3456789");
    // u32::MAX / 10_000_000 = 429, and 429 + 48 = 477 is cut down to 221.
    let chars = int_to_chars(u32::MAX);
    assert_eq!(chars[0], 221);
    assert_eq!(&chars[1..], b"4967295");
}

#[test]
fn zero_constant_is_ascii_zero() {
    assert_eq!(ZERO, b'0');
}
