use hashes::word::{be64, bit_length_of, hex_string, le64, rotate_left, swap_bytes};

#[test]
fn rotation_wraps_high_bits() {
    assert_eq!(3, rotate_left(0x8000_0001, 1));
    assert_eq!(0x2345_6781, rotate_left(0x1234_5678, 4));
}

#[test]
fn byte_swap_reverses_bytes() {
    assert_eq!(0x7856_3412, swap_bytes(0x1234_5678));
}

#[test]
fn length_fields_in_both_orders() {
    assert_eq!([0x28, 0, 0, 0, 0, 0, 0, 0], le64(40));
    assert_eq!([0, 0, 0, 0, 0, 0, 0, 0x28], be64(40));
    assert_eq!([8, 7, 6, 5, 4, 3, 2, 1], le64(0x0102_0304_0506_0708));
    assert_eq!(40, bit_length_of(5));
    assert_eq!(0, bit_length_of(0));
}

#[test]
fn hex_words_are_zero_padded() {
    assert_eq!("0000abcd00000001", hex_string(&[0xabcd, 1]));
    assert_eq!("", hex_string(&[]));
}

#[test]
fn rotation_is_taken_modulo_32() {
    assert_eq!(0x1234_5678, rotate_left(0x1234_5678, 0));
    assert_eq!(0x1234_5678, rotate_left(0x1234_5678, 32));
    assert_eq!(3, rotate_left(0x8000_0001, 33));
    assert_eq!(0x2345_6781, rotate_left(0x1234_5678, u32::MAX - 27));
}
