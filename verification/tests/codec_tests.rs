use plasma::codec::{
    float_decode, float_encode, AMOUNT_EXPONENT_BIT_WIDTH, AMOUNT_MANTISSA_BIT_WIDTH,
    FEE_EXPONENT_BIT_WIDTH, FEE_MANTISSA_BIT_WIDTH,
};
use plasma::field::{fel_from_u128, field_element_to_u32, fel_zero, fr_add, fr_sub};

#[test]
fn amount_decode_exact() {
    let f = float_encode(5, 2, AMOUNT_EXPONENT_BIT_WIDTH, AMOUNT_MANTISSA_BIT_WIDTH);
    let d = float_decode(&f, AMOUNT_EXPONENT_BIT_WIDTH, AMOUNT_MANTISSA_BIT_WIDTH);
    assert_eq!(d, Some(500));
}

#[test]
fn fee_decode_exact() {
    let f = float_encode(7, 3, FEE_EXPONENT_BIT_WIDTH, FEE_MANTISSA_BIT_WIDTH);
    let d = float_decode(&f, FEE_EXPONENT_BIT_WIDTH, FEE_MANTISSA_BIT_WIDTH);
    assert_eq!(d, Some(7000));
}

#[test]
fn decode_zero_mantissa() {
    let f = float_encode(0, 31, AMOUNT_EXPONENT_BIT_WIDTH, AMOUNT_MANTISSA_BIT_WIDTH);
    let d = float_decode(&f, AMOUNT_EXPONENT_BIT_WIDTH, AMOUNT_MANTISSA_BIT_WIDTH);
    assert_eq!(d, Some(0));
}

#[test]
fn decode_rejects_bits_outside_amount_window() {
    let f = fel_from_u128(1 << 20);
    let d = float_decode(&f, AMOUNT_EXPONENT_BIT_WIDTH, AMOUNT_MANTISSA_BIT_WIDTH);
    assert_eq!(d, None);
}

#[test]
fn decode_rejects_bits_outside_fee_window() {
    let f = fel_from_u128(256);
    let d = float_decode(&f, FEE_EXPONENT_BIT_WIDTH, FEE_MANTISSA_BIT_WIDTH);
    assert_eq!(d, None);
}

#[test]
fn fee_round_trip_all_pairs() {
    for e in 0u64..32 {
        for m in 0u64..8 {
            let f = float_encode(m, e, FEE_EXPONENT_BIT_WIDTH, FEE_MANTISSA_BIT_WIDTH);
            let d = float_decode(&f, FEE_EXPONENT_BIT_WIDTH, FEE_MANTISSA_BIT_WIDTH);
            let expected = (m as u128) * 10u128.pow(e as u32);
            assert_eq!(d, Some(expected));
        }
    }
}

#[test]
fn amount_round_trip_sample_pairs() {
    for e in 0u64..32 {
        for m in [0u64, 1, 2, 1000, 2047] {
            let f = float_encode(m, e, AMOUNT_EXPONENT_BIT_WIDTH, AMOUNT_MANTISSA_BIT_WIDTH);
            let d = float_decode(&f, AMOUNT_EXPONENT_BIT_WIDTH, AMOUNT_MANTISSA_BIT_WIDTH);
            let expected = (m as u128) * 10u128.pow(e as u32);
            assert_eq!(d, Some(expected));
        }
    }
}

#[test]
fn low_bits_extraction() {
    let f = fel_from_u128(0xDEADBEEF12345678);
    assert_eq!(field_element_to_u32(&f), 0x12345678);
    let z = fel_zero();
    assert_eq!(field_element_to_u32(&z), 0);
}

#[test]
fn field_wraps_at_modulus() {
    // (0 - 1) + 1 == 0 in the field: the wrappers really reduce modulo
    // the order rather than handing a value back unchanged.
    let zero = fel_zero();
    let one = fel_from_u128(1);
    let minus_one = fr_sub(&zero, &one);
    assert_ne!(minus_one.b, zero.b);
    let back = fr_add(&minus_one, &one);
    assert_eq!(back.b, zero.b);
}

#[test]
fn from_u128_is_big_endian() {
    let f = fel_from_u128(0x0102);
    assert_eq!(f.b.len(), 32);
    assert_eq!(f.b[30], 0x01);
    assert_eq!(f.b[31], 0x02);
    assert!(f.b[..30].iter().all(|&x| x == 0));
}
