//! Field arithmetic, fixed-point encoding, and bit decomposition.

use protocols::cds::{bit_decompose, bits_recompose};
use protocols::field::{fe_add, fe_mul, fe_neg, fe_sub, FIELD_MODULUS};
use protocols::fixed::{fe_from_signed, fe_to_signed, relu_trunc_exec, FIELD_HALF, FP_SCALE};

#[test]
fn field_modulus_is_largest_63_bit_prime_shape() {
    assert_eq!(FIELD_MODULUS, (1u64 << 63) - 25);
    assert!(FIELD_HALF == (FIELD_MODULUS - 1) / 2);
}

#[test]
fn fixed_point_parameters() {
    let p = protocols::fixed::TenBitExpParams;
    assert_eq!(p.mantissa_capacity(), 3);
    assert_eq!(p.exponent_capacity(), 8);
    assert_eq!(FP_SCALE, 1 << p.exponent_capacity());
}

#[test]
fn field_add_wraps() {
    assert_eq!(fe_add(FIELD_MODULUS - 1, 1), 0);
    assert_eq!(fe_add(FIELD_MODULUS - 1, 5), 4);
    assert_eq!(fe_add(2, 3), 5);
}

#[test]
fn field_sub_wraps() {
    assert_eq!(fe_sub(3, 5), FIELD_MODULUS - 2);
    assert_eq!(fe_sub(5, 5), 0);
    assert_eq!(fe_sub(7, 2), 5);
}

#[test]
fn field_neg_is_additive_inverse() {
    let x = 123456789u64;
    assert_eq!(fe_add(x, fe_neg(x)), 0);
    assert_eq!(fe_neg(0), 0);
}

#[test]
fn field_mul_exact_values() {
    // (p - 1)^2 == 1 (mod p): p - 1 is its own inverse.
    assert_eq!(fe_mul(FIELD_MODULUS - 1, FIELD_MODULUS - 1), 1);
    assert_eq!(fe_mul(1 << 31, 1 << 31), (1u64 << 62));
    assert_eq!(fe_mul(0, 999), 0);
}

#[test]
fn signed_embedding_round_trips() {
    for v in [-1000i64, -1, 0, 1, 31337] {
        assert_eq!(fe_to_signed(fe_from_signed(v)), v);
    }
    assert_eq!(fe_from_signed(-1), FIELD_MODULUS - 1);
}

#[test]
fn relu_truncation_on_signed_inputs() {
    // Double-scale encodings of -1, 0, +1: ReLU with truncation gives
    // the single-scale encodings of 0, 0, +1.
    let enc2 = |m: i64| fe_from_signed(m * (FP_SCALE as i64) * (FP_SCALE as i64));
    assert_eq!(relu_trunc_exec(enc2(-1)), 0);
    assert_eq!(relu_trunc_exec(enc2(0)), 0);
    assert_eq!(relu_trunc_exec(enc2(1)), FP_SCALE);
    // A positive value below one scale unit truncates to zero.
    assert_eq!(relu_trunc_exec(200), 0);
    assert_eq!(relu_trunc_exec(511), 1);
}

#[test]
fn bits_round_trip() {
    for x in [0u64, 1, 2, 255, FIELD_MODULUS - 1, 0x123456789abcdef] {
        let bits = bit_decompose(x);
        assert_eq!(bits.len(), 63);
        assert!(bits.iter().all(|b| *b <= 1));
        assert_eq!(bits_recompose(&bits), x);
    }
}

#[test]
fn bits_of_five() {
    let bits = bit_decompose(5);
    assert_eq!(&bits[0..4], &[1, 0, 1, 0]);
}
