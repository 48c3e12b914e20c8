//! Fixed-point encoding into the field, and the truncated ReLU.
//!
//! A real number `x` is carried as the integer mantissa `round(x * 2^e)`
//! for the exponent capacity `e`, embedded into the field with negatives
//! wrapped modulo `p`.  Multiplying two encoded values doubles the scale;
//! the non-linear layer's circuit truncates by `2^e` while applying ReLU,
//! restoring single scale.

use crate::field::{f_red, fe_valid, FIELD_MODULUS};
use vstd::prelude::*;

verus! {

/// Mantissa capacity of the fixed-point parameterisation: how many whole
/// bits a representable value may take.
pub const MANTISSA_CAPACITY: u64 = 3;

/// Exponent capacity: fractional bits, and the truncation amount folded
/// into every garbled ReLU.
pub const EXPONENT_CAPACITY: u64 = 8;

/// The scale factor `2^EXPONENT_CAPACITY`.
pub const FP_SCALE: u64 = 256;

/// Elements at or below this bound are read as non-negative; above it,
/// as `x - p`.  Equal to `(p - 1) / 2`.
pub const FIELD_HALF: u64 = (9223372036854775783 - 1) / 2;

/// The fixed-point parameter bundle used throughout a session: a
/// ten-bit-style configuration with three mantissa bits and eight
/// exponent bits.
#[derive(Clone, Copy, PartialEq, Eq, Structural, Debug)]
pub struct TenBitExpParams;

impl TenBitExpParams {
    pub fn mantissa_capacity(&self) -> (r: u64)
        ensures
            r == MANTISSA_CAPACITY,
    {
        MANTISSA_CAPACITY
    }

    pub fn exponent_capacity(&self) -> (r: u64)
        ensures
            r == EXPONENT_CAPACITY,
    {
        EXPONENT_CAPACITY
    }
}

/// The signed reading of a canonical field element.
pub open spec fn f_signed(x: int) -> int {
    if x > FIELD_HALF {
        x - FIELD_MODULUS
    } else {
        x
    }
}

/// Embed a signed integer into the field.
pub fn fe_from_signed(v: i64) -> (r: u64)
    requires
        -(FIELD_HALF as int) <= v as int <= FIELD_HALF as int,
    ensures
        fe_valid(r),
        f_signed(r as int) == v as int,
        f_red(v as int) == r as int,
{
    if v >= 0 {
        proof {
            vstd::arithmetic::div_mod::lemma_small_mod(v as nat, FIELD_MODULUS as nat);
        }
        v as u64
    } else {
        proof {
            vstd::arithmetic::div_mod::lemma_mod_add_multiples_vanish(
                v as int,
                FIELD_MODULUS as int,
            );
            vstd::arithmetic::div_mod::lemma_small_mod(
                (FIELD_MODULUS as int + v as int) as nat,
                FIELD_MODULUS as nat,
            );
        }
        FIELD_MODULUS - ((-v) as u64)
    }
}

/// Read a canonical field element back as a signed integer.
pub fn fe_to_signed(x: u64) -> (r: i64)
    requires
        fe_valid(x),
    ensures
        r as int == f_signed(x as int),
{
    if x > FIELD_HALF {
        -((FIELD_MODULUS - x) as i64)
    } else {
        x as i64
    }
}

/// What the garbled non-linear circuit computes on a reconstructed
/// double-scale input: ReLU, with truncation by the exponent capacity
/// folded in.  Non-positive readings clamp to zero; positive readings
/// are divided by the scale.
pub open spec fn relu_trunc(x: int) -> int {
    if f_signed(x) <= 0 {
        0
    } else {
        f_signed(x) / (FP_SCALE as int)
    }
}

/// Reference evaluation of the truncated ReLU on a field element.
pub fn relu_trunc_exec(x: u64) -> (r: u64)
    requires
        fe_valid(x),
    ensures
        fe_valid(r),
        r as int == relu_trunc(x as int),
{
    if x > FIELD_HALF {
        0
    } else {
        x / FP_SCALE
    }
}

} // verus!
