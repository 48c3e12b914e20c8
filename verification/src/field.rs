//! The prime field that carries every share and MAC.
//!
//! All secret-shared values, MAC tags and linear-layer arithmetic live in
//! the field of integers modulo [`FIELD_MODULUS`], the largest prime below
//! `2^63` (a near-Mersenne value, `2^63 - 25`).  Specifications speak of
//! the mathematical operations [`f_add`], [`f_sub`], [`f_mul`] and
//! [`f_neg`] over `int`; the executable operations are proved to compute
//! exactly those.

use vstd::arithmetic::div_mod::{
    lemma_add_mod_noop, lemma_mod_add_multiples_vanish, lemma_mod_bound,
    lemma_mod_sub_multiples_vanish, lemma_mod_twice, lemma_mul_mod_noop, lemma_small_mod,
    lemma_sub_mod_noop,
};
use vstd::prelude::*;

verus! {

/// The prime modulus `p = 2^63 - 25`: the largest prime that fits in 63
/// bits, so that a field element always fits in a `u64` and two elements
/// can be added without overflowing one.
pub const FIELD_MODULUS: u64 = 9223372036854775783;

/// Bits needed to write a field element: `ceil(log2 p)`.
pub const MODULUS_BITS: usize = 63;

/// A `u64` holds a canonical field element when it is fully reduced.
pub open spec fn fe_valid(x: u64) -> bool {
    x < FIELD_MODULUS
}

/// Reduction of an arbitrary integer into the field.
pub open spec fn f_red(a: int) -> int {
    a % (FIELD_MODULUS as int)
}

/// Field addition, over mathematical integers.
pub open spec fn f_add(a: int, b: int) -> int {
    (a + b) % (FIELD_MODULUS as int)
}

/// Field subtraction, over mathematical integers.
pub open spec fn f_sub(a: int, b: int) -> int {
    (a - b) % (FIELD_MODULUS as int)
}

/// Field multiplication, over mathematical integers.
pub open spec fn f_mul(a: int, b: int) -> int {
    (a * b) % (FIELD_MODULUS as int)
}

/// Field negation, over mathematical integers.
pub open spec fn f_neg(a: int) -> int {
    (0 - a) % (FIELD_MODULUS as int)
}

/// Every value a sampler hands the protocol is checked against this bound,
/// so the executable operations only ever see canonical elements.
pub fn fe_add(a: u64, b: u64) -> (r: u64)
    requires
        fe_valid(a),
        fe_valid(b),
    ensures
        fe_valid(r),
        r == f_add(a as int, b as int),
{
    let s: u64 = a + b;
    if s >= FIELD_MODULUS {
        proof {
            lemma_mod_sub_multiples_vanish(s as int, FIELD_MODULUS as int);
            lemma_small_mod((s - FIELD_MODULUS) as nat, FIELD_MODULUS as nat);
        }
        s - FIELD_MODULUS
    } else {
        proof {
            lemma_small_mod(s as nat, FIELD_MODULUS as nat);
        }
        s
    }
}

pub fn fe_sub(a: u64, b: u64) -> (r: u64)
    requires
        fe_valid(a),
        fe_valid(b),
    ensures
        fe_valid(r),
        r == f_sub(a as int, b as int),
{
    if a >= b {
        proof {
            lemma_small_mod((a - b) as nat, FIELD_MODULUS as nat);
        }
        a - b
    } else {
        proof {
            lemma_mod_add_multiples_vanish(a as int - b as int, FIELD_MODULUS as int);
            lemma_small_mod((a + FIELD_MODULUS - b) as nat, FIELD_MODULUS as nat);
        }
        a + FIELD_MODULUS - b
    }
}

pub fn fe_neg(a: u64) -> (r: u64)
    requires
        fe_valid(a),
    ensures
        fe_valid(r),
        r == f_neg(a as int),
{
    if a == 0 {
        0
    } else {
        proof {
            lemma_mod_add_multiples_vanish(0 - a as int, FIELD_MODULUS as int);
            lemma_small_mod((FIELD_MODULUS - a) as nat, FIELD_MODULUS as nat);
        }
        FIELD_MODULUS - a
    }
}

pub fn fe_mul(a: u64, b: u64) -> (r: u64)
    requires
        fe_valid(a),
        fe_valid(b),
    ensures
        fe_valid(r),
        r == f_mul(a as int, b as int),
{
    proof {
        assert((a as int) * (b as int) <= u128::MAX as int) by (nonlinear_arith)
            requires
                (a as int) < 9223372036854775808int,
                (b as int) < 9223372036854775808int;
    }
    let wide: u128 = (a as u128) * (b as u128);
    let m: u128 = wide % (FIELD_MODULUS as u128);
    proof {
        lemma_mod_bound(wide as int, FIELD_MODULUS as int);
    }
    m as u64
}

/// Reduction stays put on an already-canonical element.
pub proof fn lemma_f_red_identity(a: int)
    requires
        0 <= a < FIELD_MODULUS,
    ensures
        f_red(a) == a,
{
    lemma_small_mod(a as nat, FIELD_MODULUS as nat);
}

/// Congruent summands give congruent sums.
pub proof fn lemma_mod_add_congruent(a: int, a2: int, b: int, b2: int)
    requires
        f_red(a) == f_red(a2),
        f_red(b) == f_red(b2),
    ensures
        f_red(a + b) == f_red(a2 + b2),
{
    let m = FIELD_MODULUS as int;
    lemma_add_mod_noop(a, b, m);
    lemma_add_mod_noop(a2, b2, m);
}

/// Congruent operands give congruent differences.
pub proof fn lemma_mod_sub_congruent(a: int, a2: int, b: int, b2: int)
    requires
        f_red(a) == f_red(a2),
        f_red(b) == f_red(b2),
    ensures
        f_red(a - b) == f_red(a2 - b2),
{
    let m = FIELD_MODULUS as int;
    lemma_sub_mod_noop(a, b, m);
    lemma_sub_mod_noop(a2, b2, m);
}

/// Congruent factors give congruent products.
pub proof fn lemma_mod_mul_congruent(a: int, a2: int, b: int, b2: int)
    requires
        f_red(a) == f_red(a2),
        f_red(b) == f_red(b2),
    ensures
        f_red(a * b) == f_red(a2 * b2),
{
    let m = FIELD_MODULUS as int;
    lemma_mul_mod_noop(a, b, m);
    lemma_mul_mod_noop(a2, b2, m);
}

/// Adding a share and then taking it away returns the secret: the
/// cancellation every blinding step relies on.
pub proof fn lemma_f_add_sub_cancel(x: int, r: int)
    requires
        0 <= x < FIELD_MODULUS,
        0 <= r,
    ensures
        f_add(f_sub(x, r), r) == x,
{
    let m = FIELD_MODULUS as int;
    lemma_mod_twice(x - r, m);
    lemma_add_mod_noop(x - r, r, m);
    lemma_small_mod(x as nat, FIELD_MODULUS as nat);
    assert(f_red(f_sub(x, r)) == f_red(x - r));
    lemma_mod_add_congruent(f_sub(x, r), x - r, r, r);
}

/// Reducing either summand first does not change a sum.
pub proof fn lemma_f_add_red(a: int, b: int)
    ensures
        f_add(f_red(a), b) == f_add(a, b),
        f_add(a, f_red(b)) == f_add(a, b),
{
    let m = FIELD_MODULUS as int;
    lemma_mod_twice(a, m);
    lemma_mod_twice(b, m);
    lemma_mod_add_congruent(f_red(a), a, b, b);
    lemma_mod_add_congruent(a, a, f_red(b), b);
}

/// Reducing either operand first does not change a difference.
pub proof fn lemma_f_sub_red(a: int, b: int)
    ensures
        f_sub(f_red(a), b) == f_sub(a, b),
        f_sub(a, f_red(b)) == f_sub(a, b),
{
    let m = FIELD_MODULUS as int;
    lemma_mod_twice(a, m);
    lemma_mod_twice(b, m);
    lemma_mod_sub_congruent(f_red(a), a, b, b);
    lemma_mod_sub_congruent(a, a, f_red(b), b);
}

/// Reducing either factor first does not change a product.
pub proof fn lemma_f_mul_red(a: int, b: int)
    ensures
        f_mul(f_red(a), b) == f_mul(a, b),
        f_mul(a, f_red(b)) == f_mul(a, b),
{
    let m = FIELD_MODULUS as int;
    lemma_mod_twice(a, m);
    lemma_mod_twice(b, m);
    lemma_mod_mul_congruent(f_red(a), a, b, b);
    lemma_mod_mul_congruent(a, a, f_red(b), b);
}

} // verus!
