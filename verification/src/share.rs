//! Additive and authenticated shares.
//!
//! A secret `x` is held as a pair of field elements summing to `x`; an
//! authenticated share adds a share of `alpha * x` for the session MAC key
//! `alpha`, so that a tampered opening is caught.  Shares are immutable on
//! the arithmetic surface: every operation returns a new share.

use crate::error::ErrorKind;
use crate::field::{
    f_add, f_mul, f_neg, f_red, f_sub, fe_add, fe_mul, fe_neg, fe_sub, fe_valid,
    lemma_f_add_sub_cancel, lemma_f_mul_red, lemma_f_red_identity, lemma_f_sub_red,
    lemma_mod_add_congruent, lemma_mod_sub_congruent, FIELD_MODULUS,
};
use vstd::prelude::*;

verus! {

/// One party's additive share of a field element.
#[derive(Clone, Copy, PartialEq, Eq, Structural, Debug)]
pub struct AdditiveShare {
    pub inner: u64,
}

/// One party's authenticated additive share: a share of the value and a
/// share of `alpha` times the value.
#[derive(Clone, Copy, PartialEq, Eq, Structural, Debug)]
pub struct AuthAdditiveShare {
    pub val: u64,
    pub mac: u64,
}

pub open spec fn add_share_wf(s: AdditiveShare) -> bool {
    fe_valid(s.inner)
}

pub open spec fn auth_wf(s: AuthAdditiveShare) -> bool {
    fe_valid(s.val) && fe_valid(s.mac)
}

/// The value the two halves of an additive sharing reconstruct to.
pub open spec fn combined(a: AdditiveShare, b: AdditiveShare) -> int {
    f_add(a.inner as int, b.inner as int)
}

/// The value the two halves of an authenticated sharing reconstruct to.
pub open spec fn combined_value(a: AuthAdditiveShare, b: AuthAdditiveShare) -> int {
    f_add(a.val as int, b.val as int)
}

/// The MAC tag the two halves reconstruct to.
pub open spec fn combined_mac(a: AuthAdditiveShare, b: AuthAdditiveShare) -> int {
    f_add(a.mac as int, b.mac as int)
}

/// The pair `(a, b)` is a valid authenticated sharing of `x` under MAC
/// key `alpha`: the value halves sum to `x` and the MAC halves sum to
/// `alpha * x`.
pub open spec fn authenticates(
    a: AuthAdditiveShare,
    b: AuthAdditiveShare,
    alpha: int,
    x: int,
) -> bool {
    combined_value(a, b) == f_red(x) && combined_mac(a, b) == f_mul(alpha, x)
}

impl AdditiveShare {
    pub fn new(inner: u64) -> (r: Self)
        ensures
            r.inner == inner,
    {
        AdditiveShare { inner }
    }

    /// Local addition: shares of `x` and `y` become a share of `x + y`.
    pub fn add(self, other: Self) -> (r: Self)
        requires
            add_share_wf(self),
            add_share_wf(other),
        ensures
            add_share_wf(r),
            r.inner == f_add(self.inner as int, other.inner as int),
    {
        AdditiveShare { inner: fe_add(self.inner, other.inner) }
    }

    pub fn sub(self, other: Self) -> (r: Self)
        requires
            add_share_wf(self),
            add_share_wf(other),
        ensures
            add_share_wf(r),
            r.inner == f_sub(self.inner as int, other.inner as int),
    {
        AdditiveShare { inner: fe_sub(self.inner, other.inner) }
    }
}

impl AuthAdditiveShare {
    pub fn zero() -> (r: Self)
        ensures
            auth_wf(r),
            r.val == 0,
            r.mac == 0,
    {
        AuthAdditiveShare { val: 0, mac: 0 }
    }

    /// Local addition; MAC halves transform identically, so the sum of
    /// two sharings of `x` and `y` is a sharing of `x + y`.
    pub fn add(self, other: Self) -> (r: Self)
        requires
            auth_wf(self),
            auth_wf(other),
        ensures
            auth_wf(r),
            r.val == f_add(self.val as int, other.val as int),
            r.mac == f_add(self.mac as int, other.mac as int),
    {
        AuthAdditiveShare { val: fe_add(self.val, other.val), mac: fe_add(self.mac, other.mac) }
    }

    pub fn sub(self, other: Self) -> (r: Self)
        requires
            auth_wf(self),
            auth_wf(other),
        ensures
            auth_wf(r),
            r.val == f_sub(self.val as int, other.val as int),
            r.mac == f_sub(self.mac as int, other.mac as int),
    {
        AuthAdditiveShare { val: fe_sub(self.val, other.val), mac: fe_sub(self.mac, other.mac) }
    }

    pub fn neg(self) -> (r: Self)
        requires
            auth_wf(self),
        ensures
            auth_wf(r),
            r.val == f_neg(self.val as int),
            r.mac == f_neg(self.mac as int),
    {
        AuthAdditiveShare { val: fe_neg(self.val), mac: fe_neg(self.mac) }
    }

    /// Multiplication by a public constant: local, MAC transforms
    /// identically.
    pub fn mul_const(self, c: u64) -> (r: Self)
        requires
            auth_wf(self),
            fe_valid(c),
        ensures
            auth_wf(r),
            r.val == f_mul(c as int, self.val as int),
            r.mac == f_mul(c as int, self.mac as int),
    {
        AuthAdditiveShare { val: fe_mul(c, self.val), mac: fe_mul(c, self.mac) }
    }
}

/// Addition of sharings authenticates the sum of the secrets.
pub proof fn lemma_auth_add(
    a1: AuthAdditiveShare,
    b1: AuthAdditiveShare,
    a2: AuthAdditiveShare,
    b2: AuthAdditiveShare,
    alpha: int,
    x: int,
    y: int,
)
    requires
        auth_wf(a1) && auth_wf(b1) && auth_wf(a2) && auth_wf(b2),
        authenticates(a1, b1, alpha, x),
        authenticates(a2, b2, alpha, y),
    ensures
        f_add(combined_value(a1, b1), combined_value(a2, b2)) == f_red(x + y),
        f_add(combined_mac(a1, b1), combined_mac(a2, b2)) == f_mul(alpha, x + y),
{
    lemma_mod_add_congruent(
        combined_value(a1, b1),
        x,
        combined_value(a2, b2),
        y,
    );
    lemma_f_red_twice(x + y);
    lemma_mod_add_congruent(combined_mac(a1, b1), alpha * x, combined_mac(a2, b2), alpha * y);
    assert(alpha * x + alpha * y == alpha * (x + y)) by (nonlinear_arith);
}

/// Reduction is idempotent.
pub proof fn lemma_f_red_twice(a: int)
    ensures
        f_red(f_red(a)) == f_red(a),
{
    vstd::arithmetic::div_mod::lemma_mod_twice(a, FIELD_MODULUS as int);
}

/// Split a secret into two authenticated shares.  The first share is
/// exactly the supplied blinding pair `(r, t)`, so the sharing is a
/// deterministic function of the secret, the key and the blinding; the
/// second share completes both sums.
pub fn share_secret(x: u64, alpha: u64, r: u64, t: u64) -> (res: (
    AuthAdditiveShare,
    AuthAdditiveShare,
))
    requires
        fe_valid(x),
        fe_valid(alpha),
        fe_valid(r),
        fe_valid(t),
    ensures
        auth_wf(res.0) && auth_wf(res.1),
        authenticates(res.0, res.1, alpha as int, x as int),
        res.0.val == r,
        res.0.mac == t,
        res.1.val as int == f_sub(x as int, r as int),
        res.1.mac as int == f_sub(f_mul(alpha as int, x as int), t as int),
        combined_value(res.0, res.1) == x,
{
    let mac_total = fe_mul(alpha, x);
    let own = AuthAdditiveShare { val: r, mac: t };
    let other = AuthAdditiveShare { val: fe_sub(x, r), mac: fe_sub(mac_total, t) };
    proof {
        lemma_f_add_sub_cancel(x as int, r as int);
        lemma_f_add_sub_cancel(mac_total as int, t as int);
        lemma_f_red_identity(x as int);
    }
    (own, other)
}

/// Open an authenticated sharing, verifying the MAC: returns the
/// reconstructed value exactly when the MAC halves sum to `alpha` times
/// the value halves; otherwise reports [`ErrorKind::MacFailure`].
pub fn open_authenticated(
    own: AuthAdditiveShare,
    other: AuthAdditiveShare,
    alpha: u64,
) -> (r: Result<u64, ErrorKind>)
    requires
        auth_wf(own),
        auth_wf(other),
        fe_valid(alpha),
    ensures
        match r {
            Ok(v) => {
                &&& fe_valid(v)
                &&& v == combined_value(own, other)
                &&& combined_mac(own, other) == f_mul(alpha as int, v as int)
            },
            Err(e) => {
                &&& e == ErrorKind::MacFailure
                &&& combined_mac(own, other) != f_mul(
                    alpha as int,
                    combined_value(own, other),
                )
            },
        },
{
    let v = fe_add(own.val, other.val);
    let m = fe_add(own.mac, other.mac);
    let tag = fe_mul(alpha, v);
    proof {
        lemma_f_red_identity(v as int);
        lemma_f_mul_red(alpha as int, combined_value(own, other));
    }
    if tag == m {
        Ok(v)
    } else {
        Err(ErrorKind::MacFailure)
    }
}

/// MAC soundness, deterministic core.  Fix an honest sharing of `x`.  If
/// the other party's transmitted share is replaced by a forgery, the
/// opening check accepts if and only if the MAC perturbation equals
/// `alpha` times the value perturbation.  In particular a forgery that
/// changes the value but keeps the MAC share is accepted only when
/// `alpha * delta == 0` in the field; over uniformly drawn `alpha` that
/// event has probability at most `1/p`, which is the probabilistic half
/// of the guarantee and lives outside the proof.
pub proof fn lemma_tamper_pass_iff(
    own: AuthAdditiveShare,
    other: AuthAdditiveShare,
    forged: AuthAdditiveShare,
    alpha: int,
    x: int,
)
    requires
        auth_wf(own) && auth_wf(other) && auth_wf(forged),
        0 <= alpha < FIELD_MODULUS,
        0 <= x < FIELD_MODULUS,
        authenticates(own, other, alpha, x),
    ensures
        (combined_mac(own, forged) == f_mul(alpha, combined_value(own, forged))) <==> (f_red(
            forged.mac - other.mac,
        ) == f_mul(alpha, forged.val - other.val)),
{
    let m = FIELD_MODULUS as int;
    let dv = forged.val - other.val;
    let dm = forged.mac - other.mac;
    // Combined forged quantities differ from the honest ones by the deltas.
    lemma_mod_add_congruent(own.val as int + forged.val, own.val as int + other.val + dv, 0, 0);
    lemma_mod_add_congruent(own.mac as int + forged.mac, own.mac as int + other.mac + dm, 0, 0);
    // combined_value(own, forged) == f_red(x + dv)
    lemma_mod_add_congruent(own.val as int + other.val, x, dv, dv);
    assert(combined_value(own, forged) == f_red(x + dv));
    lemma_mod_add_congruent(own.mac as int + other.mac, alpha * x, dm, dm);
    assert(combined_mac(own, forged) == f_red(alpha * x + dm));
    // alpha * (x + dv) == alpha * x + alpha * dv
    assert(alpha * (x + dv) == alpha * x + alpha * dv) by (nonlinear_arith);
    lemma_f_mul_red(alpha, x + dv);
    assert(f_mul(alpha, combined_value(own, forged)) == f_red(alpha * x + alpha * dv));
    if f_red(dm) == f_mul(alpha, dv) {
        lemma_mod_add_congruent(alpha * x, alpha * x, dm, alpha * dv);
        assert(combined_mac(own, forged) == f_mul(alpha, combined_value(own, forged)));
    }
    if combined_mac(own, forged) == f_mul(alpha, combined_value(own, forged)) {
        // f_red(alpha * x + dm) == f_red(alpha * x + alpha * dv); subtract alpha * x.
        lemma_mod_sub_congruent(alpha * x + dm, alpha * x + alpha * dv, alpha * x, alpha * x);
        lemma_f_red_twice(dm);
        lemma_f_red_twice(alpha * dv);
        assert(f_red(dm) == f_mul(alpha, dv));
    }
}

/// Perfect blinding of a masked message.  Every observed message value is
/// consistent with every candidate secret: for any secret `x` and any
/// message `u` there is exactly one mask `r` in the field with
/// `x - r == u`.  The masked openings of the online phase therefore
/// reveal nothing about the secret beyond the mask's distribution.
pub proof fn lemma_blinding_covers(x: int, u: int)
    requires
        0 <= x < FIELD_MODULUS,
        0 <= u < FIELD_MODULUS,
    ensures
        f_sub(x, f_red(x - u)) == u,
        0 <= f_red(x - u) < FIELD_MODULUS,
{
    let m = FIELD_MODULUS as int;
    vstd::arithmetic::div_mod::lemma_mod_bound(x - u, m);
    lemma_f_sub_red(x, x - u);
    lemma_f_red_identity(u);
}

/// The mask consistent with a given secret and message is unique.
pub proof fn lemma_blinding_unique(x: int, r1: int, r2: int)
    requires
        0 <= x < FIELD_MODULUS,
        0 <= r1 < FIELD_MODULUS,
        0 <= r2 < FIELD_MODULUS,
        f_sub(x, r1) == f_sub(x, r2),
    ensures
        r1 == r2,
{
    let m = FIELD_MODULUS as int;
    lemma_mod_sub_congruent(x - r2, x - r2, x - r1, x - r1);
    assert(f_red((x - r2) - (x - r1)) == f_red(0)) by {
        lemma_mod_sub_congruent(x - r2, x - r1, x - r1, x - r1);
    }
    assert(f_red(r1 - r2) == 0);
    if r1 > r2 {
        lemma_f_red_identity(r1 - r2);
        assert(false);
    }
    if r2 > r1 {
        vstd::arithmetic::div_mod::lemma_mod_add_multiples_vanish(r1 - r2, m);
        lemma_f_red_identity(m + r1 - r2);
        assert(false);
    }
}

} // verus!
