//! The authenticated MPC online layer.
//!
//! Authenticated inputs, local additions, Beaver multiplication and
//! MAC-checked opening.  The server holds the MAC key `alpha` whole; the
//! client works only with shares.  Every operation is a pure function of
//! its inputs, so a session is replayable from its randomness.

use crate::error::ErrorKind;
use crate::field::{
    f_add, f_mul, f_red, fe_add, fe_mul, fe_valid, lemma_f_mul_red, lemma_f_red_identity,
    lemma_mod_add_congruent, lemma_mod_mul_congruent, FIELD_MODULUS,
};
use crate::share::{
    auth_wf, authenticates, combined_mac, combined_value, open_authenticated, share_secret,
    AuthAdditiveShare,
};
use vstd::prelude::*;

verus! {

/// One party's share of a Beaver triple `(a, b, c)` with `c == a * b`.
#[derive(Clone, Copy, PartialEq, Eq, Structural, Debug)]
pub struct AuthTriple {
    pub a: AuthAdditiveShare,
    pub b: AuthAdditiveShare,
    pub c: AuthAdditiveShare,
}

pub open spec fn triple_wf(t: AuthTriple) -> bool {
    auth_wf(t.a) && auth_wf(t.b) && auth_wf(t.c)
}

/// The two halves of a triple are authenticated under `alpha` and
/// multiplicatively consistent: the reconstructed `c` is the field
/// product of the reconstructed `a` and `b`.
pub open spec fn triple_authenticated(tc: AuthTriple, ts: AuthTriple, alpha: int) -> bool {
    &&& combined_mac(tc.a, ts.a) == f_mul(alpha, combined_value(tc.a, ts.a))
    &&& combined_mac(tc.b, ts.b) == f_mul(alpha, combined_value(tc.b, ts.b))
    &&& combined_mac(tc.c, ts.c) == f_mul(alpha, combined_value(tc.c, ts.c))
    &&& combined_value(tc.c, ts.c) == f_mul(
        combined_value(tc.a, ts.a),
        combined_value(tc.b, ts.b),
    )
}

/// One party's local Beaver step: fold the two openings `d = x - a` and
/// `e = y - b` into its triple share.  The cross term `d * e` is added
/// by exactly one party; the MAC side adds `alpha_share * d * e`, where
/// the server's key share is the whole key and the client's is zero.
pub fn beaver_mul_share(
    t: &AuthTriple,
    d: u64,
    e: u64,
    alpha_share: u64,
    include_cross: bool,
) -> (z: AuthAdditiveShare)
    requires
        triple_wf(*t),
        fe_valid(d),
        fe_valid(e),
        fe_valid(alpha_share),
    ensures
        auth_wf(z),
        z.val == f_red(
            t.c.val + d * t.b.val + e * t.a.val + if include_cross {
                d * e
            } else {
                0
            },
        ),
        z.mac == f_red(t.c.mac + d * t.b.mac + e * t.a.mac + alpha_share * (d * e)),
{
    let db = fe_mul(d, t.b.val);
    let ea = fe_mul(e, t.a.val);
    let mut val = fe_add(t.c.val, fe_add(db, ea));
    proof {
        let m = FIELD_MODULUS as int;
        vstd::arithmetic::div_mod::lemma_mod_twice((d * t.b.val + e * t.a.val) as int, m);
        lemma_mod_add_congruent(
            d * t.b.val,
            f_mul(d as int, t.b.val as int),
            e * t.a.val,
            e * t.a.val,
        );
        lemma_mod_add_congruent(
            f_mul(d as int, t.b.val as int) + e * t.a.val,
            f_mul(d as int, t.b.val as int) + f_mul(e as int, t.a.val as int),
            0,
            0,
        );
        lemma_mod_add_congruent(
            t.c.val as int,
            t.c.val as int,
            d * t.b.val + e * t.a.val,
            f_add(f_mul(d as int, t.b.val as int), f_mul(e as int, t.a.val as int)),
        );
        assert(val == f_red(t.c.val + (d * t.b.val + e * t.a.val)));
    }
    if include_cross {
        let de = fe_mul(d, e);
        let old_val = val;
        val = fe_add(val, de);
        proof {
            lemma_mod_add_congruent(
                t.c.val + (d * t.b.val + e * t.a.val),
                old_val as int,
                d * e,
                f_mul(d as int, e as int),
            );
        }
    }
    let dbm = fe_mul(d, t.b.mac);
    let eam = fe_mul(e, t.a.mac);
    let de = fe_mul(d, e);
    let adem = fe_mul(alpha_share, de);
    let mac = fe_add(fe_add(t.c.mac, fe_add(dbm, eam)), adem);
    proof {
        let m = FIELD_MODULUS as int;
        lemma_mod_add_congruent(
            d * t.b.mac,
            f_mul(d as int, t.b.mac as int),
            e * t.a.mac,
            f_mul(e as int, t.a.mac as int),
        );
        lemma_mod_add_congruent(
            t.c.mac as int,
            t.c.mac as int,
            d * t.b.mac + e * t.a.mac,
            f_add(f_mul(d as int, t.b.mac as int), f_mul(e as int, t.a.mac as int)),
        );
        // alpha_share * (d * e) reduces in stages.
        lemma_f_mul_red(alpha_share as int, d * e);
        lemma_mod_add_congruent(
            t.c.mac + (d * t.b.mac + e * t.a.mac),
            f_add(t.c.mac as int, f_add(f_mul(d as int, t.b.mac as int), f_mul(e as int, t.a.mac as int))),
            alpha_share * (d * e),
            f_mul(alpha_share as int, f_mul(d as int, e as int)),
        );
    }
    AuthAdditiveShare { val, mac }
}

/// Ring identity behind the Beaver value share: summing the two local
/// folds regroups into combined quantities.
proof fn lemma_beaver_value_regroup(
    cc: int,
    cs: int,
    bc: int,
    bs: int,
    ac: int,
    sa: int,
    d: int,
    e: int,
) by (nonlinear_arith)
    ensures
        (cc + d * bc + e * ac) + (cs + d * bs + e * sa + d * e) == (cc + cs) + d * (bc + bs) + e * (
        ac + sa) + d * e,
{
}

/// Ring identity behind the Beaver MAC share.
proof fn lemma_beaver_mac_regroup(
    cc: int,
    cs: int,
    bc: int,
    bs: int,
    ac: int,
    sa: int,
    d: int,
    e: int,
    alpha: int,
) by (nonlinear_arith)
    ensures
        (cc + d * bc + e * ac + 0 * (d * e)) + (cs + d * bs + e * sa + alpha * (d * e)) == (cc + cs)
            + d * (bc + bs) + e * (ac + sa) + alpha * (d * e),
{
}

/// The Beaver recombination: a triple product plus the cross terms is
/// the full product.
proof fn lemma_beaver_product(va: int, vb: int, d: int, e: int) by (nonlinear_arith)
    ensures
        va * vb + (d * vb + e * va + d * e) == (va + d) * (vb + e),
{
}

/// The same recombination under the MAC key.
#[verifier::rlimit(60)]
proof fn lemma_beaver_product_mac(alpha: int, va: int, vb: int, d: int, e: int)
    ensures
        alpha * (va * vb) + (d * (alpha * vb) + e * (alpha * va) + alpha * (d * e)) == alpha * ((va
            + d) * (vb + e)),
{
    assert(alpha * (va * vb) + (d * (alpha * vb) + e * (alpha * va) + alpha * (d * e)) == alpha * (
    va * vb + (d * vb + e * va + d * e))) by (nonlinear_arith);
    lemma_beaver_product(va, vb, d, e);
}

/// Value half of the Beaver correctness argument.
#[verifier::spinoff_prover]
#[verifier::rlimit(100)]
proof fn lemma_beaver_correct_value(
    tc: AuthTriple,
    ts: AuthTriple,
    alpha: int,
    d: int,
    e: int,
    zc: AuthAdditiveShare,
    zs: AuthAdditiveShare,
)
    requires
        triple_wf(tc),
        triple_wf(ts),
        0 <= alpha < FIELD_MODULUS,
        0 <= d < FIELD_MODULUS,
        0 <= e < FIELD_MODULUS,
        triple_authenticated(tc, ts, alpha),
        zc.val == f_red(tc.c.val + d * tc.b.val + e * tc.a.val),
        zs.val == f_red(ts.c.val + d * ts.b.val + e * ts.a.val + d * e),
    ensures
        combined_value(zc, zs) == f_mul(
            combined_value(tc.a, ts.a) + d,
            combined_value(tc.b, ts.b) + e,
        ),
{
    let m = FIELD_MODULUS as int;
    let va = combined_value(tc.a, ts.a);
    let vb = combined_value(tc.b, ts.b);
    let vc = combined_value(tc.c, ts.c);

    // Value side: zc.val + zs.val == vc + d*vb + e*va + d*e (mod p).
    let lhs_int = (tc.c.val + d * tc.b.val + e * tc.a.val) + (ts.c.val + d * ts.b.val + e
        * ts.a.val + d * e);
    vstd::arithmetic::div_mod::lemma_mod_twice(tc.c.val + d * tc.b.val + e * tc.a.val, m);
    vstd::arithmetic::div_mod::lemma_mod_twice(ts.c.val + d * ts.b.val + e * ts.a.val + d * e, m);
    lemma_mod_add_congruent(
        zc.val as int,
        tc.c.val + d * tc.b.val + e * tc.a.val,
        zs.val as int,
        ts.c.val + d * ts.b.val + e * ts.a.val + d * e,
    );
    assert(combined_value(zc, zs) == f_red(lhs_int));
    // Regroup the integer sum towards combined quantities.
    lemma_beaver_value_regroup(
        tc.c.val as int,
        ts.c.val as int,
        tc.b.val as int,
        ts.b.val as int,
        tc.a.val as int,
        ts.a.val as int,
        d,
        e,
    );
    // Replace raw sums by their reductions.
    vstd::arithmetic::div_mod::lemma_mod_twice((tc.c.val + ts.c.val) as int, m);
    vstd::arithmetic::div_mod::lemma_mod_twice((tc.b.val + ts.b.val) as int, m);
    vstd::arithmetic::div_mod::lemma_mod_twice((tc.a.val + ts.a.val) as int, m);
    lemma_mod_mul_congruent(d, d, tc.b.val + ts.b.val, vb);
    lemma_mod_mul_congruent(e, e, tc.a.val + ts.a.val, va);
    lemma_mod_add_congruent(
        d * (tc.b.val + ts.b.val),
        d * vb,
        e * (tc.a.val + ts.a.val),
        e * va,
    );
    lemma_mod_add_congruent(
        tc.c.val + ts.c.val,
        vc,
        d * (tc.b.val + ts.b.val) + e * (tc.a.val + ts.a.val),
        d * vb + e * va,
    );
    lemma_mod_add_congruent(
        (tc.c.val + ts.c.val) + (d * (tc.b.val + ts.b.val) + e * (tc.a.val + ts.a.val)),
        vc + (d * vb + e * va),
        d * e,
        d * e,
    );
    assert(f_red(lhs_int) == f_red(vc + d * vb + e * va + d * e));
    // vc == a*b (mod p), so the whole is (va + d) * (vb + e) (mod p).
    vstd::arithmetic::div_mod::lemma_mod_twice(va * vb, m);
    lemma_mod_add_congruent(vc, va * vb, d * vb + e * va + d * e, d * vb + e * va + d * e);
    lemma_beaver_product(va, vb, d, e);
    assert(combined_value(zc, zs) == f_mul(va + d, vb + e));
}

/// MAC half of the Beaver correctness argument.
#[verifier::spinoff_prover]
#[verifier::rlimit(100)]
proof fn lemma_beaver_correct_mac(
    tc: AuthTriple,
    ts: AuthTriple,
    alpha: int,
    d: int,
    e: int,
    zc: AuthAdditiveShare,
    zs: AuthAdditiveShare,
)
    requires
        triple_wf(tc),
        triple_wf(ts),
        0 <= alpha < FIELD_MODULUS,
        0 <= d < FIELD_MODULUS,
        0 <= e < FIELD_MODULUS,
        triple_authenticated(tc, ts, alpha),
        zc.mac == f_red(tc.c.mac + d * tc.b.mac + e * tc.a.mac + 0 * (d * e)),
        zs.mac == f_red(ts.c.mac + d * ts.b.mac + e * ts.a.mac + alpha * (d * e)),
    ensures
        combined_mac(zc, zs) == f_mul(
            alpha,
            (combined_value(tc.a, ts.a) + d) * (combined_value(tc.b, ts.b) + e),
        ),
{
    let m = FIELD_MODULUS as int;
    let va = combined_value(tc.a, ts.a);
    let vb = combined_value(tc.b, ts.b);
    let vc = combined_value(tc.c, ts.c);
    let ma = combined_mac(tc.a, ts.a);
    let mb = combined_mac(tc.b, ts.b);
    let mc = combined_mac(tc.c, ts.c);

    // MAC side: zc.mac + zs.mac == mc + d*mb + e*ma + alpha*d*e (mod p).
    let lhs_mac = (tc.c.mac + d * tc.b.mac + e * tc.a.mac + 0 * (d * e)) + (ts.c.mac + d
        * ts.b.mac + e * ts.a.mac + alpha * (d * e));
    vstd::arithmetic::div_mod::lemma_mod_twice(
        tc.c.mac + d * tc.b.mac + e * tc.a.mac + 0 * (d * e),
        m,
    );
    vstd::arithmetic::div_mod::lemma_mod_twice(
        ts.c.mac + d * ts.b.mac + e * ts.a.mac + alpha * (d * e),
        m,
    );
    lemma_mod_add_congruent(
        zc.mac as int,
        tc.c.mac + d * tc.b.mac + e * tc.a.mac + 0 * (d * e),
        zs.mac as int,
        ts.c.mac + d * ts.b.mac + e * ts.a.mac + alpha * (d * e),
    );
    assert(combined_mac(zc, zs) == f_red(lhs_mac));
    lemma_beaver_mac_regroup(
        tc.c.mac as int,
        ts.c.mac as int,
        tc.b.mac as int,
        ts.b.mac as int,
        tc.a.mac as int,
        ts.a.mac as int,
        d,
        e,
        alpha,
    );
    vstd::arithmetic::div_mod::lemma_mod_twice((tc.c.mac + ts.c.mac) as int, m);
    vstd::arithmetic::div_mod::lemma_mod_twice((tc.b.mac + ts.b.mac) as int, m);
    vstd::arithmetic::div_mod::lemma_mod_twice((tc.a.mac + ts.a.mac) as int, m);
    lemma_mod_mul_congruent(d, d, tc.b.mac + ts.b.mac, mb);
    lemma_mod_mul_congruent(e, e, tc.a.mac + ts.a.mac, ma);
    lemma_mod_add_congruent(
        d * (tc.b.mac + ts.b.mac),
        d * mb,
        e * (tc.a.mac + ts.a.mac),
        e * ma,
    );
    lemma_mod_add_congruent(
        tc.c.mac + ts.c.mac,
        mc,
        d * (tc.b.mac + ts.b.mac) + e * (tc.a.mac + ts.a.mac),
        d * mb + e * ma,
    );
    lemma_mod_add_congruent(
        (tc.c.mac + ts.c.mac) + (d * (tc.b.mac + ts.b.mac) + e * (tc.a.mac + ts.a.mac)),
        mc + (d * mb + e * ma),
        alpha * (d * e),
        alpha * (d * e),
    );
    assert(f_red(lhs_mac) == f_red(mc + d * mb + e * ma + alpha * (d * e)));
    // Substitute the MAC identities mc == alpha*vc etc.
    vstd::arithmetic::div_mod::lemma_mod_twice(alpha * vc, m);
    vstd::arithmetic::div_mod::lemma_mod_twice(alpha * va, m);
    vstd::arithmetic::div_mod::lemma_mod_twice(alpha * vb, m);
    lemma_mod_mul_congruent(d, d, mb, alpha * vb);
    lemma_mod_mul_congruent(e, e, ma, alpha * va);
    lemma_mod_add_congruent(d * mb, d * (alpha * vb), e * ma, e * (alpha * va));
    lemma_mod_add_congruent(
        mc,
        alpha * vc,
        d * mb + e * ma,
        d * (alpha * vb) + e * (alpha * va),
    );
    lemma_mod_add_congruent(
        mc + (d * mb + e * ma),
        alpha * vc + (d * (alpha * vb) + e * (alpha * va)),
        alpha * (d * e),
        alpha * (d * e),
    );
    // And vc == va * vb (mod p) under multiplication by alpha.
    vstd::arithmetic::div_mod::lemma_mod_twice(va * vb, m);
    lemma_mod_mul_congruent(alpha, alpha, vc, va * vb);
    vstd::arithmetic::div_mod::lemma_mod_twice(alpha * (va * vb), m);
    lemma_mod_add_congruent(
        alpha * vc,
        alpha * (va * vb),
        d * (alpha * vb) + e * (alpha * va) + alpha * (d * e),
        d * (alpha * vb) + e * (alpha * va) + alpha * (d * e),
    );
    lemma_beaver_product_mac(alpha, va, vb, d, e);
    assert(combined_mac(zc, zs) == f_red(alpha * ((va + d) * (vb + e))));
}

/// Beaver multiplication is correct: if both parties fold honest
/// openings of `x - a` and `y - b` into an authenticated triple, the
/// resulting shares reconstruct to `x * y` and carry its MAC.
pub proof fn lemma_beaver_correct(
    tc: AuthTriple,
    ts: AuthTriple,
    alpha: int,
    d: int,
    e: int,
    zc: AuthAdditiveShare,
    zs: AuthAdditiveShare,
)
    requires
        triple_wf(tc),
        triple_wf(ts),
        0 <= alpha < FIELD_MODULUS,
        0 <= d < FIELD_MODULUS,
        0 <= e < FIELD_MODULUS,
        triple_authenticated(tc, ts, alpha),
        zc.val == f_red(tc.c.val + d * tc.b.val + e * tc.a.val),
        zc.mac == f_red(tc.c.mac + d * tc.b.mac + e * tc.a.mac + 0 * (d * e)),
        zs.val == f_red(ts.c.val + d * ts.b.val + e * ts.a.val + d * e),
        zs.mac == f_red(ts.c.mac + d * ts.b.mac + e * ts.a.mac + alpha * (d * e)),
    ensures
        combined_value(zc, zs) == f_mul(
            combined_value(tc.a, ts.a) + d,
            combined_value(tc.b, ts.b) + e,
        ),
        combined_mac(zc, zs) == f_mul(
            alpha,
            (combined_value(tc.a, ts.a) + d) * (combined_value(tc.b, ts.b) + e),
        ),
{
    lemma_beaver_correct_value(tc, ts, alpha, d, e, zc, zs);
    lemma_beaver_correct_mac(tc, ts, alpha, d, e, zc, zs);
}

/// The client's online MPC state: preprocessed random sharings and
/// triples; the client never sees the MAC key.
pub struct ClientMPC {
    pub rands: Vec<AuthAdditiveShare>,
    pub triples: Vec<AuthTriple>,
}

/// The server's online MPC state: its halves of the preprocessing plus
/// the MAC key itself.
pub struct ServerMPC {
    pub rands: Vec<AuthAdditiveShare>,
    pub triples: Vec<AuthTriple>,
    pub mac_key: u64,
}

impl ClientMPC {
    pub fn new(rands: Vec<AuthAdditiveShare>, triples: Vec<AuthTriple>) -> (r: Self)
        ensures
            r.rands == rands,
            r.triples == triples,
    {
        ClientMPC { rands, triples }
    }
}

impl ServerMPC {
    pub fn new(rands: Vec<AuthAdditiveShare>, triples: Vec<AuthTriple>, mac_key: u64) -> (r: Self)
        ensures
            r.rands == rands,
            r.triples == triples,
            r.mac_key == mac_key,
    {
        ServerMPC { rands, triples, mac_key }
    }

    /// Authenticate a batch of the server's private inputs: each value
    /// is split into the pair of shares, the first half kept, the
    /// second handed to the client.  The blinding tape supplies one
    /// value-mask and one MAC-mask per input.
    pub fn private_inputs(
        &self,
        values: &Vec<u64>,
        blind: &Vec<u64>,
    ) -> (r: (Vec<AuthAdditiveShare>, Vec<AuthAdditiveShare>))
        requires
            fe_valid(self.mac_key),
            blind@.len() == 2 * values@.len(),
            forall|i: int| 0 <= i < values@.len() ==> fe_valid(#[trigger] values@[i]),
            forall|i: int| 0 <= i < blind@.len() ==> fe_valid(#[trigger] blind@[i]),
        ensures
            r.0@.len() == values@.len(),
            r.1@.len() == values@.len(),
            forall|i: int| 0 <= i < values@.len() ==> auth_wf(#[trigger] r.0@[i]),
            forall|i: int| 0 <= i < values@.len() ==> auth_wf(#[trigger] r.1@[i]),
            forall|i: int|
                0 <= i < values@.len() ==> authenticates(
                    #[trigger] r.0@[i],
                    r.1@[i],
                    self.mac_key as int,
                    values@[i] as int,
                ),
    {
        let mut own: Vec<AuthAdditiveShare> = Vec::new();
        let mut peer: Vec<AuthAdditiveShare> = Vec::new();
        let blind_len = blind.len();
        proof {
            assert(blind@.len() <= usize::MAX);
        }
        let mut i: usize = 0;
        while i < values.len()
            invariant
                i <= values@.len(),
                fe_valid(self.mac_key),
                blind@.len() == 2 * values@.len(),
                blind@.len() <= usize::MAX,
                forall|t: int| 0 <= t < values@.len() ==> fe_valid(#[trigger] values@[t]),
                forall|t: int| 0 <= t < blind@.len() ==> fe_valid(#[trigger] blind@[t]),
                own@.len() == i,
                peer@.len() == i,
                forall|t: int| 0 <= t < i ==> auth_wf(#[trigger] own@[t]),
                forall|t: int| 0 <= t < i ==> auth_wf(#[trigger] peer@[t]),
                forall|t: int|
                    0 <= t < i ==> authenticates(
                        #[trigger] own@[t],
                        peer@[t],
                        self.mac_key as int,
                        values@[t] as int,
                    ),
            decreases values@.len() - i,
        {
            let (first, second) = share_secret(
                values[i],
                self.mac_key,
                blind[2 * i],
                blind[2 * i + 1],
            );
            // The peer receives the blinding half; the server keeps the
            // completing half.
            own.push(second);
            peer.push(first);
            proof {
                lemma_authenticates_symmetric(
                    first,
                    second,
                    self.mac_key as int,
                    values@[i as int] as int,
                );
            }
            i = i + 1;
        }
        (own, peer)
    }
}

/// An authenticated sharing reads the same from either side.
pub proof fn lemma_authenticates_symmetric(
    a: AuthAdditiveShare,
    b: AuthAdditiveShare,
    alpha: int,
    x: int,
)
    requires
        authenticates(a, b, alpha, x),
    ensures
        authenticates(b, a, alpha, x),
{
}

/// Full honest Beaver multiplication of two authenticated sharings,
/// consuming one triple: each party broadcasts its halves of the two
/// openings `x - a` and `y - b`, then folds them locally.  Returns the
/// new sharing pair, which reconstructs to the field product and
/// carries its MAC.
#[verifier::spinoff_prover]
#[verifier::rlimit(100)]
pub fn beaver_mul_both(
    xc: AuthAdditiveShare,
    xs: AuthAdditiveShare,
    yc: AuthAdditiveShare,
    ys: AuthAdditiveShare,
    tc: AuthTriple,
    ts: AuthTriple,
    alpha: u64,
) -> (r: (AuthAdditiveShare, AuthAdditiveShare))
    requires
        auth_wf(xc) && auth_wf(xs) && auth_wf(yc) && auth_wf(ys),
        triple_wf(tc) && triple_wf(ts),
        fe_valid(alpha),
        triple_authenticated(tc, ts, alpha as int),
    ensures
        auth_wf(r.0) && auth_wf(r.1),
        combined_value(r.0, r.1) == f_mul(combined_value(xc, xs), combined_value(yc, ys)),
        combined_mac(r.0, r.1) == f_mul(
            alpha as int,
            combined_value(xc, xs) * combined_value(yc, ys),
        ),
{
    let d = fe_add(crate::field::fe_sub(xc.val, tc.a.val), crate::field::fe_sub(xs.val, ts.a.val));
    let e = fe_add(crate::field::fe_sub(yc.val, tc.b.val), crate::field::fe_sub(ys.val, ts.b.val));
    let zc = beaver_mul_share(&tc, d, e, 0, false);
    let zs = beaver_mul_share(&ts, d, e, alpha, true);
    proof {
        let m = FIELD_MODULUS as int;
        let va = combined_value(tc.a, ts.a);
        let vb = combined_value(tc.b, ts.b);
        let x_int = xc.val + xs.val;
        let y_int = yc.val + ys.val;
        let va_int = tc.a.val + ts.a.val;
        let vb_int = tc.b.val + ts.b.val;
        // d == x - a (mod p).
        vstd::arithmetic::div_mod::lemma_mod_twice(xc.val - tc.a.val, m);
        vstd::arithmetic::div_mod::lemma_mod_twice(xs.val - ts.a.val, m);
        lemma_mod_add_congruent(
            crate::field::f_sub(xc.val as int, tc.a.val as int),
            xc.val - tc.a.val,
            crate::field::f_sub(xs.val as int, ts.a.val as int),
            xs.val - ts.a.val,
        );
        assert(d as int == f_red(x_int - va_int));
        vstd::arithmetic::div_mod::lemma_mod_twice(yc.val - tc.b.val, m);
        vstd::arithmetic::div_mod::lemma_mod_twice(ys.val - ts.b.val, m);
        lemma_mod_add_congruent(
            crate::field::f_sub(yc.val as int, tc.b.val as int),
            yc.val - tc.b.val,
            crate::field::f_sub(ys.val as int, ts.b.val as int),
            ys.val - ts.b.val,
        );
        assert(e as int == f_red(y_int - vb_int));
        // zc and zs match the shapes lemma_beaver_correct expects.
        assert(0 * ((d as int) * (e as int)) == 0 * (d * e));
        lemma_beaver_correct(tc, ts, alpha as int, d as int, e as int, zc, zs);
        // va + d == x (mod p), vb + e == y (mod p).
        vstd::arithmetic::div_mod::lemma_mod_twice(va_int, m);
        vstd::arithmetic::div_mod::lemma_mod_twice(x_int - va_int, m);
        lemma_mod_add_congruent(va, va_int, d as int, x_int - va_int);
        assert(f_red(va + d) == f_red(x_int));
        vstd::arithmetic::div_mod::lemma_mod_twice(vb_int, m);
        vstd::arithmetic::div_mod::lemma_mod_twice(y_int - vb_int, m);
        lemma_mod_add_congruent(vb, vb_int, e as int, y_int - vb_int);
        assert(f_red(vb + e) == f_red(y_int));
        // The product transfers along the congruences, down to the
        // reduced reconstructions.
        lemma_mod_mul_congruent(va + d, x_int, vb + e, y_int);
        vstd::arithmetic::div_mod::lemma_mod_twice(x_int, m);
        vstd::arithmetic::div_mod::lemma_mod_twice(y_int, m);
        lemma_mod_mul_congruent(x_int, combined_value(xc, xs), y_int, combined_value(yc, ys));
        assert(combined_value(zc, zs) == f_mul(combined_value(xc, xs), combined_value(yc, ys)));
        // MAC side: alpha times the same congruent product.
        lemma_mod_mul_congruent(
            alpha as int,
            alpha as int,
            (va + d) * (vb + e),
            x_int * y_int,
        );
        lemma_mod_mul_congruent(
            alpha as int,
            alpha as int,
            x_int * y_int,
            combined_value(xc, xs) * combined_value(yc, ys),
        );
        assert(combined_mac(zc, zs) == f_mul(
            alpha as int,
            combined_value(xc, xs) * combined_value(yc, ys),
        ));
    }
    (zc, zs)
}

} // verus!
