//! The authenticated-correlations generator for linear layers.
//!
//! For each convolution or fully-connected layer the parties run one
//! offline dance over the layer's canonical map `L`: the client
//! encrypts a fresh randomizer `r`; the server homomorphically returns
//! the blinded image `L(r) - s` together with its MAC under the session
//! key, blinded by a fresh tag mask `t`; the client decrypts its
//! authenticated output share.  The functions here are the plaintext
//! core of that dance — what each side's homomorphic computation
//! produces — with element-exact contracts.  Pooling and identity
//! layers reuse the authenticated domain instead: both parties push
//! their halves through the public map locally, MAC halves transformed
//! identically.

use crate::field::{f_mul, f_sub, fe_mul, fe_sub, fe_valid};
use crate::layers::{apply_nobias, map_wf, spec_apply_nobias, vec_sub, LinearMap};
use vstd::prelude::*;

verus! {

/// The client's offline share for one linear layer: the input
/// randomizer it sampled, and its authenticated share of the layer
/// output.
#[derive(Clone, Debug)]
pub struct AcgClientShare {
    pub randomizer: Vec<u64>,
    pub out_val: Vec<u64>,
    pub out_mac: Vec<u64>,
}

/// The server's offline share for one linear layer: its additive share
/// of the output and the MAC mask it kept.
#[derive(Clone, Debug)]
pub struct AcgServerShare {
    pub out_blind: Vec<u64>,
    pub mac_blind: Vec<u64>,
}

pub open spec fn vec_all_fe(v: Seq<u64>) -> bool {
    forall|i: int| 0 <= i < v.len() ==> fe_valid(#[trigger] v[i])
}

/// The exact relation the dance establishes, per output element: the
/// client's value share is `L_nobias(r) - s`, and its MAC share is
/// `alpha` times that minus the server's mask.
pub open spec fn acg_consistent(
    m: LinearMap,
    cs: AcgClientShare,
    ss: AcgServerShare,
    alpha: int,
) -> bool {
    &&& cs.randomizer@.len() == m.in_len
    &&& cs.out_val@.len() == m.out_len
    &&& cs.out_mac@.len() == m.out_len
    &&& ss.out_blind@.len() == m.out_len
    &&& ss.mac_blind@.len() == m.out_len
    &&& vec_all_fe(cs.randomizer@) && vec_all_fe(cs.out_val@) && vec_all_fe(cs.out_mac@)
    &&& vec_all_fe(ss.out_blind@) && vec_all_fe(ss.mac_blind@)
    &&& forall|j: int|
        0 <= j < m.out_len ==> #[trigger] cs.out_val@[j] == f_sub(
            spec_apply_nobias(m, cs.randomizer@)[j] as int,
            ss.out_blind@[j] as int,
        )
    &&& forall|j: int|
        0 <= j < m.out_len ==> #[trigger] cs.out_mac@[j] == f_sub(
            f_mul(alpha, cs.out_val@[j] as int),
            ss.mac_blind@[j] as int,
        )
}

/// One offline correlation dance over a canonical map.  `r` is the
/// client's fresh randomizer; `s` and `t` are the server's fresh output
/// share and MAC mask; `alpha` is the session key.  The outputs carry
/// the exact [`acg_consistent`] relation, so the dance is a
/// deterministic function of the sampled randomness.
pub fn acg_layer(
    m: &LinearMap,
    r: Vec<u64>,
    s: Vec<u64>,
    t: Vec<u64>,
    alpha: u64,
) -> (res: (AcgClientShare, AcgServerShare))
    requires
        map_wf(*m),
        r@.len() == m.in_len,
        s@.len() == m.out_len,
        t@.len() == m.out_len,
        fe_valid(alpha),
        vec_all_fe(r@),
        vec_all_fe(s@),
        vec_all_fe(t@),
    ensures
        acg_consistent(*m, res.0, res.1, alpha as int),
        res.0.randomizer@ == r@,
        res.1.out_blind@ == s@,
        res.1.mac_blind@ == t@,
{
    let lr = apply_nobias(m, &r);
    let out_val = vec_sub(&lr, &s);
    let mut out_mac: Vec<u64> = Vec::new();
    let mut j: usize = 0;
    while j < out_val.len()
        invariant
            j <= out_val@.len(),
            out_val@.len() == m.out_len,
            t@.len() == m.out_len,
            fe_valid(alpha),
            vec_all_fe(out_val@),
            vec_all_fe(t@),
            out_mac@.len() == j,
            forall|i: int|
                0 <= i < j ==> #[trigger] out_mac@[i] == f_sub(
                    f_mul(alpha as int, out_val@[i] as int),
                    t@[i] as int,
                ),
            forall|i: int| 0 <= i < j ==> fe_valid(#[trigger] out_mac@[i]),
        decreases out_val@.len() - j,
    {
        let tag = fe_mul(alpha, out_val[j]);
        out_mac.push(fe_sub(tag, t[j]));
        j = j + 1;
    }
    let client = AcgClientShare { randomizer: r, out_val, out_mac };
    let server = AcgServerShare { out_blind: s, mac_blind: t };
    (client, server)
}

/// Push an authenticated vector through a public linear map without
/// bias: value and MAC halves are transformed identically, so the MAC
/// keys of the predecessor layer keep authenticating the result.  This
/// is the pooling / identity path of the offline phase.
pub fn evaluate_naive_auth(m: &LinearMap, vals: &Vec<u64>, macs: &Vec<u64>) -> (r: (
    Vec<u64>,
    Vec<u64>,
))
    requires
        map_wf(*m),
        vals@.len() == m.in_len,
        macs@.len() == m.in_len,
        vec_all_fe(vals@),
        vec_all_fe(macs@),
    ensures
        r.0@ == spec_apply_nobias(*m, vals@),
        r.1@ == spec_apply_nobias(*m, macs@),
{
    let v = apply_nobias(m, vals);
    let mc = apply_nobias(m, macs);
    (v, mc)
}

/// Authenticate a client randomizer after a non-linear layer: the
/// server adds the MAC homomorphically and masks it with `t`, the
/// client decrypts its MAC share.  Returns the client's MAC share.
pub fn offline_auth_share(r: &Vec<u64>, alpha: u64, t: &Vec<u64>) -> (mc: Vec<u64>)
    requires
        r@.len() == t@.len(),
        fe_valid(alpha),
        vec_all_fe(r@),
        vec_all_fe(t@),
    ensures
        mc@.len() == r@.len(),
        vec_all_fe(mc@),
        forall|j: int|
            0 <= j < mc@.len() ==> #[trigger] mc@[j] == f_sub(
                f_mul(alpha as int, r@[j] as int),
                t@[j] as int,
            ),
{
    let mut out: Vec<u64> = Vec::new();
    let mut j: usize = 0;
    while j < r.len()
        invariant
            j <= r@.len(),
            r@.len() == t@.len(),
            fe_valid(alpha),
            vec_all_fe(r@),
            vec_all_fe(t@),
            out@.len() == j,
            forall|i: int|
                0 <= i < j ==> #[trigger] out@[i] == f_sub(
                    f_mul(alpha as int, r@[i] as int),
                    t@[i] as int,
                ),
            forall|i: int| 0 <= i < j ==> fe_valid(#[trigger] out@[i]),
        decreases r@.len() - j,
    {
        let tag = fe_mul(alpha, r[j]);
        out.push(fe_sub(tag, t[j]));
        j = j + 1;
    }
    out
}

} // verus!
