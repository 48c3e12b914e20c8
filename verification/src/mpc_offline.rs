//! The batched offline generators: Beaver triples and random
//! authenticated sharings.
//!
//! In deployment the two parties run these over SIMD-packed
//! homomorphic ciphertexts in a constant number of rounds.  The
//! generator here is the functional core of that dance: a deterministic
//! function of the two parties' randomness tapes and the MAC key,
//! producing both halves of every correlation.  The contracts state the
//! invariant the online phase relies on: every triple reconstructs to
//! `c == a * b` and every sharing carries its MAC under the session
//! key.

use crate::field::{
    f_add, f_mul, f_sub, fe_add, fe_mul, fe_sub, fe_valid, lemma_f_add_sub_cancel,
    lemma_f_red_identity,
};
use crate::mpc::{triple_authenticated, triple_wf, AuthTriple};
use crate::share::{auth_wf, combined_mac, combined_value, AuthAdditiveShare};
use vstd::prelude::*;

verus! {

/// Tape cells consumed per triple from the client's randomness.
pub const TRIPLE_CLIENT_TAPE: usize = 2;

/// Tape cells consumed per triple from the server's randomness.
pub const TRIPLE_SERVER_TAPE: usize = 6;

/// Tape cells consumed per random sharing from each party.
pub const RAND_TAPE: usize = 2;

/// Generate `num` authenticated Beaver triples from the two randomness
/// tapes.  The client's `a` and `b` shares are exactly its tape cells,
/// so a re-run over equal tapes reproduces the output bit for bit.
pub fn triples_gen(
    alpha: u64,
    client_tape: &Vec<u64>,
    server_tape: &Vec<u64>,
    num: usize,
) -> (r: (Vec<AuthTriple>, Vec<AuthTriple>))
    requires
        fe_valid(alpha),
        client_tape@.len() == TRIPLE_CLIENT_TAPE * num,
        server_tape@.len() == TRIPLE_SERVER_TAPE * num,
        forall|i: int| 0 <= i < client_tape@.len() ==> fe_valid(#[trigger] client_tape@[i]),
        forall|i: int| 0 <= i < server_tape@.len() ==> fe_valid(#[trigger] server_tape@[i]),
    ensures
        r.0@.len() == num,
        r.1@.len() == num,
        forall|i: int| 0 <= i < num ==> triple_wf(#[trigger] r.0@[i]),
        forall|i: int| 0 <= i < num ==> triple_wf(#[trigger] r.1@[i]),
        forall|i: int|
            0 <= i < num ==> triple_authenticated(#[trigger] r.0@[i], r.1@[i], alpha as int),
        forall|i: int|
            0 <= i < num ==> (#[trigger] r.0@[i]).a.val == client_tape@[2 * i]
                && r.0@[i].b.val == client_tape@[2 * i + 1],
        forall|i: int|
            0 <= i < num ==> (#[trigger] r.1@[i]).a.val == server_tape@[6 * i]
                && r.1@[i].b.val == server_tape@[6 * i + 1],
{
    let mut client: Vec<AuthTriple> = Vec::new();
    let mut server: Vec<AuthTriple> = Vec::new();
    let ct_len = client_tape.len();
    let st_len = server_tape.len();
    let mut i: usize = 0;
    while i < num
        invariant
            i <= num,
            fe_valid(alpha),
            ct_len == client_tape@.len(),
            st_len == server_tape@.len(),
            client_tape@.len() == TRIPLE_CLIENT_TAPE * num,
            server_tape@.len() == TRIPLE_SERVER_TAPE * num,
            client_tape@.len() <= usize::MAX,
            server_tape@.len() <= usize::MAX,
            forall|t: int| 0 <= t < client_tape@.len() ==> fe_valid(#[trigger] client_tape@[t]),
            forall|t: int| 0 <= t < server_tape@.len() ==> fe_valid(#[trigger] server_tape@[t]),
            client@.len() == i,
            server@.len() == i,
            forall|t: int| 0 <= t < i ==> triple_wf(#[trigger] client@[t]),
            forall|t: int| 0 <= t < i ==> triple_wf(#[trigger] server@[t]),
            forall|t: int|
                0 <= t < i ==> triple_authenticated(#[trigger] client@[t], server@[t], alpha as int),
            forall|t: int|
                0 <= t < i ==> (#[trigger] client@[t]).a.val == client_tape@[2 * t]
                    && client@[t].b.val == client_tape@[2 * t + 1],
            forall|t: int|
                0 <= t < i ==> (#[trigger] server@[t]).a.val == server_tape@[6 * t]
                    && server@[t].b.val == server_tape@[6 * t + 1],
        decreases num - i,
    {
        let a_c = client_tape[2 * i];
        let b_c = client_tape[2 * i + 1];
        let a_s = server_tape[6 * i];
        let b_s = server_tape[6 * i + 1];
        let c_c = server_tape[6 * i + 2];
        let ma_c = server_tape[6 * i + 3];
        let mb_c = server_tape[6 * i + 4];
        let mc_c = server_tape[6 * i + 5];

        let a = fe_add(a_c, a_s);
        let b = fe_add(b_c, b_s);
        let c = fe_mul(a, b);
        let c_s = fe_sub(c, c_c);
        let ma = fe_mul(alpha, a);
        let mb = fe_mul(alpha, b);
        let mc = fe_mul(alpha, c);
        let ma_s = fe_sub(ma, ma_c);
        let mb_s = fe_sub(mb, mb_c);
        let mc_s = fe_sub(mc, mc_c);

        let tc = AuthTriple {
            a: AuthAdditiveShare { val: a_c, mac: ma_c },
            b: AuthAdditiveShare { val: b_c, mac: mb_c },
            c: AuthAdditiveShare { val: c_c, mac: mc_c },
        };
        let tsv = AuthTriple {
            a: AuthAdditiveShare { val: a_s, mac: ma_s },
            b: AuthAdditiveShare { val: b_s, mac: mb_s },
            c: AuthAdditiveShare { val: c_s, mac: mc_s },
        };
        proof {
            lemma_f_add_sub_cancel(ma as int, ma_c as int);
            lemma_f_add_sub_cancel(mb as int, mb_c as int);
            lemma_f_add_sub_cancel(mc as int, mc_c as int);
            lemma_f_add_sub_cancel(c as int, c_c as int);
            lemma_f_red_identity(a as int);
            lemma_f_red_identity(b as int);
            lemma_f_red_identity(c as int);
            crate::field::lemma_f_mul_red(alpha as int, combined_value(tc.c, tsv.c));
            assert(triple_authenticated(tc, tsv, alpha as int));
        }
        client.push(tc);
        server.push(tsv);
        i = i + 1;
    }
    (client, server)
}

/// Generate `num` random authenticated sharings.  The client's halves
/// are exactly its tape cells; the server completes the MAC under the
/// session key.
pub fn rands_gen(
    alpha: u64,
    client_tape: &Vec<u64>,
    server_tape: &Vec<u64>,
    num: usize,
) -> (r: (Vec<AuthAdditiveShare>, Vec<AuthAdditiveShare>))
    requires
        fe_valid(alpha),
        client_tape@.len() == RAND_TAPE * num,
        server_tape@.len() == num,
        forall|i: int| 0 <= i < client_tape@.len() ==> fe_valid(#[trigger] client_tape@[i]),
        forall|i: int| 0 <= i < server_tape@.len() ==> fe_valid(#[trigger] server_tape@[i]),
    ensures
        r.0@.len() == num,
        r.1@.len() == num,
        forall|i: int| 0 <= i < num ==> auth_wf(#[trigger] r.0@[i]),
        forall|i: int| 0 <= i < num ==> auth_wf(#[trigger] r.1@[i]),
        forall|i: int|
            0 <= i < num ==> combined_mac(#[trigger] r.0@[i], r.1@[i]) == f_mul(
                alpha as int,
                combined_value(r.0@[i], r.1@[i]),
            ),
        forall|i: int|
            0 <= i < num ==> (#[trigger] r.0@[i]).val == client_tape@[2 * i] && r.0@[i].mac
                == client_tape@[2 * i + 1],
        forall|i: int| 0 <= i < num ==> (#[trigger] r.1@[i]).val == server_tape@[i],
{
    let mut client: Vec<AuthAdditiveShare> = Vec::new();
    let mut server: Vec<AuthAdditiveShare> = Vec::new();
    let ct_len = client_tape.len();
    let mut i: usize = 0;
    while i < num
        invariant
            i <= num,
            fe_valid(alpha),
            ct_len == client_tape@.len(),
            client_tape@.len() == RAND_TAPE * num,
            server_tape@.len() == num,
            client_tape@.len() <= usize::MAX,
            forall|t: int| 0 <= t < client_tape@.len() ==> fe_valid(#[trigger] client_tape@[t]),
            forall|t: int| 0 <= t < server_tape@.len() ==> fe_valid(#[trigger] server_tape@[t]),
            client@.len() == i,
            server@.len() == i,
            forall|t: int| 0 <= t < i ==> auth_wf(#[trigger] client@[t]),
            forall|t: int| 0 <= t < i ==> auth_wf(#[trigger] server@[t]),
            forall|t: int|
                0 <= t < i ==> combined_mac(#[trigger] client@[t], server@[t]) == f_mul(
                    alpha as int,
                    combined_value(client@[t], server@[t]),
                ),
            forall|t: int|
                0 <= t < i ==> (#[trigger] client@[t]).val == client_tape@[2 * t] && client@[t].mac
                    == client_tape@[2 * t + 1],
            forall|t: int| 0 <= t < i ==> (#[trigger] server@[t]).val == server_tape@[t],
        decreases num - i,
    {
        let r_c = client_tape[2 * i];
        let m_c = client_tape[2 * i + 1];
        let r_s = server_tape[i];
        let v = fe_add(r_c, r_s);
        let mv = fe_mul(alpha, v);
        let m_s = fe_sub(mv, m_c);
        let own = AuthAdditiveShare { val: r_c, mac: m_c };
        let peer = AuthAdditiveShare { val: r_s, mac: m_s };
        proof {
            lemma_f_add_sub_cancel(mv as int, m_c as int);
            lemma_f_red_identity(v as int);
            crate::field::lemma_f_mul_red(alpha as int, combined_value(own, peer));
        }
        client.push(own);
        server.push(peer);
        i = i + 1;
    }
    (client, server)
}

} // verus!
