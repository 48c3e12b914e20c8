//! Input authentication: turning authenticated value shares into
//! authenticated bit shares fit for garbled-circuit evaluator inputs.
//!
//! Each value share is decomposed into its `ceil(log2 p)` bits and
//! every bit is re-shared under the same session key.  A final
//! MAC-check round verifies the joint bit shares.  Two variants exist
//! in deployment — a generic private-input path, and an optimised path
//! that applies one MAC ciphertext directly to the bits — and they
//! produce identical abstract output, which is proved here.

use crate::cds::{all_bits, bit_decompose, bits_value, SHARE_BITS};
use crate::error::ErrorKind;
use crate::field::{f_mul, f_sub, fe_mul, fe_sub, fe_valid};
use crate::share::{auth_wf, authenticates, open_authenticated, share_secret, AuthAdditiveShare};
use vstd::prelude::*;

verus! {

/// Share one vector of bits under the session key, one blinding pair
/// per bit.  The first half of each sharing is exactly the blinding
/// pair, so the result is a deterministic function of the inputs.
pub fn share_bits(bits: &Vec<u64>, alpha: u64, blind: &Vec<u64>) -> (r: (
    Vec<AuthAdditiveShare>,
    Vec<AuthAdditiveShare>,
))
    requires
        all_bits(bits@),
        fe_valid(alpha),
        blind@.len() == 2 * bits@.len(),
        forall|i: int| 0 <= i < blind@.len() ==> fe_valid(#[trigger] blind@[i]),
    ensures
        r.0@.len() == bits@.len(),
        r.1@.len() == bits@.len(),
        forall|i: int| 0 <= i < bits@.len() ==> auth_wf(#[trigger] r.0@[i]),
        forall|i: int| 0 <= i < bits@.len() ==> auth_wf(#[trigger] r.1@[i]),
        forall|i: int|
            0 <= i < bits@.len() ==> authenticates(
                #[trigger] r.0@[i],
                r.1@[i],
                alpha as int,
                bits@[i] as int,
            ),
        forall|i: int|
            0 <= i < bits@.len() ==> (#[trigger] r.0@[i]).val == blind@[2 * i] && r.0@[i].mac
                == blind@[2 * i + 1],
        forall|i: int|
            0 <= i < bits@.len() ==> (#[trigger] r.1@[i]).val as int == f_sub(
                bits@[i] as int,
                blind@[2 * i] as int,
            ) && r.1@[i].mac as int == f_sub(
                f_mul(alpha as int, bits@[i] as int),
                blind@[2 * i + 1] as int,
            ),
{
    let mut own: Vec<AuthAdditiveShare> = Vec::new();
    let mut peer: Vec<AuthAdditiveShare> = Vec::new();
    let blind_len = blind.len();
    let mut i: usize = 0;
    while i < bits.len()
        invariant
            i <= bits@.len(),
            all_bits(bits@),
            fe_valid(alpha),
            blind_len == blind@.len(),
            blind@.len() == 2 * bits@.len(),
            blind@.len() <= usize::MAX,
            forall|t: int| 0 <= t < blind@.len() ==> fe_valid(#[trigger] blind@[t]),
            own@.len() == i,
            peer@.len() == i,
            forall|t: int| 0 <= t < i ==> auth_wf(#[trigger] own@[t]),
            forall|t: int| 0 <= t < i ==> auth_wf(#[trigger] peer@[t]),
            forall|t: int|
                0 <= t < i ==> authenticates(
                    #[trigger] own@[t],
                    peer@[t],
                    alpha as int,
                    bits@[t] as int,
                ),
            forall|t: int|
                0 <= t < i ==> (#[trigger] own@[t]).val == blind@[2 * t] && own@[t].mac == blind@[2
                    * t + 1],
            forall|t: int|
                0 <= t < i ==> (#[trigger] peer@[t]).val as int == f_sub(
                    bits@[t] as int,
                    blind@[2 * t] as int,
                ) && peer@[t].mac as int == f_sub(
                    f_mul(alpha as int, bits@[t] as int),
                    blind@[2 * t + 1] as int,
                ),
        decreases bits@.len() - i,
    {
        let b = bits[i];
        proof {
            assert(bits@[i as int] <= 1);
        }
        let (first, second) = share_secret(b, alpha, blind[2 * i], blind[2 * i + 1]);
        own.push(first);
        peer.push(second);
        i = i + 1;
    }
    (own, peer)
}

/// The generic variant: decompose an authenticated value share into its
/// bits and re-share each bit under the key.  Returns the bits and the
/// two halves of every bit sharing.
pub fn input_auth_bits(value_share: u64, alpha: u64, blind: &Vec<u64>) -> (r: (
    Vec<u64>,
    Vec<AuthAdditiveShare>,
    Vec<AuthAdditiveShare>,
))
    requires
        fe_valid(value_share),
        fe_valid(alpha),
        blind@.len() == 2 * SHARE_BITS,
        forall|i: int| 0 <= i < blind@.len() ==> fe_valid(#[trigger] blind@[i]),
    ensures
        r.0@.len() == SHARE_BITS,
        all_bits(r.0@),
        bits_value(r.0@) == value_share,
        r.1@.len() == SHARE_BITS,
        r.2@.len() == SHARE_BITS,
        forall|i: int|
            0 <= i < SHARE_BITS ==> authenticates(
                #[trigger] r.1@[i],
                r.2@[i],
                alpha as int,
                r.0@[i] as int,
            ),
        forall|i: int|
            0 <= i < SHARE_BITS ==> (#[trigger] r.1@[i]).val == blind@[2 * i] && r.1@[i].mac
                == blind@[2 * i + 1],
        forall|i: int| 0 <= i < SHARE_BITS ==> auth_wf(#[trigger] r.1@[i]),
        forall|i: int| 0 <= i < SHARE_BITS ==> auth_wf(#[trigger] r.2@[i]),
{
    let bits = bit_decompose(value_share);
    let (own, peer) = share_bits(&bits, alpha, blind);
    (bits, own, peer)
}

/// The optimised variant: the MAC ciphertext is applied directly to
/// the bit vector, tagging every bit in one homomorphic pass; the
/// blinding pairs then complete the same sharing shape.
pub fn optimized_input(bits: &Vec<u64>, alpha: u64, blind: &Vec<u64>) -> (r: (
    Vec<AuthAdditiveShare>,
    Vec<AuthAdditiveShare>,
))
    requires
        all_bits(bits@),
        fe_valid(alpha),
        blind@.len() == 2 * bits@.len(),
        forall|i: int| 0 <= i < blind@.len() ==> fe_valid(#[trigger] blind@[i]),
    ensures
        r.0@.len() == bits@.len(),
        r.1@.len() == bits@.len(),
        forall|i: int| 0 <= i < bits@.len() ==> auth_wf(#[trigger] r.0@[i]),
        forall|i: int| 0 <= i < bits@.len() ==> auth_wf(#[trigger] r.1@[i]),
        forall|i: int|
            0 <= i < bits@.len() ==> authenticates(
                #[trigger] r.0@[i],
                r.1@[i],
                alpha as int,
                bits@[i] as int,
            ),
        forall|i: int|
            0 <= i < bits@.len() ==> (#[trigger] r.0@[i]).val == blind@[2 * i] && r.0@[i].mac
                == blind@[2 * i + 1],
        forall|i: int|
            0 <= i < bits@.len() ==> (#[trigger] r.1@[i]).val as int == f_sub(
                bits@[i] as int,
                blind@[2 * i] as int,
            ) && r.1@[i].mac as int == f_sub(
                f_mul(alpha as int, bits@[i] as int),
                blind@[2 * i + 1] as int,
            ),
{
    // One pass tags every bit under the key.
    let mut tags: Vec<u64> = Vec::new();
    let mut i: usize = 0;
    while i < bits.len()
        invariant
            i <= bits@.len(),
            all_bits(bits@),
            fe_valid(alpha),
            tags@.len() == i,
            forall|t: int|
                0 <= t < i ==> #[trigger] tags@[t] as int == f_mul(alpha as int, bits@[t] as int),
            forall|t: int| 0 <= t < i ==> fe_valid(#[trigger] tags@[t]),
        decreases bits@.len() - i,
    {
        proof {
            assert(bits@[i as int] <= 1);
        }
        tags.push(fe_mul(alpha, bits[i]));
        i = i + 1;
    }
    // The blinding pairs complete the sharing.
    let mut own: Vec<AuthAdditiveShare> = Vec::new();
    let mut peer: Vec<AuthAdditiveShare> = Vec::new();
    let blind_len = blind.len();
    let mut i: usize = 0;
    while i < bits.len()
        invariant
            i <= bits@.len(),
            all_bits(bits@),
            fe_valid(alpha),
            blind_len == blind@.len(),
            blind@.len() == 2 * bits@.len(),
            blind@.len() <= usize::MAX,
            forall|t: int| 0 <= t < blind@.len() ==> fe_valid(#[trigger] blind@[t]),
            tags@.len() == bits@.len(),
            forall|t: int|
                0 <= t < tags@.len() ==> #[trigger] tags@[t] as int == f_mul(
                    alpha as int,
                    bits@[t] as int,
                ),
            forall|t: int| 0 <= t < tags@.len() ==> fe_valid(#[trigger] tags@[t]),
            own@.len() == i,
            peer@.len() == i,
            forall|t: int| 0 <= t < i ==> auth_wf(#[trigger] own@[t]),
            forall|t: int| 0 <= t < i ==> auth_wf(#[trigger] peer@[t]),
            forall|t: int|
                0 <= t < i ==> authenticates(
                    #[trigger] own@[t],
                    peer@[t],
                    alpha as int,
                    bits@[t] as int,
                ),
            forall|t: int|
                0 <= t < i ==> (#[trigger] own@[t]).val == blind@[2 * t] && own@[t].mac == blind@[2
                    * t + 1],
            forall|t: int|
                0 <= t < i ==> (#[trigger] peer@[t]).val as int == f_sub(
                    bits@[t] as int,
                    blind@[2 * t] as int,
                ) && peer@[t].mac as int == f_sub(
                    f_mul(alpha as int, bits@[t] as int),
                    blind@[2 * t + 1] as int,
                ),
        decreases bits@.len() - i,
    {
        proof {
            assert(bits@[i as int] <= 1);
        }
        let rv = blind[2 * i];
        let rt = blind[2 * i + 1];
        let first = AuthAdditiveShare { val: rv, mac: rt };
        let second = AuthAdditiveShare { val: fe_sub(bits[i], rv), mac: fe_sub(tags[i], rt) };
        proof {
            crate::field::lemma_f_add_sub_cancel(bits@[i as int] as int, rv as int);
            crate::field::lemma_f_add_sub_cancel(tags@[i as int] as int, rt as int);
            crate::field::lemma_f_red_identity(bits@[i as int] as int);
        }
        own.push(first);
        peer.push(second);
        i = i + 1;
    }
    (own, peer)
}

/// The two variants agree: over the same bits, key and blinding tape,
/// the generic private-input path and the optimised MAC-ciphertext
/// path produce the same bit sharings, element for element.
pub proof fn lemma_input_auth_variants_agree(
    bits: Seq<u64>,
    alpha: int,
    blind: Seq<u64>,
    own1: Seq<AuthAdditiveShare>,
    peer1: Seq<AuthAdditiveShare>,
    own2: Seq<AuthAdditiveShare>,
    peer2: Seq<AuthAdditiveShare>,
)
    requires
        own1.len() == bits.len() && peer1.len() == bits.len(),
        own2.len() == bits.len() && peer2.len() == bits.len(),
        // Both variants blind with the same tape cells...
        forall|i: int|
            0 <= i < bits.len() ==> (#[trigger] own1[i]).val == blind[2 * i] && own1[i].mac
                == blind[2 * i + 1],
        forall|i: int|
            0 <= i < bits.len() ==> (#[trigger] own2[i]).val == blind[2 * i] && own2[i].mac
                == blind[2 * i + 1],
        // ...and both complete the sharing of the same bit under the
        // same key, which pins the peer half.
        forall|i: int|
            0 <= i < bits.len() ==> (#[trigger] peer1[i]).val as int == f_sub(
                bits[i] as int,
                blind[2 * i] as int,
            ) && peer1[i].mac as int == f_sub(
                f_mul(alpha, bits[i] as int),
                blind[2 * i + 1] as int,
            ),
        forall|i: int|
            0 <= i < bits.len() ==> (#[trigger] peer2[i]).val as int == f_sub(
                bits[i] as int,
                blind[2 * i] as int,
            ) && peer2[i].mac as int == f_sub(
                f_mul(alpha, bits[i] as int),
                blind[2 * i + 1] as int,
            ),
    ensures
        own1 == own2,
        peer1 == peer2,
{
    assert forall|i: int| 0 <= i < bits.len() implies #[trigger] own1[i] == own2[i] && peer1[i]
        == peer2[i] by {
        assert(own1[i].val == own2[i].val && own1[i].mac == own2[i].mac);
        assert(peer1[i].val == peer2[i].val && peer1[i].mac == peer2[i].mac);
    };
    assert(own1 =~= own2);
    assert(peer1 =~= peer2);
}

/// The MAC-check round: open every bit sharing and verify its tag;
/// accepts exactly when all tags verify, returning the joint bits.
pub fn mac_check_bits(
    own: &Vec<AuthAdditiveShare>,
    peer: &Vec<AuthAdditiveShare>,
    alpha: u64,
) -> (r: Result<Vec<u64>, ErrorKind>)
    requires
        own@.len() == peer@.len(),
        forall|i: int| 0 <= i < own@.len() ==> auth_wf(#[trigger] own@[i]),
        forall|i: int| 0 <= i < peer@.len() ==> auth_wf(#[trigger] peer@[i]),
        fe_valid(alpha),
    ensures
        match r {
            Ok(v) => {
                &&& v@.len() == own@.len()
                &&& forall|i: int|
                    0 <= i < v@.len() ==> #[trigger] v@[i] as int == crate::share::combined_value(
                        own@[i],
                        peer@[i],
                    )
                &&& forall|i: int|
                    0 <= i < v@.len() ==> crate::share::combined_mac(#[trigger] own@[i], peer@[i])
                        == f_mul(alpha as int, crate::share::combined_value(own@[i], peer@[i]))
            },
            Err(e) => {
                &&& e == ErrorKind::MacFailure
                &&& exists|i: int|
                    0 <= i < own@.len() && crate::share::combined_mac(
                        #[trigger] own@[i],
                        peer@[i],
                    ) != f_mul(alpha as int, crate::share::combined_value(own@[i], peer@[i]))
            },
        },
{
    let mut out: Vec<u64> = Vec::new();
    let mut i: usize = 0;
    while i < own.len()
        invariant
            i <= own@.len(),
            own@.len() == peer@.len(),
            forall|t: int| 0 <= t < own@.len() ==> auth_wf(#[trigger] own@[t]),
            forall|t: int| 0 <= t < peer@.len() ==> auth_wf(#[trigger] peer@[t]),
            fe_valid(alpha),
            out@.len() == i,
            forall|t: int|
                0 <= t < i ==> #[trigger] out@[t] as int == crate::share::combined_value(
                    own@[t],
                    peer@[t],
                ),
            forall|t: int|
                0 <= t < i ==> crate::share::combined_mac(#[trigger] own@[t], peer@[t]) == f_mul(
                    alpha as int,
                    crate::share::combined_value(own@[t], peer@[t]),
                ),
        decreases own@.len() - i,
    {
        match open_authenticated(own[i], peer[i], alpha) {
            Ok(v) => {
                out.push(v);
            },
            Err(_) => {
                return Err(ErrorKind::MacFailure);
            },
        }
        i = i + 1;
    }
    Ok(out)
}

} // verus!
