//! Uniform sampling of field elements from a seeded ChaCha stream.
//!
//! Randomizers, MAC keys and blinding pairs are all drawn here.  The
//! stream cipher itself comes from the `rand_chacha` crate; the library
//! only trusts it to hand back 64-bit draws, and performs the rejection
//! step that makes a draw a canonical field element in verified code.

use crate::field::{fe_valid, FIELD_MODULUS};
use vstd::prelude::*;

verus! {

#[verifier::external_type_specification]
#[verifier::external_body]
pub struct ExChaCha20Rng(rand_chacha::ChaCha20Rng);

/// Relies on `rand_chacha::ChaCha20Rng::from_seed` (via `rand`'s
/// `SeedableRng`): constructs the ChaCha20 stream for a 32-byte seed.
/// Nothing is claimed about the state; determinism across equal seeds is
/// exercised by the test suite, not assumed by any proof.
#[verifier::external_body]
pub fn chacha_from_seed(seed: &[u8; 32]) -> rand_chacha::ChaCha20Rng {
    <rand_chacha::ChaCha20Rng as rand::SeedableRng>::from_seed(*seed)
}

/// Relies on `rand`'s `RngCore::next_u64` for `ChaCha20Rng`: the next
/// 64-bit word of the stream.  Nothing is promised of its value.
#[verifier::external_body]
fn rng_next_u64(rng: &mut rand_chacha::ChaCha20Rng) -> u64 {
    rand::RngCore::next_u64(rng)
}

/// Draw one uniform field element by rejection: 64-bit words are drawn
/// until one falls below the modulus.  Each draw is accepted with
/// probability near one half.  After a fixed number of rejected draws
/// (an event of probability below `2^-64`) the last draw is reduced
/// instead, keeping the sampler total; the contract only promises
/// canonicity of the result.
pub fn sample_field_element(rng: &mut rand_chacha::ChaCha20Rng) -> (r: u64)
    ensures
        fe_valid(r),
{
    let mut tries: usize = 0;
    while tries < 64
        invariant
            tries <= 64,
        decreases 64 - tries,
    {
        let x = rng_next_u64(rng);
        if x < FIELD_MODULUS {
            return x;
        }
        tries = tries + 1;
    }
    let x = rng_next_u64(rng);
    proof {
        vstd::arithmetic::div_mod::lemma_mod_bound(x as int, FIELD_MODULUS as int);
    }
    x % FIELD_MODULUS
}

/// Draw a vector of `n` uniform field elements.
pub fn sample_field_vec(rng: &mut rand_chacha::ChaCha20Rng, n: usize) -> (r: Vec<u64>)
    ensures
        r@.len() == n,
        forall|i: int| 0 <= i < n ==> fe_valid(#[trigger] r@[i]),
{
    let mut out: Vec<u64> = Vec::new();
    let mut k: usize = 0;
    while k < n
        invariant
            k <= n,
            out@.len() == k,
            forall|i: int| 0 <= i < k ==> fe_valid(#[trigger] out@[i]),
        decreases n - k,
    {
        let x = sample_field_element(rng);
        out.push(x);
        k = k + 1;
    }
    out
}

} // verus!
