//! Conditional disclosure of secrets.
//!
//! The evaluator-input labels of the next garbled layer are released
//! only if the authenticated shares emerging from the linear phase are
//! consistent with the bit decomposition the client claims: the two
//! value halves must sum to the decomposed value and the MAC halves
//! must tag it under the session key.  A mismatch aborts the session
//! with a MAC failure.

use crate::error::ErrorKind;
use crate::field::{f_add, f_mul, fe_add, fe_mul, fe_valid, lemma_f_red_identity, FIELD_MODULUS};
use crate::gc::LabelPair;
use vstd::arithmetic::power2::pow2;
use vstd::prelude::*;

verus! {

/// The number of bits a share decomposes into: `ceil(log2 p)`.
pub const SHARE_BITS: usize = 63;

/// The value of a little-endian bit sequence.
pub open spec fn bits_value(bits: Seq<u64>) -> int
    decreases bits.len(),
{
    if bits.len() == 0 {
        0
    } else {
        bits[0] + 2 * bits_value(bits.skip(1))
    }
}

pub open spec fn all_bits(bits: Seq<u64>) -> bool {
    forall|i: int| 0 <= i < bits.len() ==> #[trigger] bits[i] <= 1
}

/// Appending a bit adds its positional weight.
pub proof fn lemma_bits_value_push(bits: Seq<u64>, b: u64)
    ensures
        bits_value(bits.push(b)) == bits_value(bits) + pow2(bits.len()) * b,
    decreases bits.len(),
{
    vstd::arithmetic::power2::lemma_pow2_pos(bits.len());
    vstd::arithmetic::power2::lemma2_to64();
    if bits.len() == 0 {
        let p = bits.push(b);
        assert(p.len() == 1);
        assert(p[0] == b);
        assert(p.skip(1) =~= Seq::<u64>::empty());
        assert(bits_value(p.skip(1)) == 0);
        assert(bits_value(p) == p[0] + 2 * bits_value(p.skip(1)));
    } else {
        assert(bits.push(b).skip(1) =~= bits.skip(1).push(b));
        lemma_bits_value_push(bits.skip(1), b);
        vstd::arithmetic::power2::lemma_pow2_unfold(bits.len());
        assert(2 * (bits_value(bits.skip(1)) + pow2((bits.len() - 1) as nat) * b) == 2
            * bits_value(bits.skip(1)) + pow2(bits.len()) * b) by (nonlinear_arith)
            requires
                pow2(bits.len()) == 2 * pow2((bits.len() - 1) as nat),
        ;
    }
}

/// A bit sequence's value is bounded by its positional range.
pub proof fn lemma_bits_value_bound(bits: Seq<u64>)
    requires
        all_bits(bits),
    ensures
        0 <= bits_value(bits) < pow2(bits.len()),
    decreases bits.len(),
{
    vstd::arithmetic::power2::lemma_pow2_pos(bits.len());
    if bits.len() == 0 {
    } else {
        assert(bits.skip(1).len() == bits.len() - 1);
        lemma_bits_value_bound(bits.skip(1));
        vstd::arithmetic::power2::lemma_pow2_unfold(bits.len());
    }
}

/// The `k`-th little-endian bit of a value.
pub open spec fn spec_bit(x: int, k: int) -> int {
    (x / pow2(k as nat) as int) % 2
}

/// A bounded bit sequence is the unique binary writing of its value:
/// each of its bits is the corresponding positional bit of the value.
pub proof fn lemma_bits_value_unique(bits: Seq<u64>, k: int)
    requires
        all_bits(bits),
        0 <= k < bits.len(),
    ensures
        bits[k] == spec_bit(bits_value(bits), k),
    decreases k,
{
    vstd::arithmetic::power2::lemma_pow2_pos(k as nat);
    let x = bits_value(bits);
    lemma_bits_value_bound(bits);
    if k == 0 {
        vstd::arithmetic::power2::lemma2_to64();
        // x == bits[0] + 2 * rest, so x % 2 == bits[0].
        lemma_bits_value_bound(bits.skip(1));
        vstd::arithmetic::div_mod::lemma_fundamental_div_mod_converse_mod(
            x,
            2,
            bits_value(bits.skip(1)),
            bits[0] as int,
        );
        assert(x / pow2(0) as int == x) by {
            vstd::arithmetic::power2::lemma2_to64();
        }
    } else {
        let rest = bits.skip(1);
        lemma_bits_value_unique(rest, k - 1);
        lemma_bits_value_bound(rest);
        // x / 2 == bits_value(rest), and the k-th bit of x is the
        // (k-1)-th bit of the halved value.
        vstd::arithmetic::div_mod::lemma_fundamental_div_mod_converse_div(
            x,
            2,
            bits_value(rest),
            bits[0] as int,
        );
        vstd::arithmetic::power2::lemma_pow2_unfold(k as nat);
        vstd::arithmetic::div_mod::lemma_div_denominator(
            x,
            2,
            pow2((k - 1) as nat) as int,
        );
        assert(x / pow2(k as nat) as int == (x / 2) / pow2((k - 1) as nat) as int);
        assert(bits[k] == rest[k - 1]);
    }
}

/// Decompose a field element into its `SHARE_BITS` little-endian bits.
pub fn bit_decompose(x: u64) -> (r: Vec<u64>)
    requires
        fe_valid(x),
    ensures
        r@.len() == SHARE_BITS,
        all_bits(r@),
        bits_value(r@) == x,
{
    let mut bits: Vec<u64> = Vec::new();
    let mut cur: u64 = x;
    let mut k: usize = 0;
    proof {
        vstd::arithmetic::power2::lemma2_to64();
        vstd::arithmetic::power2::lemma2_to64_rest();
    }
    while k < SHARE_BITS
        invariant
            k <= SHARE_BITS,
            bits@.len() == k,
            all_bits(bits@),
            x == bits_value(bits@) + pow2(k as nat) * cur,
            cur < pow2((63 - k) as nat),
        decreases SHARE_BITS - k,
    {
        let b = cur % 2;
        let next = cur / 2;
        proof {
            lemma_bits_value_push(bits@, b);
            vstd::arithmetic::div_mod::lemma_fundamental_div_mod(cur as int, 2);
            vstd::arithmetic::power2::lemma_pow2_unfold((63 - k) as nat);
            vstd::arithmetic::power2::lemma_pow2_adds(k as nat, 1);
            vstd::arithmetic::power2::lemma2_to64();
            assert(pow2(k as nat) * cur == pow2(k as nat) * b + pow2((k + 1) as nat) * next)
                by (nonlinear_arith)
                requires
                    cur == 2 * next + b,
                    pow2((k + 1) as nat) == pow2(k as nat) * 2,
            ;
        }
        bits.push(b);
        cur = next;
        k = k + 1;
    }
    proof {
        vstd::arithmetic::power2::lemma2_to64_rest();
        assert(cur == 0);
    }
    bits
}

/// Recompose a little-endian bit vector into the field element it
/// denotes.
pub fn bits_recompose(bits: &Vec<u64>) -> (r: u64)
    requires
        bits@.len() == SHARE_BITS,
        all_bits(bits@),
    ensures
        r == bits_value(bits@),
        r < 0x8000000000000000,
{
    let mut acc: u64 = 0;
    let mut k: usize = SHARE_BITS;
    proof {
        assert(bits@.skip(63) =~= Seq::<u64>::empty());
        vstd::arithmetic::power2::lemma2_to64();
        vstd::arithmetic::power2::lemma2_to64_rest();
    }
    while k > 0
        invariant
            k <= SHARE_BITS,
            bits@.len() == SHARE_BITS,
            all_bits(bits@),
            acc == bits_value(bits@.skip(k as int)),
            acc < pow2((63 - k) as nat),
        decreases k,
    {
        proof {
            lemma_bits_value_bound(bits@.skip(k as int));
            vstd::arithmetic::power2::lemma_pow2_unfold((63 - k + 1) as nat);
            assert(bits@.skip(k as int - 1).skip(1) =~= bits@.skip(k as int));
            assert(bits@.skip(k as int - 1)[0] == bits@[k as int - 1]);
            vstd::arithmetic::power2::lemma2_to64_rest();
            if 63 - k < 62 {
                vstd::arithmetic::power2::lemma_pow2_strictly_increases((63 - k) as nat, 62);
            }
        }
        k = k - 1;
        acc = 2 * acc + bits[k];
    }
    proof {
        assert(bits@.skip(0) =~= bits@);
        lemma_bits_value_bound(bits@);
        vstd::arithmetic::power2::lemma2_to64_rest();
    }
    acc
}

/// Pick one label per bit: the zero label for a zero bit, the one label
/// for a one bit.
pub fn select_labels(bits: &Vec<u64>, labels: &Vec<LabelPair>) -> (r: Vec<u128>)
    requires
        bits@.len() == labels@.len(),
        all_bits(bits@),
    ensures
        r@.len() == bits@.len(),
        forall|i: int|
            0 <= i < r@.len() ==> #[trigger] r@[i] == (if bits@[i] == 1 {
                labels@[i].one
            } else {
                labels@[i].zero
            }),
{
    let mut out: Vec<u128> = Vec::new();
    let mut i: usize = 0;
    while i < bits.len()
        invariant
            i <= bits@.len(),
            bits@.len() == labels@.len(),
            out@.len() == i,
            forall|t: int|
                0 <= t < i ==> #[trigger] out@[t] == (if bits@[t] == 1 {
                    labels@[t].one
                } else {
                    labels@[t].zero
                }),
        decreases bits@.len() - i,
    {
        if bits[i] == 1 {
            out.push(labels[i].one);
        } else {
            out.push(labels[i].zero);
        }
        i = i + 1;
    }
    out
}

/// The server's side of the disclosure for one authenticated share: the
/// labels for the client's claimed bits are released exactly when the
/// two value halves sum to the decomposed value and the MAC halves tag
/// it under the session key; otherwise the session dies with a MAC
/// failure.
pub fn server_cds_disclose(
    client_share: u64,
    server_share: u64,
    client_mac: u64,
    server_mac: u64,
    alpha: u64,
    bits: &Vec<u64>,
    labels: &Vec<LabelPair>,
) -> (r: Result<Vec<u128>, ErrorKind>)
    requires
        fe_valid(client_share),
        fe_valid(server_share),
        fe_valid(client_mac),
        fe_valid(server_mac),
        fe_valid(alpha),
        bits@.len() == SHARE_BITS,
        labels@.len() == SHARE_BITS,
        all_bits(bits@),
    ensures
        match r {
            Ok(v) => {
                &&& f_add(client_share as int, server_share as int) == bits_value(bits@)
                &&& f_add(client_mac as int, server_mac as int) == f_mul(
                    alpha as int,
                    bits_value(bits@),
                )
                &&& v@.len() == SHARE_BITS
                &&& forall|i: int|
                    0 <= i < v@.len() ==> #[trigger] v@[i] == (if bits@[i] == 1 {
                        labels@[i].one
                    } else {
                        labels@[i].zero
                    })
            },
            Err(e) => {
                &&& e == ErrorKind::MacFailure
                &&& (f_add(client_share as int, server_share as int) != bits_value(bits@) || f_add(
                    client_mac as int,
                    server_mac as int,
                ) != f_mul(alpha as int, bits_value(bits@)))
            },
        },
{
    let claimed = bits_recompose(bits);
    let value = fe_add(client_share, server_share);
    let mac = fe_add(client_mac, server_mac);
    if value != claimed {
        return Err(ErrorKind::MacFailure);
    }
    let tag = fe_mul(alpha, claimed);
    proof {
        lemma_f_red_identity(claimed as int);
        crate::field::lemma_f_mul_red(alpha as int, bits_value(bits@));
    }
    if mac != tag {
        return Err(ErrorKind::MacFailure);
    }
    Ok(select_labels(bits, labels))
}

/// The server's disclosure for one whole non-linear layer: one
/// authenticated share per activation, the client's claimed bits and
/// the label pairs flattened in activation-major order.  Labels are
/// released for every activation exactly when every claimed
/// decomposition is consistent under the MAC; the first inconsistency
/// aborts with a MAC failure.  On success the released labels follow
/// the true binary writing of each reconstructed value.
pub fn server_cds_layer(
    client_shares: &Vec<u64>,
    server_shares: &Vec<u64>,
    client_macs: &Vec<u64>,
    server_macs: &Vec<u64>,
    alpha: u64,
    bits: &Vec<u64>,
    labels: &Vec<LabelPair>,
) -> (r: Result<Vec<u128>, ErrorKind>)
    requires
        client_shares@.len() == server_shares@.len(),
        client_shares@.len() == client_macs@.len(),
        client_shares@.len() == server_macs@.len(),
        bits@.len() == SHARE_BITS * client_shares@.len(),
        labels@.len() == SHARE_BITS * client_shares@.len(),
        forall|i: int| 0 <= i < client_shares@.len() ==> fe_valid(#[trigger] client_shares@[i]),
        forall|i: int| 0 <= i < server_shares@.len() ==> fe_valid(#[trigger] server_shares@[i]),
        forall|i: int| 0 <= i < client_macs@.len() ==> fe_valid(#[trigger] client_macs@[i]),
        forall|i: int| 0 <= i < server_macs@.len() ==> fe_valid(#[trigger] server_macs@[i]),
        fe_valid(alpha),
        all_bits(bits@),
    ensures
        match r {
            Ok(sel) => {
                &&& sel@.len() == SHARE_BITS * client_shares@.len()
                &&& forall|j: int, k: int|
                    0 <= j < client_shares@.len() && 0 <= k < SHARE_BITS ==> #[trigger] sel@[63 * j
                        + k] == (if spec_bit(
                        f_add(client_shares@[j] as int, server_shares@[j] as int),
                        k,
                    ) == 1 {
                        labels@[63 * j + k].one
                    } else {
                        labels@[63 * j + k].zero
                    })
            },
            Err(e) => {
                &&& e == ErrorKind::MacFailure
                &&& exists|j: int|
                    0 <= j < client_shares@.len() && (f_add(
                        #[trigger] client_shares@[j] as int,
                        server_shares@[j] as int,
                    ) != bits_value(bits@.subrange(63 * j, 63 * j + 63)) || f_add(
                        client_macs@[j] as int,
                        server_macs@[j] as int,
                    ) != f_mul(
                        alpha as int,
                        bits_value(bits@.subrange(63 * j, 63 * j + 63)),
                    ))
            },
        },
{
    let n = client_shares.len();
    let bits_len = bits.len();
    proof {
        assert(bits@.len() <= usize::MAX);
    }
    let mut sel: Vec<u128> = Vec::new();
    let mut j: usize = 0;
    while j < n
        invariant
            j <= n,
            n == client_shares@.len(),
            client_shares@.len() == server_shares@.len(),
            client_shares@.len() == client_macs@.len(),
            client_shares@.len() == server_macs@.len(),
            bits@.len() == SHARE_BITS * n,
            labels@.len() == SHARE_BITS * n,
            bits@.len() <= usize::MAX,
            forall|i: int| 0 <= i < client_shares@.len() ==> fe_valid(
                #[trigger] client_shares@[i],
            ),
            forall|i: int| 0 <= i < server_shares@.len() ==> fe_valid(
                #[trigger] server_shares@[i],
            ),
            forall|i: int| 0 <= i < client_macs@.len() ==> fe_valid(#[trigger] client_macs@[i]),
            forall|i: int| 0 <= i < server_macs@.len() ==> fe_valid(#[trigger] server_macs@[i]),
            fe_valid(alpha),
            all_bits(bits@),
            sel@.len() == SHARE_BITS * j,
            forall|t: int, k: int|
                0 <= t < j && 0 <= k < SHARE_BITS ==> #[trigger] sel@[63 * t + k] == (if spec_bit(
                    f_add(client_shares@[t] as int, server_shares@[t] as int),
                    k,
                ) == 1 {
                    labels@[63 * t + k].one
                } else {
                    labels@[63 * t + k].zero
                }),
        decreases n - j,
    {
        // Slice out this activation's claimed bits and label pairs.
        let mut my_bits: Vec<u64> = Vec::new();
        let mut my_labels: Vec<LabelPair> = Vec::new();
        let mut k: usize = 0;
        while k < SHARE_BITS
            invariant
                k <= SHARE_BITS,
                j < n,
                bits@.len() == SHARE_BITS * n,
                labels@.len() == SHARE_BITS * n,
                bits@.len() <= usize::MAX,
                all_bits(bits@),
                my_bits@.len() == k,
                my_labels@.len() == k,
                forall|t: int| 0 <= t < k ==> #[trigger] my_bits@[t] == bits@[63 * (j as int) + t],
                forall|t: int|
                    0 <= t < k ==> #[trigger] my_labels@[t] == labels@[63 * (j as int) + t],
                all_bits(my_bits@),
            decreases SHARE_BITS - k,
        {
            proof {
                assert(63 * (j as int) + k < 63 * (n as int)) by (nonlinear_arith)
                    requires
                        0 <= (j as int) < (n as int),
                        0 <= k < 63,
                ;
            }
            my_bits.push(bits[63 * j + k]);
            my_labels.push(labels[63 * j + k]);
            k = k + 1;
        }
        let disclosed = match server_cds_disclose(
            client_shares[j],
            server_shares[j],
            client_macs[j],
            server_macs[j],
            alpha,
            &my_bits,
            &my_labels,
        ) {
            Ok(d) => d,
            Err(_) => {
                proof {
                    assert(my_bits@ =~= bits@.subrange(63 * (j as int), 63 * (j as int) + 63));
                }
                return Err(ErrorKind::MacFailure);
            },
        };
        proof {
            let v = f_add(client_shares@[j as int] as int, server_shares@[j as int] as int);
            assert forall|k2: int| 0 <= k2 < SHARE_BITS implies #[trigger] disclosed@[k2] == (
            if spec_bit(v, k2) == 1 {
                labels@[63 * (j as int) + k2].one
            } else {
                labels@[63 * (j as int) + k2].zero
            }) by {
                lemma_bits_value_unique(my_bits@, k2);
            };
        }
        let mut k: usize = 0;
        while k < disclosed.len()
            invariant
                k <= disclosed@.len(),
                disclosed@.len() == SHARE_BITS,
                sel@.len() == SHARE_BITS * j + k,
                j < n,
                sel@.len() <= usize::MAX,
                forall|t: int|
                    0 <= t < k ==> #[trigger] sel@[63 * (j as int) + t] == disclosed@[t],
                forall|t: int, k2: int|
                    0 <= t < j && 0 <= k2 < SHARE_BITS ==> #[trigger] sel@[63 * t + k2]
                        == (if spec_bit(
                        f_add(client_shares@[t] as int, server_shares@[t] as int),
                        k2,
                    ) == 1 {
                        labels@[63 * t + k2].one
                    } else {
                        labels@[63 * t + k2].zero
                    }),
                client_shares@.len() == server_shares@.len(),
                n == client_shares@.len(),
                labels@.len() == SHARE_BITS * n,
                labels@.len() <= usize::MAX,
                forall|k2: int|
                    0 <= k2 < SHARE_BITS ==> #[trigger] disclosed@[k2] == (if spec_bit(
                        f_add(client_shares@[j as int] as int, server_shares@[j as int] as int),
                        k2,
                    ) == 1 {
                        labels@[63 * (j as int) + k2].one
                    } else {
                        labels@[63 * (j as int) + k2].zero
                    }),
            decreases disclosed@.len() - k,
        {
            proof {
                assert(63 * (j as int) + k + 1 <= 63 * (n as int)) by (nonlinear_arith)
                    requires
                        0 <= (j as int) < (n as int),
                        0 <= k < 63,
                ;
            }
            sel.push(disclosed[k]);
            k = k + 1;
        }
        j = j + 1;
    }
    Ok(sel)
}

} // verus!
