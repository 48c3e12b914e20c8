//! The garbling engine model: truncated-ReLU circuits, their chunked
//! delivery, and the wire-label bookkeeping.
//!
//! One circuit is garbled per activation.  It computes
//! `ReLU(x) - r_out` with the fixed-point truncation folded in, where
//! `x` is reconstructed inside the circuit from the two parties' share
//! inputs and `r_out` is a fresh server output randomizer.  Tables are
//! shipped to the evaluator in chunks of [`GC_CHUNK_SIZE`] circuits to
//! bound peak memory; evaluator-input labels travel separately through
//! the consistency sub-protocol, except the trailing carry bit of each
//! per-element group, which is excluded from it.

use crate::field::{f_add, f_sub, fe_add, fe_sub, fe_valid, FIELD_MODULUS, MODULUS_BITS};
use crate::fixed::{relu_trunc, relu_trunc_exec};
use vstd::prelude::*;

verus! {

/// Circuits per delivery message; the last chunk may be short.
pub const GC_CHUNK_SIZE: usize = 8192;

/// Evaluator input wires per activation: one per bit of the field
/// element plus a trailing carry bit.
pub const EVALUATOR_INPUTS_PER_RELU: usize = 64;

/// Garbler input wires per activation: the garbler's share bits and the
/// output randomizer bits.
pub const GARBLER_INPUTS_PER_RELU: usize = 126;

/// The functional content of one garbled truncated-ReLU circuit: the
/// output randomizer baked into its output gates.  The encrypted tables
/// and wire labels that carry this function are opaque bytes on the
/// wire.
#[derive(Clone, Copy, PartialEq, Eq, Structural, Debug)]
pub struct GarbledReLU {
    pub r_out: u64,
}

/// What evaluating one circuit yields on the two share inputs: the
/// truncated ReLU of the reconstructed value, re-blinded by the output
/// randomizer.
pub open spec fn spec_gc_eval(gc: GarbledReLU, server_share: int, client_share: int) -> int {
    f_sub(relu_trunc(f_add(server_share, client_share)), gc.r_out as int)
}

/// Garble one batch of truncated-ReLU circuits, one per activation,
/// drawing each output randomizer from the tape in order.
pub fn garble_relu_batch(tape: &Vec<u64>, num: usize) -> (r: Vec<GarbledReLU>)
    requires
        tape@.len() == num,
        forall|i: int| 0 <= i < tape@.len() ==> fe_valid(#[trigger] tape@[i]),
    ensures
        r@.len() == num,
        forall|i: int| 0 <= i < num ==> (#[trigger] r@[i]).r_out == tape@[i],
        forall|i: int| 0 <= i < num ==> fe_valid((#[trigger] r@[i]).r_out),
{
    let mut out: Vec<GarbledReLU> = Vec::new();
    let mut i: usize = 0;
    while i < num
        invariant
            i <= num,
            tape@.len() == num,
            forall|t: int| 0 <= t < tape@.len() ==> fe_valid(#[trigger] tape@[t]),
            out@.len() == i,
            forall|t: int| 0 <= t < i ==> (#[trigger] out@[t]).r_out == tape@[t],
        decreases num - i,
    {
        out.push(GarbledReLU { r_out: tape[i] });
        i = i + 1;
    }
    out
}

/// Evaluate one garbled circuit on the two share inputs.
pub fn gc_eval(gc: &GarbledReLU, server_share: u64, client_share: u64) -> (r: u64)
    requires
        fe_valid(gc.r_out),
        fe_valid(server_share),
        fe_valid(client_share),
    ensures
        fe_valid(r),
        r as int == spec_gc_eval(*gc, server_share as int, client_share as int),
{
    let x = fe_add(server_share, client_share);
    let y = relu_trunc_exec(x);
    fe_sub(y, gc.r_out)
}

/// The chunking of a sequence into pieces of `k`, last piece short.
pub open spec fn spec_chunk<T>(s: Seq<T>, k: int) -> Seq<Seq<T>>
    decreases s.len(),
    when k >= 1
{
    if s.len() == 0 {
        Seq::empty()
    } else if s.len() <= k {
        seq![s]
    } else {
        seq![s.take(k)] + spec_chunk(s.skip(k), k)
    }
}

/// Concatenation of a sequence of chunks.
pub open spec fn spec_concat<T>(ss: Seq<Seq<T>>) -> Seq<T>
    decreases ss.len(),
{
    if ss.len() == 0 {
        Seq::empty()
    } else {
        ss[0] + spec_concat(ss.skip(1))
    }
}

/// Chunked delivery is lossless: concatenating the chunks of any
/// sequence, for any chunk size, restores the sequence exactly.  In
/// particular any chunk size that divides the activation count produces
/// the identical concatenated array.
pub proof fn lemma_chunk_concat<T>(s: Seq<T>, k: int)
    requires
        k >= 1,
    ensures
        spec_concat(spec_chunk(s, k)) == s,
    decreases s.len(),
{
    if s.len() == 0 {
        assert(spec_concat(spec_chunk(s, k)) =~= s);
    } else if s.len() <= k {
        let cs = spec_chunk(s, k);
        assert(cs == seq![s]);
        assert(cs[0] == s);
        assert(cs.skip(1) =~= Seq::<Seq<T>>::empty());
        assert(spec_concat(cs) == s + spec_concat(cs.skip(1)));
        assert(s + Seq::<T>::empty() =~= s);
    } else {
        lemma_chunk_concat(s.skip(k), k);
        let cs = spec_chunk(s, k);
        assert(cs.skip(1) =~= spec_chunk(s.skip(k), k));
        assert(spec_concat(cs) =~= s.take(k) + s.skip(k));
        assert(s.take(k) + s.skip(k) =~= s);
    }
}

/// Every chunk but the last is full, and none is empty or oversized.
pub proof fn lemma_chunk_sizes<T>(s: Seq<T>, k: int)
    requires
        k >= 1,
    ensures
        forall|i: int|
            0 <= i < spec_chunk(s, k).len() - 1 ==> (#[trigger] spec_chunk(s, k)[i]).len() == k,
        forall|i: int|
            0 <= i < spec_chunk(s, k).len() ==> 1 <= (#[trigger] spec_chunk(s, k)[i]).len() <= k,
    decreases s.len(),
{
    if s.len() == 0 {
    } else if s.len() <= k {
    } else {
        lemma_chunk_sizes(s.skip(k), k);
        let cs = spec_chunk(s, k);
        assert(cs.skip(1) =~= spec_chunk(s.skip(k), k));
        assert forall|i: int| 0 <= i < cs.len() - 1 implies (#[trigger] cs[i]).len() == k by {
            if i > 0 {
                assert(cs[i] == spec_chunk(s.skip(k), k)[i - 1]);
            }
        };
        assert forall|i: int| 0 <= i < cs.len() implies 1 <= (#[trigger] cs[i]).len() <= k by {
            if i > 0 {
                assert(cs[i] == spec_chunk(s.skip(k), k)[i - 1]);
            }
        };
    }
}

/// Split a batch of circuits into delivery chunks of at most `k`.
pub fn chunk_circuits(v: &Vec<GarbledReLU>, k: usize) -> (r: Vec<Vec<GarbledReLU>>)
    requires
        k >= 1,
    ensures
        r@.len() == spec_chunk(v@, k as int).len(),
        forall|i: int| 0 <= i < r@.len() ==> (#[trigger] r@[i])@ == spec_chunk(v@, k as int)[i],
{
    let mut out: Vec<Vec<GarbledReLU>> = Vec::new();
    let total = v.len();
    let mut start: usize = 0;
    while start < v.len()
        invariant
            start <= v@.len(),
            k >= 1,
            total == v@.len(),
            v@.len() <= usize::MAX,
            out@.len() == spec_chunk(v@.take(start as int), k as int).len(),
            forall|i: int|
                0 <= i < out@.len() ==> (#[trigger] out@[i])@ == spec_chunk(
                    v@.take(start as int),
                    k as int,
                )[i],
            start % k == 0 || start == v@.len(),
        decreases v@.len() - start,
    {
        let end = if v.len() - start < k {
            v.len()
        } else {
            start + k
        };
        let mut piece: Vec<GarbledReLU> = Vec::new();
        let mut i: usize = start;
        while i < end
            invariant
                start <= i <= end <= v@.len(),
                piece@ == v@.subrange(start as int, i as int),
            decreases end - i,
        {
            piece.push(v[i]);
            proof {
                assert(v@.subrange(start as int, i as int).push(v@[i as int]) =~= v@.subrange(
                    start as int,
                    i as int + 1,
                ));
            }
            i = i + 1;
        }
        out.push(piece);
        proof {
            lemma_chunk_extend(v@, start as int, end as int, k as int);
        }
        start = end;
    }
    proof {
        assert(v@.take(v@.len() as int) =~= v@);
    }
    out
}

/// Unfolding of the chunking one piece at a time from the front: the
/// chunks of a prefix extended by one full (or final short) piece are
/// the chunks of the prefix plus that piece.
proof fn lemma_chunk_extend(s: Seq<GarbledReLU>, start: int, end: int, k: int)
    requires
        k >= 1,
        0 <= start < end <= s.len(),
        start % k == 0,
        end == if s.len() - start < k {
            s.len() as int
        } else {
            start + k
        },
    ensures
        spec_chunk(s.take(end), k) == spec_chunk(s.take(start), k).push(s.subrange(start, end)),
        end % k == 0 || end == s.len(),
    decreases start,
{
    if start == 0 {
        assert(s.take(0) =~= Seq::<GarbledReLU>::empty());
        assert(spec_chunk(s.take(0), k) =~= Seq::<Seq<GarbledReLU>>::empty());
        if s.len() <= k {
            assert(end == s.len());
            assert(spec_chunk(s.take(end), k) == seq![s.take(end)]);
            assert(s.take(end) =~= s.subrange(0, end));
            assert(spec_chunk(s.take(end), k) =~= spec_chunk(s.take(0), k).push(
                s.subrange(0, end),
            ));
        } else {
            assert(end == k);
            assert(s.take(end).len() == k);
            assert(spec_chunk(s.take(end), k) == seq![s.take(end)]);
            assert(s.take(end) =~= s.subrange(0, end));
            assert(spec_chunk(s.take(end), k) =~= spec_chunk(s.take(0), k).push(
                s.subrange(0, end),
            ));
        }
        if end < s.len() {
            assert(end == k);
            vstd::arithmetic::div_mod::lemma_mod_self_0(k);
        }
    } else {
        // Peel one full chunk off the front of both sides and recurse.
        let s2 = s.skip(k);
        assert(start >= k) by {
            if start < k {
                vstd::arithmetic::div_mod::lemma_small_mod(start as nat, k as nat);
            }
        }
        assert((start - k) % k == 0) by {
            vstd::arithmetic::div_mod::lemma_mod_sub_multiples_vanish(start, k);
        }
        assert(s2.take(end - k) =~= s.take(end).skip(k));
        assert(s2.take(start - k) =~= s.take(start).skip(k));
        assert(s2.subrange(start - k, end - k) =~= s.subrange(start, end));
        lemma_chunk_extend(s2, start - k, end - k, k);
        // Unfold spec_chunk on the two takes, whose length exceeds k.
        assert(s.take(end).len() == end && end > k);
        assert(spec_chunk(s.take(end), k) == seq![s.take(end).take(k)] + spec_chunk(
            s.take(end).skip(k),
            k,
        ));
        assert(s.take(end).take(k) =~= s.take(k));
        assert(s.take(start).take(k) =~= s.take(k));
        if start > k {
            assert(spec_chunk(s.take(start), k) == seq![s.take(start).take(k)] + spec_chunk(
                s.take(start).skip(k),
                k,
            ));
            assert(spec_chunk(s.take(end), k) =~= spec_chunk(s.take(start), k).push(
                s.subrange(start, end),
            ));
        } else {
            assert(start == k);
            assert(s.take(start).len() == k);
            assert(spec_chunk(s.take(start), k) == seq![s.take(start)]);
            assert(s2.take(0) =~= Seq::<GarbledReLU>::empty());
            assert(spec_chunk(s.take(end), k) =~= spec_chunk(s.take(start), k).push(
                s.subrange(start, end),
            ));
        }
        if end < s.len() {
            assert(end % k == 0) by {
                vstd::arithmetic::div_mod::lemma_mod_add_multiples_vanish(end - k, k);
            }
        }
    }
}

/// Concatenate delivery chunks back into one array, as the client does
/// on receipt.
pub fn concat_chunks(chunks: &Vec<Vec<GarbledReLU>>) -> (r: Vec<GarbledReLU>)
    ensures
        r@ == spec_concat(chunks@.map_values(|c: Vec<GarbledReLU>| c@)),
{
    let mut out: Vec<GarbledReLU> = Vec::new();
    let mut i: usize = 0;
    while i < chunks.len()
        invariant
            i <= chunks@.len(),
            out@ == spec_concat(chunks@.map_values(|c: Vec<GarbledReLU>| c@).take(i as int)),
        decreases chunks@.len() - i,
    {
        let piece = &chunks[i];
        let mut j: usize = 0;
        while j < piece.len()
            invariant
                j <= piece@.len(),
                i < chunks@.len(),
                piece@ == chunks@[i as int]@,
                out@ == spec_concat(
                    chunks@.map_values(|c: Vec<GarbledReLU>| c@).take(i as int),
                ) + piece@.take(j as int),
            decreases piece@.len() - j,
        {
            out.push(piece[j]);
            proof {
                assert(piece@.take(j as int).push(piece@[j as int]) =~= piece@.take(j as int + 1));
                assert(out@ =~= spec_concat(
                    chunks@.map_values(|c: Vec<GarbledReLU>| c@).take(i as int),
                ) + piece@.take(j as int + 1));
            }
            j = j + 1;
        }
        proof {
            let m = chunks@.map_values(|c: Vec<GarbledReLU>| c@);
            assert(piece@.take(piece@.len() as int) =~= piece@);
            lemma_concat_extend(m, i as int);
        }
        i = i + 1;
    }
    proof {
        let m = chunks@.map_values(|c: Vec<GarbledReLU>| c@);
        assert(m.take(m.len() as int) =~= m);
    }
    out
}

/// Concatenation of one more chunk appends its elements.
proof fn lemma_concat_extend(ss: Seq<Seq<GarbledReLU>>, i: int)
    requires
        0 <= i < ss.len(),
    ensures
        spec_concat(ss.take(i + 1)) == spec_concat(ss.take(i)) + ss[i],
    decreases i,
{
    if i == 0 {
        assert(ss.take(0) =~= Seq::<Seq<GarbledReLU>>::empty());
        assert(ss.take(1)[0] == ss[0]);
        assert(ss.take(1).skip(1) =~= Seq::<Seq<GarbledReLU>>::empty());
        assert(spec_concat(ss.take(1)) =~= spec_concat(ss.take(0)) + ss[0]);
    } else {
        lemma_concat_extend(ss.skip(1), i - 1);
        assert(ss.skip(1).take(i) =~= ss.take(i + 1).skip(1));
        assert(ss.skip(1).take(i - 1) =~= ss.take(i).skip(1));
        assert(ss.skip(1)[i - 1] == ss[i]);
        assert(ss.take(i + 1)[0] == ss[0]);
        assert(ss.take(i)[0] == ss[0]);
        assert(spec_concat(ss.take(i + 1)) == ss[0] + spec_concat(ss.take(i + 1).skip(1)));
        assert(spec_concat(ss.take(i)) == ss[0] + spec_concat(ss.take(i).skip(1)));
        assert(ss[0] + (spec_concat(ss.take(i).skip(1)) + ss[i]) =~= (ss[0] + spec_concat(
            ss.take(i).skip(1),
        )) + ss[i]);
    }
}

/// A pair of wire labels for one evaluator input bit: the label meaning
/// zero and the label meaning one.
#[derive(Clone, Copy, PartialEq, Eq, Structural, Debug)]
pub struct LabelPair {
    pub zero: u128,
    pub one: u128,
}

/// Separate the carry-bit labels from the value-bit labels.  Labels
/// arrive in per-element groups of [`EVALUATOR_INPUTS_PER_RELU`]; the
/// last label of each group belongs to the carry bit, is excluded from
/// the consistency sub-protocol, and only its zero label is kept.
pub fn split_carry_labels(labels: &Vec<LabelPair>) -> (r: (Vec<u128>, Vec<LabelPair>))
    requires
        labels@.len() % 64 == 0,
    ensures
        r.0@.len() == labels@.len() / 64,
        r.1@.len() == labels@.len() - labels@.len() / 64,
        forall|t: int| 0 <= t < r.0@.len() ==> #[trigger] r.0@[t] == labels@[64 * t + 63].zero,
        forall|t: int| 0 <= t < r.1@.len() ==> #[trigger] r.1@[t] == labels@[t + t / 63],
{
    let mut carries: Vec<u128> = Vec::new();
    let mut inputs: Vec<LabelPair> = Vec::new();
    let len = labels.len();
    let mut i: usize = 0;
    while i < len
        invariant
            i <= len,
            len == labels@.len(),
            labels@.len() % 64 == 0,
            carries@.len() == i / 64,
            inputs@.len() == i - i / 64,
            forall|t: int|
                0 <= t < carries@.len() ==> #[trigger] carries@[t] == labels@[64 * t + 63].zero,
            forall|t: int|
                0 <= t < inputs@.len() ==> #[trigger] inputs@[t] == labels@[t + t / 63],
        decreases len - i,
    {
        if (i + 1) % 64 == 0 {
            proof {
                lemma_carry_index(i as int);
            }
            carries.push(labels[i].zero);
        } else {
            proof {
                lemma_input_index(i as int);
            }
            inputs.push(labels[i]);
        }
        proof {
            lemma_split_counts(i as int);
        }
        i = i + 1;
    }
    (carries, inputs)
}

/// How the residue of a successor relates to the residue: it wraps to
/// zero after a full group and increments otherwise.
proof fn lemma_succ_mod64(i: int)
    requires
        i >= 0,
    ensures
        i % 64 == 63 ==> (i + 1) % 64 == 0,
        i % 64 < 63 ==> (i + 1) % 64 == i % 64 + 1,
{
    let q = i / 64;
    let r = i % 64;
    vstd::arithmetic::div_mod::lemma_fundamental_div_mod(i, 64);
    vstd::arithmetic::div_mod::lemma_mod_bound(i, 64);
    if r == 63 {
        vstd::arithmetic::div_mod::lemma_fundamental_div_mod_converse_mod(i + 1, 64, q + 1, 0);
    } else {
        vstd::arithmetic::div_mod::lemma_fundamental_div_mod_converse_mod(i + 1, 64, q, r + 1);
    }
}

/// At a carry position, the carry counter advances and indexes the
/// position exactly.
proof fn lemma_carry_index(i: int)
    requires
        i >= 0,
        (i + 1) % 64 == 0,
    ensures
        64 * (i / 64) + 63 == i,
{
    vstd::arithmetic::div_mod::lemma_fundamental_div_mod(i, 64);
    vstd::arithmetic::div_mod::lemma_mod_bound(i, 64);
    lemma_succ_mod64(i);
    assert(i % 64 == 63);
}

/// Stepping from one label to the next keeps the carry and input
/// counters consistent.
proof fn lemma_split_counts(i: int)
    requires
        i >= 0,
    ensures
        (i + 1) % 64 == 0 ==> (i + 1) / 64 == i / 64 + 1,
        (i + 1) % 64 != 0 ==> (i + 1) / 64 == i / 64,
{
    vstd::arithmetic::div_mod::lemma_fundamental_div_mod(i, 64);
    vstd::arithmetic::div_mod::lemma_mod_bound(i, 64);
    lemma_succ_mod64(i);
    if (i + 1) % 64 == 0 {
        assert(i % 64 == 63);
        vstd::arithmetic::div_mod::lemma_fundamental_div_mod_converse_div(
            i + 1,
            64,
            i / 64 + 1,
            0,
        );
    } else {
        assert(i % 64 < 63);
        vstd::arithmetic::div_mod::lemma_fundamental_div_mod_converse_div(
            i + 1,
            64,
            i / 64,
            i % 64 + 1,
        );
    }
}

/// At a non-carry position, the input index maps back to the original
/// position through the 63-for-64 compaction.
proof fn lemma_input_index(i: int)
    requires
        i >= 0,
        (i + 1) % 64 != 0,
    ensures
        (i - i / 64) + (i - i / 64) / 63 == i,
{
    let q = i / 64;
    let r = i % 64;
    vstd::arithmetic::div_mod::lemma_fundamental_div_mod(i, 64);
    vstd::arithmetic::div_mod::lemma_mod_bound(i, 64);
    lemma_succ_mod64(i);
    assert(r < 63);
    let j = i - q;
    assert(j == 63 * q + r) by (nonlinear_arith)
        requires
            i == 64 * q + r,
            j == i - q,
    ;
    vstd::arithmetic::div_mod::lemma_fundamental_div_mod_converse_div(j, 63, q, r);
}

} // verus!
