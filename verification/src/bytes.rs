//! The wire codec: length-prefixed frames and canonical field-element
//! payloads.
//!
//! Every message is an 8-byte little-endian length followed by the
//! payload.  Structured payloads are sequences of field elements, each
//! written as an 8-byte little-endian integer; canonicalisation is
//! strict, so a non-reduced element or a length mismatch is rejected
//! with a decode failure and no alternate encoding is accepted.

use crate::error::ErrorKind;
use crate::field::{fe_valid, FIELD_MODULUS};
use vstd::bytes::{
    lemma_auto_spec_u64_to_from_le_bytes, spec_u64_from_le_bytes, spec_u64_to_le_bytes,
    u64_from_le_bytes, u64_to_le_bytes,
};
use vstd::prelude::*;
use vstd::slice::slice_subrange;

verus! {

/// The frame an honest sender produces for a payload.
pub open spec fn spec_frame(p: Seq<u8>) -> Seq<u8> {
    spec_u64_to_le_bytes(p.len() as u64) + p
}

/// What a receiver accepts: exactly the frames whose declared length
/// matches what follows the prefix.
pub open spec fn spec_unframe(b: Seq<u8>) -> Option<Seq<u8>> {
    if b.len() >= 8 && spec_u64_from_le_bytes(b.take(8)) == b.len() - 8 {
        Some(b.skip(8))
    } else {
        None
    }
}

/// Framing round-trips: a receiver accepts every honest frame and reads
/// back exactly the payload.
pub proof fn lemma_frame_round_trip(p: Seq<u8>)
    requires
        p.len() <= u64::MAX,
    ensures
        spec_unframe(spec_frame(p)) == Some(p),
{
    lemma_auto_spec_u64_to_from_le_bytes();
    let f = spec_frame(p);
    assert(f.take(8) =~= spec_u64_to_le_bytes(p.len() as u64));
    assert(f.skip(8) =~= p);
}

/// Produce the length-prefixed frame for a payload.
pub fn frame(payload: &Vec<u8>) -> (r: Vec<u8>)
    ensures
        r@ == spec_frame(payload@),
{
    let mut out = u64_to_le_bytes(payload.len() as u64);
    let mut i: usize = 0;
    while i < payload.len()
        invariant
            i <= payload@.len(),
            out@ == spec_u64_to_le_bytes(payload@.len() as u64) + payload@.take(i as int),
        decreases payload@.len() - i,
    {
        out.push(payload[i]);
        proof {
            assert(payload@.take(i as int).push(payload@[i as int]) =~= payload@.take(
                i as int + 1,
            ));
            assert(out@ =~= spec_u64_to_le_bytes(payload@.len() as u64) + payload@.take(
                i as int + 1,
            ));
        }
        i = i + 1;
    }
    proof {
        assert(payload@.take(payload@.len() as int) =~= payload@);
    }
    out
}

/// Parse a length-prefixed frame; a short buffer or a length mismatch is
/// a decode failure.
pub fn unframe(buf: &Vec<u8>) -> (r: Result<Vec<u8>, ErrorKind>)
    ensures
        match r {
            Ok(p) => spec_unframe(buf@) == Some(p@),
            Err(e) => e == ErrorKind::Decode && spec_unframe(buf@) is None,
        },
{
    if buf.len() < 8 {
        return Err(ErrorKind::Decode);
    }
    let header = slice_subrange(buf.as_slice(), 0, 8);
    let declared = u64_from_le_bytes(header);
    proof {
        assert(header@ =~= buf@.take(8));
    }
    if declared != (buf.len() - 8) as u64 {
        return Err(ErrorKind::Decode);
    }
    let mut out: Vec<u8> = Vec::new();
    let mut i: usize = 8;
    while i < buf.len()
        invariant
            8 <= i <= buf@.len(),
            out@ == buf@.subrange(8, i as int),
        decreases buf@.len() - i,
    {
        out.push(buf[i]);
        proof {
            assert(buf@.subrange(8, i as int).push(buf@[i as int]) =~= buf@.subrange(
                8,
                i as int + 1,
            ));
        }
        i = i + 1;
    }
    proof {
        assert(out@ =~= buf@.skip(8));
    }
    Ok(out)
}

/// The canonical byte image of a sequence of field elements: each
/// element in 8 little-endian bytes, in order.
pub open spec fn spec_elems_bytes(v: Seq<u64>) -> Seq<u8>
    decreases v.len(),
{
    if v.len() == 0 {
        Seq::empty()
    } else {
        spec_elems_bytes(v.drop_last()) + spec_u64_to_le_bytes(v.last())
    }
}

pub proof fn lemma_spec_elems_bytes_len(v: Seq<u64>)
    ensures
        spec_elems_bytes(v).len() == 8 * v.len(),
    decreases v.len(),
{
    lemma_auto_spec_u64_to_from_le_bytes();
    if v.len() > 0 {
        lemma_spec_elems_bytes_len(v.drop_last());
    }
}

/// The decoder of a canonical element payload: groups of 8 bytes, each
/// read little-endian, each required to be a reduced field element.
pub open spec fn spec_elems_decode(b: Seq<u8>) -> Option<Seq<u64>>
    decreases b.len(),
{
    if b.len() % 8 != 0 {
        None
    } else if b.len() == 0 {
        Some(Seq::empty())
    } else {
        let x = spec_u64_from_le_bytes(b.skip(b.len() - 8));
        if x < FIELD_MODULUS {
            match spec_elems_decode(b.take(b.len() - 8)) {
                Some(rest) => Some(rest.push(x)),
                None => None,
            }
        } else {
            None
        }
    }
}

/// Element payloads round-trip: decoding the canonical image of any
/// sequence of reduced elements gives back exactly that sequence.
pub proof fn lemma_elems_round_trip(v: Seq<u64>)
    requires
        forall|i: int| 0 <= i < v.len() ==> fe_valid(#[trigger] v[i]),
    ensures
        spec_elems_decode(spec_elems_bytes(v)) == Some(v),
    decreases v.len(),
{
    lemma_auto_spec_u64_to_from_le_bytes();
    lemma_spec_elems_bytes_len(v);
    if v.len() == 0 {
        assert(spec_elems_bytes(v) =~= Seq::<u8>::empty());
    } else {
        let b = spec_elems_bytes(v);
        lemma_spec_elems_bytes_len(v.drop_last());
        assert(b.skip(b.len() - 8) =~= spec_u64_to_le_bytes(v.last()));
        assert(b.take(b.len() - 8) =~= spec_elems_bytes(v.drop_last()));
        lemma_elems_round_trip(v.drop_last());
        assert(v.drop_last().push(v.last()) =~= v);
    }
}

/// Serialize a vector of field elements into a complete frame.
pub fn serialize(v: &Vec<u64>) -> (r: Vec<u8>)
    requires
        8 * v@.len() <= u64::MAX,
    ensures
        r@ == spec_frame(spec_elems_bytes(v@)),
{
    let mut payload: Vec<u8> = Vec::new();
    let mut i: usize = 0;
    while i < v.len()
        invariant
            i <= v@.len(),
            8 * v@.len() <= u64::MAX,
            payload@ == spec_elems_bytes(v@.take(i as int)),
        decreases v@.len() - i,
    {
        let mut chunk = u64_to_le_bytes(v[i]);
        let mut j: usize = 0;
        while j < chunk.len()
            invariant
                j <= chunk@.len(),
                chunk@ == spec_u64_to_le_bytes(v@[i as int]),
                i < v@.len(),
                payload@ == spec_elems_bytes(v@.take(i as int)) + chunk@.take(j as int),
            decreases chunk@.len() - j,
        {
            payload.push(chunk[j]);
            proof {
                assert(chunk@.take(j as int).push(chunk@[j as int]) =~= chunk@.take(j as int + 1));
                assert(payload@ =~= spec_elems_bytes(v@.take(i as int)) + chunk@.take(
                    j as int + 1,
                ));
            }
            j = j + 1;
        }
        proof {
            assert(chunk@.take(chunk@.len() as int) =~= chunk@);
            assert(v@.take(i as int + 1).drop_last() =~= v@.take(i as int));
            assert(v@.take(i as int + 1).last() == v@[i as int]);
            assert(spec_elems_bytes(v@.take(i as int + 1)) =~= spec_elems_bytes(v@.take(i as int))
                + spec_u64_to_le_bytes(v@[i as int]));
        }
        i = i + 1;
    }
    proof {
        assert(v@.take(v@.len() as int) =~= v@);
        lemma_spec_elems_bytes_len(v@);
    }
    frame(&payload)
}

/// Parse a complete frame into a vector of field elements: the exact
/// inverse of [`serialize`] on its image, and a decode failure on
/// everything else.
pub fn deserialize(buf: &Vec<u8>) -> (r: Result<Vec<u64>, ErrorKind>)
    ensures
        match r {
            Ok(v) => {
                &&& spec_unframe(buf@) matches Some(p) && spec_elems_decode(p) == Some(v@)
                &&& forall|i: int| 0 <= i < v@.len() ==> fe_valid(#[trigger] v@[i])
            },
            Err(e) => {
                &&& e == ErrorKind::Decode
                &&& match spec_unframe(buf@) {
                    Some(p) => spec_elems_decode(p) is None,
                    None => true,
                }
            },
        },
{
    let payload = match unframe(buf) {
        Ok(p) => p,
        Err(e) => {
            return Err(e);
        },
    };
    if payload.len() % 8 != 0 {
        return Err(ErrorKind::Decode);
    }
    let n = payload.len() / 8;
    proof {
        vstd::arithmetic::div_mod::lemma_fundamental_div_mod(payload@.len() as int, 8);
    }
    let mut out: Vec<u64> = Vec::new();
    let mut i: usize = 0;
    while i < n
        invariant
            i <= n,
            payload@.len() == 8 * n,
            payload@.len() <= usize::MAX,
            payload@.len() % 8 == 0,
            spec_unframe(buf@) == Some(payload@),
            out@.len() == i,
            spec_elems_decode(payload@.take(8 * i as int)) == Some(out@),
            forall|k: int| 0 <= k < out@.len() ==> fe_valid(#[trigger] out@[k]),
        decreases n - i,
    {
        proof {
            assert(8 * (i as int) + 8 <= 8 * (n as int));
        }
        let chunk = slice_subrange(payload.as_slice(), 8 * i, 8 * i + 8);
        let x = u64_from_le_bytes(chunk);
        if x >= FIELD_MODULUS {
            proof {
                let q = payload@.take(8 * i as int + 8);
                assert(q.len() == 8 * i + 8);
                assert(q.skip(q.len() - 8) =~= chunk@);
                assert(spec_elems_decode(q) is None);
                lemma_elems_decode_prefix_none(payload@, 8 * i as int + 8);
                assert(spec_elems_decode(payload@) is None);
                assert(spec_unframe(buf@) == Some(payload@));
            }
            return Err(ErrorKind::Decode);
        }
        out.push(x);
        proof {
            let q = payload@.take(8 * i as int + 8);
            assert(q.skip(q.len() - 8) =~= chunk@);
            assert(q.take(q.len() - 8) =~= payload@.take(8 * i as int));
        }
        i = i + 1;
    }
    proof {
        assert(payload@.take(8 * n as int) =~= payload@);
    }
    Ok(out)
}

/// If some 8-aligned prefix of a payload already fails to decode, the
/// whole payload fails: the decoder works from the end, so the failure
/// propagates outward.
proof fn lemma_elems_decode_prefix_none(b: Seq<u8>, k: int)
    requires
        0 <= k <= b.len(),
        k % 8 == 0,
        b.len() % 8 == 0,
        spec_elems_decode(b.take(k)) is None,
    ensures
        spec_elems_decode(b) is None,
    decreases b.len() - k,
{
    if k == b.len() {
        assert(b.take(k) =~= b);
    } else {
        let k2 = k + 8;
        assert(b.take(k2).take(k2 - 8) =~= b.take(k));
        assert(spec_elems_decode(b.take(k2)) is None);
        lemma_elems_decode_prefix_none(b, k2);
    }
}

} // verus!
