//! Wire codec and chunked garbled-circuit delivery.

use protocols::bytes::{deserialize, frame, serialize, unframe};
use protocols::error::ErrorKind;
use protocols::field::FIELD_MODULUS;
use protocols::gc::{
    chunk_circuits, concat_chunks, garble_relu_batch, split_carry_labels, GarbledReLU, LabelPair,
    GC_CHUNK_SIZE,
};

#[test]
fn frame_round_trip() {
    let payload = vec![1u8, 2, 3, 4, 5];
    let framed = frame(&payload);
    assert_eq!(framed.len(), 8 + payload.len());
    assert_eq!(&framed[0..8], &5u64.to_le_bytes());
    assert_eq!(unframe(&framed).unwrap(), payload);
}

#[test]
fn unframe_rejects_short_buffer() {
    assert_eq!(unframe(&vec![0u8; 7]).unwrap_err(), ErrorKind::Decode);
}

#[test]
fn unframe_rejects_length_mismatch() {
    let mut framed = frame(&vec![9u8; 4]);
    framed.push(0); // one trailing byte too many
    assert_eq!(unframe(&framed).unwrap_err(), ErrorKind::Decode);
}

#[test]
fn serialize_round_trip() {
    let v = vec![0u64, 1, 42, FIELD_MODULUS - 1];
    let bytes = serialize(&v);
    assert_eq!(bytes.len(), 8 + 8 * v.len());
    assert_eq!(deserialize(&bytes).unwrap(), v);
}

#[test]
fn deserialize_rejects_non_canonical_element() {
    // A payload carrying the modulus itself is not a reduced element.
    let bad = frame(&FIELD_MODULUS.to_le_bytes().to_vec());
    assert_eq!(deserialize(&bad).unwrap_err(), ErrorKind::Decode);
}

#[test]
fn deserialize_rejects_ragged_payload() {
    let bad = frame(&vec![1u8, 2, 3]);
    assert_eq!(deserialize(&bad).unwrap_err(), ErrorKind::Decode);
}

#[test]
fn chunking_round_trips_with_dividing_size() {
    let tape: Vec<u64> = (0..24u64).collect();
    let gcs = garble_relu_batch(&tape, 24);
    for chunk in [1usize, 2, 3, 4, 6, 8, 12, 24] {
        let chunks = chunk_circuits(&gcs, chunk);
        if 24 % chunk == 0 {
            assert!(chunks.iter().all(|c| c.len() == chunk));
        }
        let back = concat_chunks(&chunks);
        assert_eq!(back.len(), gcs.len());
        for (a, b) in back.iter().zip(gcs.iter()) {
            assert_eq!(a.r_out, b.r_out);
        }
    }
}

#[test]
fn chunking_last_chunk_short() {
    let tape: Vec<u64> = (0..10u64).collect();
    let gcs = garble_relu_batch(&tape, 10);
    let chunks = chunk_circuits(&gcs, 4);
    assert_eq!(chunks.len(), 3);
    assert_eq!(chunks[0].len(), 4);
    assert_eq!(chunks[1].len(), 4);
    assert_eq!(chunks[2].len(), 2);
    let back = concat_chunks(&chunks);
    assert_eq!(back.iter().map(|g| g.r_out).collect::<Vec<_>>(), (0..10u64).collect::<Vec<_>>());
}

#[test]
fn default_chunk_size_is_8192() {
    assert_eq!(GC_CHUNK_SIZE, 8192);
}

#[test]
fn wire_counts_follow_the_modulus_width() {
    // One evaluator input per field-element bit plus the carry; the
    // garbler supplies its share bits and the randomizer bits.
    assert_eq!(
        protocols::gc::EVALUATOR_INPUTS_PER_RELU,
        protocols::field::MODULUS_BITS + 1
    );
    assert_eq!(
        protocols::gc::GARBLER_INPUTS_PER_RELU,
        2 * protocols::field::MODULUS_BITS
    );
    assert_eq!(protocols::cds::SHARE_BITS, protocols::field::MODULUS_BITS);
}

#[test]
fn carry_labels_split_per_group() {
    // Two per-element groups of 64 labels: positions 63 and 127 carry.
    let labels: Vec<LabelPair> =
        (0..128u128).map(|i| LabelPair { zero: i, one: 1000 + i }).collect();
    let (carries, inputs) = split_carry_labels(&labels);
    assert_eq!(carries, vec![63u128, 127]);
    assert_eq!(inputs.len(), 126);
    assert_eq!(inputs[0].zero, 0);
    assert_eq!(inputs[62].zero, 62);
    // Index 63 of the compacted list is original position 64.
    assert_eq!(inputs[63].zero, 64);
    assert_eq!(inputs[125].zero, 126);
}

#[test]
fn garbled_circuit_model_is_copyable() {
    let g = GarbledReLU { r_out: 7 };
    let h = g;
    assert_eq!(g, h);
}
