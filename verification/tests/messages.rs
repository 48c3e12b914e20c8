//! The typed message wrappers at the crate root.

use protocols::{InMessage, KeygenType, OutMessage};

#[test]
fn out_message_borrows_its_payload() {
    let payload: Vec<u8> = vec![1, 2, 3];
    let msg: OutMessage<Vec<u8>, KeygenType> = OutMessage::new(&payload);
    assert_eq!(msg.msg(), &vec![1u8, 2, 3]);
}

#[test]
fn in_message_hands_back_its_payload() {
    let msg: InMessage<u64, KeygenType> = InMessage::from_msg(77);
    assert_eq!(msg.msg(), 77);
}

#[test]
fn message_round_trip_through_codec() {
    // An outgoing field-element message, framed and read back in.
    let payload: Vec<u64> = vec![5, 10, 15];
    let out: OutMessage<Vec<u64>, KeygenType> = OutMessage::new(&payload);
    let bytes = protocols::bytes::serialize(out.msg());
    let back: InMessage<Vec<u64>, KeygenType> =
        InMessage::from_msg(protocols::bytes::deserialize(&bytes).unwrap());
    assert_eq!(back.msg(), payload);
}
