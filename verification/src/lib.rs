//! Two-party secure neural-network inference: the verified protocol core.
//!
//! A model-holding server and an input-holding client jointly evaluate a
//! neural network without revealing their secrets to each other.  The
//! protocol runs an offline (input-independent) phase that produces
//! authenticated additive shares for every layer, and an online phase that
//! walks the layer list and opens the final output under a MAC check.
//!
//! This crate holds the protocol logic itself: the prime field and
//! fixed-point encodings, additive and authenticated shares, the Beaver
//! multiplication substrate, the per-layer correlation generator, the
//! truncated-ReLU circuit model with chunked delivery, the bit-decomposition
//! used to feed circuit inputs, and the layer-by-layer orchestrator.  The
//! byte transport that carries the messages lives outside the library.

use core::marker::PhantomData;
use vstd::prelude::*;

pub mod bytes;
pub mod cds;
pub mod error;
pub mod field;
pub mod fixed;
pub mod gc;
pub mod input_auth;
pub mod layers;
pub mod linear_layer;
pub mod mpc;
pub mod mpc_offline;
pub mod network;
pub mod neural_network;
pub mod resnet32;
pub mod rng;
pub mod share;

verus! {

/// Tag for key-exchange messages: the first frames of a session carry
/// serialized key material for the homomorphic scheme.
pub struct KeygenType;

/// An outgoing protocol message: borrows its payload, and carries a
/// phantom tag naming the sub-protocol it belongs to, so that a frame of
/// one sub-protocol cannot be handed to another by mistake.
pub struct OutMessage<'a, T, Type> {
    msg: &'a T,
    protocol_type: PhantomData<Type>,
}

impl<'a, T, Type> OutMessage<'a, T, Type> {
    /// The payload this message carries.
    pub closed spec fn spec_msg(self) -> T {
        *self.msg
    }

    pub fn new(msg: &'a T) -> (r: Self)
        ensures
            r.spec_msg() == *msg,
    {
        Self { msg, protocol_type: PhantomData }
    }

    pub fn msg(&self) -> (r: &T)
        ensures
            *r == self.spec_msg(),
    {
        self.msg
    }
}

/// An incoming protocol message: owns its payload, tagged like
/// [`OutMessage`].
pub struct InMessage<T, Type> {
    msg: T,
    protocol_type: PhantomData<Type>,
}

impl<T, Type> InMessage<T, Type> {
    /// The payload this message carries.
    pub closed spec fn spec_msg(self) -> T {
        self.msg
    }

    /// Wrap a received payload.
    pub fn from_msg(msg: T) -> (r: Self)
        ensures
            r.spec_msg() == msg,
    {
        Self { msg, protocol_type: PhantomData }
    }

    pub fn msg(self) -> (r: T)
        ensures
            r == self.spec_msg(),
    {
        self.msg
    }
}

} // verus!
