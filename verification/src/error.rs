//! Failure taxonomy of a session.
//!
//! Every sub-protocol is atomic: the first failure is terminal for the
//! session and is surfaced to the driver tagged with one of these kinds
//! and the layer index at which it occurred.  No recovery is attempted.

use vstd::prelude::*;

verus! {

/// What killed the session.
#[derive(Clone, Copy, PartialEq, Eq, Structural, Debug)]
pub enum ErrorKind {
    /// Transport broken or truncated frame.
    Io,
    /// Malformed message or length mismatch.
    Decode,
    /// Decryption failure or garbling/evaluation inconsistency.
    Crypto,
    /// An authenticated opening check failed: the peer deviated.
    MacFailure,
    /// Layer shapes do not compose.
    Shape,
    /// Unexpected sub-protocol ordering.
    Protocol,
}

/// A terminal session failure: the taxonomy tag plus the layer index at
/// which it occurred, for audit.
#[derive(Clone, Copy, PartialEq, Eq, Structural, Debug)]
pub struct SessionError {
    pub kind: ErrorKind,
    pub layer: usize,
}

impl SessionError {
    pub fn new(kind: ErrorKind, layer: usize) -> (r: Self)
        ensures
            r.kind == kind,
            r.layer == layer,
    {
        SessionError { kind, layer }
    }
}

} // verus!
