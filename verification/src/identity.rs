use vstd::prelude::*;

verus! {

/// An authenticated actor reference (the poll's administrator, or a voter).
///
/// The hosting substrate identifies actors by an opaque 256-bit account
/// address; the state machine only ever compares identities for equality, so
/// the address is carried here as two plain 128-bit halves.
#[derive(Clone, Copy, PartialEq, Eq, Structural, Debug)]
pub struct Identity {
    pub hi: u128,
    pub lo: u128,
}

} // verus!
