//! Groth16 CRS data model, canonical codec, R1CS assembly, QAP evaluation,
//! and the CRS subversion audit over BLS12-381.

use vstd::prelude::*;

pub mod assembly;
pub mod audit;
pub mod codec;
pub mod curve;
pub mod params;
pub mod qap;

verus! {

/// Errors reported by circuit synthesis and by the CRS audit.
#[derive(Clone, Copy, PartialEq, Eq, Structural, Debug)]
pub enum SynthesisError {
    /// A value was requested during witness synthesis but none was supplied.
    AssignmentMissing,
    /// One of the audit checks found the CRS inconsistent with an honest setup.
    MalformedCrs,
}

/// Errors reported by the binary decoder.
#[derive(Clone, Copy, PartialEq, Eq, Structural, Debug)]
pub enum DecodeError {
    /// The input ended before a complete encoding was read.
    Truncated,
    /// A fixed-width field did not decode to a valid group element.
    InvalidPoint,
    /// A group element decoded to the identity where the format forbids it.
    IdentityPoint,
}

} // verus!
