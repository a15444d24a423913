//! The ways in which the operations of this crate fail.

use vstd::prelude::*;

verus! {

/// Why a byte string is not the encoding of a key or a proof.
#[derive(Clone, Copy, Debug, PartialEq, Eq, Structural)]
pub enum DecodeError {
    /// The bytes end before the value does.
    Truncated,
    /// Bytes are left after the value.
    TrailingData,
    /// A field element is not reduced, or the flags of a point do not fit
    /// the point: another byte string stands for the same value, or none.
    NonCanonical,
    /// The coordinates are no point of the curve, or the point lies outside
    /// the subgroup of prime order.
    InvalidPoint,
}

impl DecodeError {
    /// The name of the error, as text.
    pub fn name(&self) -> (r: &'static str)
        ensures
            r@ == self.name_spec(),
    {
        match self {
            DecodeError::Truncated => "Truncated",
            DecodeError::TrailingData => "TrailingData",
            DecodeError::NonCanonical => "NonCanonical",
            DecodeError::InvalidPoint => "InvalidPoint",
        }
    }

    /// The name of the error, as a sequence of characters.
    pub open spec fn name_spec(self) -> Seq<char> {
        match self {
            DecodeError::Truncated => "Truncated"@,
            DecodeError::TrailingData => "TrailingData"@,
            DecodeError::NonCanonical => "NonCanonical"@,
            DecodeError::InvalidPoint => "InvalidPoint"@,
        }
    }
}

/// Why a circuit could not be synthesized.
#[derive(Clone, Copy, Debug, PartialEq, Eq, Structural)]
pub enum SynthesisError {
    /// A variable needs a value and the circuit holds none for it.
    AssignmentMissing,
}

/// Why a proof could not be checked. A proof that was checked and refused
/// is no error.
#[derive(Clone, Copy, Debug, PartialEq, Eq, Structural)]
pub enum VerifyError {
    /// The number of public inputs is not the one the key is made for.
    InputLength,
    /// The key, the proof or a public input is not what a decoder accepts,
    /// or the pairing check could not be evaluated on them.
    Malformed,
}

/// Why the check of an encoded proof gave no answer.
#[derive(Clone, Copy, Debug, PartialEq, Eq, Structural)]
pub enum CheckError {
    /// The verifying key of the verifier does not decode.
    Key(DecodeError),
    /// The proof does not decode.
    Proof(DecodeError),
    /// The proof could not be checked against the key and the inputs.
    Verify(VerifyError),
}

impl VerifyError {
    /// The name of the error, as text.
    pub fn name(&self) -> (r: &'static str)
        ensures
            r@ == self.name_spec(),
    {
        match self {
            VerifyError::InputLength => "InputLength",
            VerifyError::Malformed => "Malformed",
        }
    }

    /// The name of the error, as a sequence of characters.
    pub open spec fn name_spec(self) -> Seq<char> {
        match self {
            VerifyError::InputLength => "InputLength"@,
            VerifyError::Malformed => "Malformed"@,
        }
    }
}

} // verus!
