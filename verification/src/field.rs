//! The scalar field of BN254, in which witnesses and public inputs lie.

use crate::backend::{fr_product, fr_sum};
use crate::bigint::{lemma_le_bytes_of_le, lemma_of_le_bytes_of, U256};
use crate::error::DecodeError;
use vstd::prelude::*;

verus! {

/// The words of the order of the scalar field of BN254.
pub open spec fn scalar_modulus_words() -> U256 {
    U256 {
        w0: 0x43e1f593f0000001,
        w1: 0x2833e84879b97091,
        w2: 0xb85045b68181585d,
        w3: 0x30644e72e131a029,
    }
}

/// The order of the scalar field of BN254, which is
/// 21888242871839275222246405745257275088548364400416034343698204186575808495617.
pub open spec fn scalar_modulus() -> nat {
    scalar_modulus_words()@
}

/// An element of the scalar field, held as the integer that stands for it.
#[derive(Clone, Copy, Debug, PartialEq, Eq, Structural)]
pub struct FieldElement {
    pub repr: U256,
}

impl View for FieldElement {
    type V = nat;

    /// The integer that stands for the element.
    open spec fn view(&self) -> nat {
        self.repr@
    }
}

impl FieldElement {
    /// Whether the integer is reduced: below the order of the field.
    pub open spec fn valid(self) -> bool {
        self@ < scalar_modulus()
    }

    /// The 32 bytes that stand for the element, least significant first.
    pub open spec fn encoding(self) -> Seq<u8> {
        self.repr.le_bytes()
    }

    /// The element that 32 bytes stand for, or why they stand for none.
    pub open spec fn decoding(b: Seq<u8>) -> Result<FieldElement, DecodeError> {
        if b.len() < 32 {
            Err(DecodeError::Truncated)
        } else if b.len() > 32 {
            Err(DecodeError::TrailingData)
        } else if !(U256::of_le_bytes(b)@ < scalar_modulus()) {
            Err(DecodeError::NonCanonical)
        } else {
            Ok(FieldElement { repr: U256::of_le_bytes(b) })
        }
    }

    /// The order of the field.
    pub fn modulus() -> (r: U256)
        ensures
            r == scalar_modulus_words(),
    {
        U256 {
            w0: 0x43e1f593f0000001,
            w1: 0x2833e84879b97091,
            w2: 0xb85045b68181585d,
            w3: 0x30644e72e131a029,
        }
    }

    /// The element that stands for a 64-bit number.
    pub fn from_u64(x: u64) -> (r: FieldElement)
        ensures
            r@ == x,
            r.valid(),
    {
        FieldElement { repr: U256::from_u64(x) }
    }

    /// The element that stands for a 32-bit number.
    pub fn from_u32(x: u32) -> (r: FieldElement)
        ensures
            r@ == x,
            r.valid(),
    {
        FieldElement { repr: U256::from_u64(x as u64) }
    }

    /// Whether the integer is reduced.
    pub fn is_valid(&self) -> (r: bool)
        ensures
            r == self.valid(),
    {
        let m = FieldElement::modulus();
        self.repr.lt(&m)
    }

    /// The sum of two elements.
    pub fn add(&self, other: &FieldElement) -> (r: FieldElement)
        ensures
            r@ == (self@ + other@) % scalar_modulus(),
            r.valid(),
    {
        FieldElement { repr: fr_sum(&self.repr, &other.repr) }
    }

    /// The product of two elements.
    pub fn mul(&self, other: &FieldElement) -> (r: FieldElement)
        ensures
            r@ == (self@ * other@) % scalar_modulus(),
            r.valid(),
    {
        FieldElement { repr: fr_product(&self.repr, &other.repr) }
    }

    /// Encodes the element in 32 bytes.
    pub fn encode(&self) -> (r: Vec<u8>)
        ensures
            r@ == self.encoding(),
            r@.len() == 32,
            self.valid() ==> FieldElement::decoding(r@) == Ok::<FieldElement, DecodeError>(*self),
    {
        proof {
            if self.valid() {
                lemma_field_decode_encode(*self);
            }
        }
        self.repr.to_le_bytes()
    }

    /// Decodes an element from its 32 bytes.
    pub fn decode(b: &[u8]) -> (r: Result<FieldElement, DecodeError>)
        ensures
            r == FieldElement::decoding(b@),
            r matches Ok(x) ==> x.valid() && x.encoding() == b@,
    {
        proof {
            if let Ok(x) = FieldElement::decoding(b@) {
                lemma_field_encode_decode(b@, x);
            }
        }
        if b.len() < 32 {
            return Err(DecodeError::Truncated);
        }
        if b.len() > 32 {
            return Err(DecodeError::TrailingData);
        }
        let x = FieldElement { repr: U256::from_le_bytes(b) };
        if !x.is_valid() {
            return Err(DecodeError::NonCanonical);
        }
        Ok(x)
    }
}

/// Decoding the encoding of a reduced element gives the element back.
pub proof fn lemma_field_decode_encode(x: FieldElement)
    requires
        x.valid(),
    ensures
        FieldElement::decoding(x.encoding()) == Ok::<FieldElement, DecodeError>(x),
{
    lemma_of_le_bytes_of(x.repr);
}

/// Bytes that decode to an element are the encoding of that element, and
/// the element is reduced.
pub proof fn lemma_field_encode_decode(b: Seq<u8>, x: FieldElement)
    requires
        FieldElement::decoding(b) == Ok::<FieldElement, DecodeError>(x),
    ensures
        x.encoding() == b,
        x.valid(),
{
    lemma_le_bytes_of_le(b);
}

} // verus!
