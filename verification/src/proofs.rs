//! Groth16 proofs and their encoding in 128 bytes.

use crate::curve::{
    lemma_g1_decode_encode, lemma_g1_encode_decode, lemma_g2_decode_encode,
    lemma_g2_encode_decode, G1Point, G2Point,
};
use crate::error::DecodeError;
use vstd::prelude::*;
use vstd::slice::slice_subrange;

verus! {

/// The length of an encoded proof.
pub const PROOF_LEN: usize = 128;

/// A Groth16 proof: the points A and C of G1 and the point B of G2.
#[derive(Clone, Copy, Debug, PartialEq, Eq, Structural)]
pub struct Proof {
    pub a: G1Point,
    pub b: G2Point,
    pub c: G1Point,
}

impl Proof {
    /// Whether a decoder accepts each of the three points.
    pub open spec fn valid(self) -> bool {
        self.a.valid() && self.b.valid() && self.c.valid()
    }

    /// Whether each of the three points satisfies the equation of its curve.
    pub open spec fn on_curve(self) -> bool {
        self.a.on_curve() && self.b.on_curve() && self.c.on_curve()
    }

    /// The 128 bytes that stand for the proof: A, then B, then C.
    pub open spec fn encoding(self) -> Seq<u8> {
        self.a.encoding() + self.b.encoding() + self.c.encoding()
    }

    /// The proof that a byte string stands for, or why it stands for none.
    /// The length is looked at first, then the points in their order.
    pub open spec fn decoding(b: Seq<u8>) -> Result<Proof, DecodeError> {
        if b.len() < PROOF_LEN {
            Err(DecodeError::Truncated)
        } else if b.len() > PROOF_LEN {
            Err(DecodeError::TrailingData)
        } else {
            match G1Point::decoding(b.subrange(0, 32)) {
                Err(e) => Err(e),
                Ok(a) => match G2Point::decoding(b.subrange(32, 96)) {
                    Err(e) => Err(e),
                    Ok(pb) => match G1Point::decoding(b.subrange(96, 128)) {
                        Err(e) => Err(e),
                        Ok(c) => Ok(Proof { a, b: pb, c }),
                    },
                },
            }
        }
    }

    /// Encodes the proof in 128 bytes.
    pub fn encode(&self) -> (r: Vec<u8>)
        ensures
            r@ == self.encoding(),
            r@.len() == PROOF_LEN,
            self.valid() ==> Proof::decoding(r@) == Ok::<Proof, DecodeError>(*self),
    {
        proof {
            if self.valid() {
                lemma_decode_encode(*self);
            }
        }
        let mut out = self.a.encode();
        let b = self.b.encode();
        let c = self.c.encode();
        out.extend_from_slice(b.as_slice());
        out.extend_from_slice(c.as_slice());
        assert(out@ =~= self.encoding());
        out
    }

    /// Decodes a proof from its 128 bytes.
    pub fn decode(b: &[u8]) -> (r: Result<Proof, DecodeError>)
        ensures
            r == Proof::decoding(b@),
            r matches Ok(p) ==> p.valid() && p.on_curve() && p.encoding() == b@,
    {
        proof {
            if let Ok(p) = Proof::decoding(b@) {
                lemma_encode_decode(b@, p);
            }
        }
        if b.len() < PROOF_LEN {
            return Err(DecodeError::Truncated);
        }
        if b.len() > PROOF_LEN {
            return Err(DecodeError::TrailingData);
        }
        let a = match G1Point::decode(slice_subrange(b, 0, 32)) {
            Ok(a) => a,
            Err(e) => {
                return Err(e);
            },
        };
        let pb = match G2Point::decode(slice_subrange(b, 32, 96)) {
            Ok(pb) => pb,
            Err(e) => {
                return Err(e);
            },
        };
        let c = match G1Point::decode(slice_subrange(b, 96, 128)) {
            Ok(c) => c,
            Err(e) => {
                return Err(e);
            },
        };
        Ok(Proof { a, b: pb, c })
    }
}

/// Decoding the encoding of a valid proof gives the proof back.
pub proof fn lemma_decode_encode(p: Proof)
    requires
        p.valid(),
    ensures
        Proof::decoding(p.encoding()) == Ok::<Proof, DecodeError>(p),
{
    let b = p.encoding();
    lemma_g1_decode_encode(p.a);
    lemma_g2_decode_encode(p.b);
    lemma_g1_decode_encode(p.c);
    lemma_lengths(p);
    assert(b.subrange(0, 32) =~= p.a.encoding());
    assert(b.subrange(32, 96) =~= p.b.encoding());
    assert(b.subrange(96, 128) =~= p.c.encoding());
}

/// Bytes that decode to a proof are the encoding of that proof, and the
/// proof is valid.
pub proof fn lemma_encode_decode(b: Seq<u8>, p: Proof)
    requires
        Proof::decoding(b) == Ok::<Proof, DecodeError>(p),
    ensures
        p.encoding() == b,
        p.valid(),
{
    lemma_g1_encode_decode(b.subrange(0, 32), p.a);
    lemma_g2_encode_decode(b.subrange(32, 96), p.b);
    lemma_g1_encode_decode(b.subrange(96, 128), p.c);
    assert(b =~= b.subrange(0, 32) + b.subrange(32, 96) + b.subrange(96, 128));
}

/// No byte string but its encoding decodes to a given proof: bytes that
/// differ from the encoding in any place are refused or stand for another
/// proof.
pub proof fn lemma_altered_encoding(p: Proof, b: Seq<u8>)
    requires
        b != p.encoding(),
    ensures
        Proof::decoding(b) != Ok::<Proof, DecodeError>(p),
{
    if Proof::decoding(b) == Ok::<Proof, DecodeError>(p) {
        lemma_encode_decode(b, p);
    }
}

/// Two valid proofs with one encoding are one proof.
pub proof fn lemma_encoding_injective(p: Proof, q: Proof)
    requires
        p.valid(),
        q.valid(),
        p.encoding() == q.encoding(),
    ensures
        p == q,
{
    lemma_decode_encode(p);
    lemma_decode_encode(q);
}

/// The encodings of the three points have 32, 64 and 32 bytes.
pub proof fn lemma_lengths(p: Proof)
    ensures
        p.a.encoding().len() == 32,
        p.b.encoding().len() == 64,
        p.c.encoding().len() == 32,
        p.encoding().len() == PROOF_LEN,
{
}

} // verus!
