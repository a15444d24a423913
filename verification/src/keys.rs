//! Verifying keys and their encoding.

use crate::bigint::{lemma_bytes_of_word, lemma_word_of_its_bytes, read_word, word_of_bytes};
use crate::curve::{
    lemma_g1_decode_encode, lemma_g1_encode_decode, lemma_g2_decode_encode,
    lemma_g2_encode_decode, G1Point, G2Point,
};
use crate::error::DecodeError;
use crate::sequences::{
    count_encoding, decode_g1s, encode_count, encode_g1s, g1s_decoding, g1s_encoding, g1s_valid,
    lemma_g1s_decode_encode, lemma_g1s_encode_decode, lemma_g1s_len,
};
use vstd::prelude::*;
use vstd::slice::slice_subrange;

verus! {

/// The length of the four points that an encoded verifying key starts with.
pub const KEY_POINTS_LEN: usize = 224;

/// The length of an encoded verifying key without the points that follow
/// the count.
pub const KEY_HEAD_LEN: usize = 232;

/// A verifying key as a value of the model: its points, the last field a
/// sequence.
pub struct VerifyingKeyView {
    pub alpha_g1: G1Point,
    pub beta_g2: G2Point,
    pub gamma_g2: G2Point,
    pub delta_g2: G2Point,
    pub gamma_abc_g1: Seq<G1Point>,
}

impl VerifyingKeyView {
    /// Whether a decoder accepts each point, and the points after the first
    /// four can be counted in 64 bits.
    pub open spec fn valid(self) -> bool {
        &&& self.alpha_g1.valid()
        &&& self.beta_g2.valid()
        &&& self.gamma_g2.valid()
        &&& self.delta_g2.valid()
        &&& g1s_valid(self.gamma_abc_g1)
        &&& self.gamma_abc_g1.len() <= u64::MAX
    }

    /// The number of public inputs that the key is made for.
    pub open spec fn inputs(self) -> int {
        self.gamma_abc_g1.len() - 1
    }

    /// The bytes that stand for the key: the four points, the count of the
    /// points that follow, and those points.
    pub open spec fn encoding(self) -> Seq<u8> {
        self.alpha_g1.encoding() + self.beta_g2.encoding() + self.gamma_g2.encoding()
            + self.delta_g2.encoding() + count_encoding(self.gamma_abc_g1.len() as u64)
            + g1s_encoding(self.gamma_abc_g1)
    }

    /// The key that a byte string stands for, or why it stands for none. The
    /// length is looked at first, then the points in their order.
    #[verifier::opaque]
    pub open spec fn decoding(b: Seq<u8>) -> Result<VerifyingKeyView, DecodeError> {
        let n = word_of_bytes(b.subrange(224, 232));
        if b.len() < KEY_HEAD_LEN || b.len() < KEY_HEAD_LEN + 32 * n {
            Err(DecodeError::Truncated)
        } else if b.len() > KEY_HEAD_LEN + 32 * n {
            Err(DecodeError::TrailingData)
        } else {
            match G1Point::decoding(b.subrange(0, 32)) {
                Err(e) => Err(e),
                Ok(alpha_g1) => match G2Point::decoding(b.subrange(32, 96)) {
                    Err(e) => Err(e),
                    Ok(beta_g2) => match G2Point::decoding(b.subrange(96, 160)) {
                        Err(e) => Err(e),
                        Ok(gamma_g2) => match G2Point::decoding(b.subrange(160, 224)) {
                            Err(e) => Err(e),
                            Ok(delta_g2) => match g1s_decoding(
                                b.subrange(232, b.len() as int),
                                n as nat,
                            ) {
                                Err(e) => Err(e),
                                Ok(gamma_abc_g1) => Ok(
                                    VerifyingKeyView {
                                        alpha_g1,
                                        beta_g2,
                                        gamma_g2,
                                        delta_g2,
                                        gamma_abc_g1,
                                    },
                                ),
                            },
                        },
                    },
                },
            }
        }
    }
}

/// A Groth16 verifying key.
#[derive(Clone, Debug, PartialEq, Eq)]
pub struct VerifyingKey {
    /// alpha in G1.
    pub alpha_g1: G1Point,
    /// beta in G2.
    pub beta_g2: G2Point,
    /// gamma in G2.
    pub gamma_g2: G2Point,
    /// delta in G2.
    pub delta_g2: G2Point,
    /// One point for the constant and one for each public input.
    pub gamma_abc_g1: Vec<G1Point>,
}

impl View for VerifyingKey {
    type V = VerifyingKeyView;

    /// The points of the key, the last field as a sequence.
    open spec fn view(&self) -> VerifyingKeyView {
        VerifyingKeyView {
            alpha_g1: self.alpha_g1,
            beta_g2: self.beta_g2,
            gamma_g2: self.gamma_g2,
            delta_g2: self.delta_g2,
            gamma_abc_g1: self.gamma_abc_g1@,
        }
    }
}

impl VerifyingKey {
    /// Encodes the key.
    pub fn encode(&self) -> (r: Vec<u8>)
        ensures
            r@ == self@.encoding(),
            self@.valid() ==> VerifyingKeyView::decoding(r@) == Ok::<VerifyingKeyView, DecodeError>(
                self@,
            ),
    {
        proof {
            if self@.valid() {
                lemma_key_decode_encode(self@);
            }
        }
        let mut out = self.alpha_g1.encode();
        let beta = self.beta_g2.encode();
        let gamma = self.gamma_g2.encode();
        let delta = self.delta_g2.encode();
        let count = encode_count(self.gamma_abc_g1.len() as u64);
        let points = encode_g1s(&self.gamma_abc_g1);
        out.extend_from_slice(beta.as_slice());
        out.extend_from_slice(gamma.as_slice());
        out.extend_from_slice(delta.as_slice());
        out.extend_from_slice(count.as_slice());
        out.extend_from_slice(points.as_slice());
        assert(out@ =~= self@.encoding());
        out
    }

    /// Decodes a key.
    pub fn decode(b: &[u8]) -> (r: Result<VerifyingKey, DecodeError>)
        ensures
            match r {
                Ok(vk) => VerifyingKeyView::decoding(b@) == Ok::<VerifyingKeyView, DecodeError>(vk@)
                    && vk@.valid() && vk@.encoding() == b@,
                Err(e) => VerifyingKeyView::decoding(b@) == Err::<VerifyingKeyView, DecodeError>(e),
            },
    {
        proof {
            if let Ok(vk) = VerifyingKeyView::decoding(b@) {
                lemma_key_encode_decode(b@, vk);
            }
        }
        reveal(VerifyingKeyView::decoding);
        if b.len() < KEY_HEAD_LEN {
            return Err(DecodeError::Truncated);
        }
        let n: u64 = read_word(b, KEY_POINTS_LEN);
        let room: usize = (b.len() - KEY_HEAD_LEN) / 32;
        if n > room as u64 {
            return Err(DecodeError::Truncated);
        }
        let count: usize = n as usize;
        if b.len() > KEY_HEAD_LEN + 32 * count {
            return Err(DecodeError::TrailingData);
        }
        let alpha_g1 = match G1Point::decode(slice_subrange(b, 0, 32)) {
            Ok(p) => p,
            Err(e) => {
                return Err(e);
            },
        };
        let beta_g2 = match G2Point::decode(slice_subrange(b, 32, 96)) {
            Ok(p) => p,
            Err(e) => {
                return Err(e);
            },
        };
        let gamma_g2 = match G2Point::decode(slice_subrange(b, 96, 160)) {
            Ok(p) => p,
            Err(e) => {
                return Err(e);
            },
        };
        let delta_g2 = match G2Point::decode(slice_subrange(b, 160, 224)) {
            Ok(p) => p,
            Err(e) => {
                return Err(e);
            },
        };
        let gamma_abc_g1 = match decode_g1s(slice_subrange(b, KEY_HEAD_LEN, b.len()), count) {
            Ok(ps) => ps,
            Err(e) => {
                return Err(e);
            },
        };
        Ok(VerifyingKey { alpha_g1, beta_g2, gamma_g2, delta_g2, gamma_abc_g1 })
    }
}

/// Decoding the encoding of a valid key gives the key back.
pub proof fn lemma_key_decode_encode(vk: VerifyingKeyView)
    requires
        vk.valid(),
    ensures
        VerifyingKeyView::decoding(vk.encoding()) == Ok::<VerifyingKeyView, DecodeError>(vk),
{
    reveal(VerifyingKeyView::decoding);
    let b = vk.encoding();
    let n = vk.gamma_abc_g1.len() as u64;
    let head = vk.alpha_g1.encoding() + vk.beta_g2.encoding() + vk.gamma_g2.encoding()
        + vk.delta_g2.encoding();
    lemma_g1s_len(vk.gamma_abc_g1);
    assert(head.len() == KEY_POINTS_LEN);
    assert(b.subrange(0, 32) =~= vk.alpha_g1.encoding());
    assert(b.subrange(32, 96) =~= vk.beta_g2.encoding());
    assert(b.subrange(96, 160) =~= vk.gamma_g2.encoding());
    assert(b.subrange(160, 224) =~= vk.delta_g2.encoding());
    assert(b.subrange(224, 232) =~= count_encoding(n));
    assert(b.subrange(232, b.len() as int) =~= g1s_encoding(vk.gamma_abc_g1));
    lemma_word_of_its_bytes(n);
    lemma_g1_decode_encode(vk.alpha_g1);
    lemma_g2_decode_encode(vk.beta_g2);
    lemma_g2_decode_encode(vk.gamma_g2);
    lemma_g2_decode_encode(vk.delta_g2);
    lemma_g1s_decode_encode(vk.gamma_abc_g1);
}

/// Bytes that decode to a key are the encoding of that key, and the key is
/// valid.
pub proof fn lemma_key_encode_decode(b: Seq<u8>, vk: VerifyingKeyView)
    requires
        VerifyingKeyView::decoding(b) == Ok::<VerifyingKeyView, DecodeError>(vk),
    ensures
        vk.encoding() == b,
        vk.valid(),
        b.len() == KEY_HEAD_LEN + 32 * vk.gamma_abc_g1.len(),
{
    reveal(VerifyingKeyView::decoding);
    let n = word_of_bytes(b.subrange(224, 232));
    let tail = b.subrange(232, b.len() as int);
    lemma_g1_encode_decode(b.subrange(0, 32), vk.alpha_g1);
    lemma_g2_encode_decode(b.subrange(32, 96), vk.beta_g2);
    lemma_g2_encode_decode(b.subrange(96, 160), vk.gamma_g2);
    lemma_g2_encode_decode(b.subrange(160, 224), vk.delta_g2);
    lemma_g1s_encode_decode(tail, n as nat, vk.gamma_abc_g1);
    lemma_bytes_of_word(b.subrange(224, 232));
    assert(count_encoding(n) =~= b.subrange(224, 232));
    assert(tail.subrange(0, (32 * n) as int) =~= tail);
    assert(b =~= b.subrange(0, 32) + b.subrange(32, 96) + b.subrange(96, 160) + b.subrange(
        160,
        224,
    ) + b.subrange(224, 232) + tail);
}

} // verus!
