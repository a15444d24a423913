//! Proving keys and their encoding.

use crate::bigint::{lemma_bytes_of_word, lemma_word_of_its_bytes, read_word, word_of_bytes};
use crate::curve::{lemma_g1_decode_encode, lemma_g1_encode_decode, G1Point, G2Point};
use crate::error::DecodeError;
use crate::keys::{
    lemma_key_decode_encode, lemma_key_encode_decode, VerifyingKey, VerifyingKeyView,
    KEY_HEAD_LEN, KEY_POINTS_LEN,
};
use crate::sequences::{
    count_encoding, decode_g1s, decode_g2s, encode_count, encode_g1s, encode_g2s, g1s_decoding,
    g1s_encoding, g1s_valid, g2s_decoding, g2s_encoding, g2s_valid, lemma_g1s_decode_encode,
    lemma_g1s_encode_decode, lemma_g1s_len, lemma_g2s_decode_encode, lemma_g2s_encode_decode,
    lemma_g2s_len,
};
use vstd::prelude::*;
use vstd::slice::slice_subrange;

verus! {

/// The bytes of a counted sequence of points of G1: the count in eight
/// bytes, then the points.
pub open spec fn counted_g1s(ps: Seq<G1Point>) -> Seq<u8> {
    count_encoding(ps.len() as u64) + g1s_encoding(ps)
}

/// The bytes of a counted sequence of points of G2.
pub open spec fn counted_g2s(ps: Seq<G2Point>) -> Seq<u8> {
    count_encoding(ps.len() as u64) + g2s_encoding(ps)
}

/// The count that stands at `at`.
pub open spec fn section_count(b: Seq<u8>, at: int) -> u64 {
    word_of_bytes(b.subrange(at, at + 8))
}

/// The place where the counted sequence that starts at `at` ends, if all of
/// it is there. Its items have `width` bytes each.
pub open spec fn section_end(b: Seq<u8>, at: int, width: int) -> Option<int> {
    if at + 8 > b.len() || at + 8 + width * section_count(b, at) > b.len() {
        None
    } else {
        Some(at + 8 + width * section_count(b, at))
    }
}

/// The count of the sequence that starts at `at` and the place where it
/// ends, if all of it is there.
pub fn read_section(b: &[u8], at: usize, wide: bool) -> (r: Option<(usize, usize)>)
    requires
        at <= b@.len(),
    ensures
        match section_end(b@, at as int, if wide { 64int } else { 32int }) {
            Some(end) => r == Some((section_count(b@, at as int) as usize, end as usize))
                && section_count(b@, at as int) <= usize::MAX && end <= b@.len(),
            None => r is None,
        },
{
    if b.len() - at < 8 {
        return None;
    }
    let n: u64 = read_word(b, at);
    let left: usize = b.len() - at - 8;
    if wide {
        if n > (left / 64) as u64 {
            return None;
        }
        let count: usize = n as usize;
        Some((count, at + 8 + 64 * count))
    } else {
        if n > (left / 32) as u64 {
            return None;
        }
        let count: usize = n as usize;
        Some((count, at + 8 + 32 * count))
    }
}

/// A proving key as a value of the model.
pub struct ProvingKeyView {
    pub vk: VerifyingKeyView,
    pub beta_g1: G1Point,
    pub delta_g1: G1Point,
    pub a_query: Seq<G1Point>,
    pub b_g1_query: Seq<G1Point>,
    pub b_g2_query: Seq<G2Point>,
    pub h_query: Seq<G1Point>,
    pub l_query: Seq<G1Point>,
}

/// The places where the parts of an encoded proving key end: the verifying
/// key and the five counted sequences.
pub struct Layout {
    pub vk: int,
    pub a: int,
    pub b_g1: int,
    pub b_g2: int,
    pub h: int,
    pub l: int,
}

/// The layout of an encoded proving key, or why it has none: a part is cut
/// short, or bytes are left after the last part.
pub open spec fn layout(b: Seq<u8>) -> Result<Layout, DecodeError> {
    match section_end(b, KEY_POINTS_LEN as int, 32) {
        None => Err(DecodeError::Truncated),
        Some(vk) => match section_end(b, vk + 64, 32) {
            None => Err(DecodeError::Truncated),
            Some(a) => match section_end(b, a, 32) {
                None => Err(DecodeError::Truncated),
                Some(b_g1) => match section_end(b, b_g1, 64) {
                    None => Err(DecodeError::Truncated),
                    Some(b_g2) => match section_end(b, b_g2, 32) {
                        None => Err(DecodeError::Truncated),
                        Some(h) => match section_end(b, h, 32) {
                            None => Err(DecodeError::Truncated),
                            Some(l) => if l < b.len() {
                                Err(DecodeError::TrailingData)
                            } else {
                                Ok(Layout { vk, a, b_g1, b_g2, h, l })
                            },
                        },
                    },
                },
            },
        },
    }
}

impl ProvingKeyView {
    /// Whether a decoder accepts each point, and each sequence can be
    /// counted in 64 bits.
    pub open spec fn valid(self) -> bool {
        &&& self.vk.valid()
        &&& self.beta_g1.valid()
        &&& self.delta_g1.valid()
        &&& g1s_valid(self.a_query)
        &&& g1s_valid(self.b_g1_query)
        &&& g2s_valid(self.b_g2_query)
        &&& g1s_valid(self.h_query)
        &&& g1s_valid(self.l_query)
        &&& self.a_query.len() <= u64::MAX
        &&& self.b_g1_query.len() <= u64::MAX
        &&& self.b_g2_query.len() <= u64::MAX
        &&& self.h_query.len() <= u64::MAX
        &&& self.l_query.len() <= u64::MAX
    }

    /// The bytes that stand for the key: the verifying key, two points of
    /// G1, and five counted sequences.
    pub open spec fn encoding(self) -> Seq<u8> {
        self.vk.encoding() + self.beta_g1.encoding() + self.delta_g1.encoding() + counted_g1s(
            self.a_query,
        ) + counted_g1s(self.b_g1_query) + counted_g2s(self.b_g2_query) + counted_g1s(
            self.h_query,
        ) + counted_g1s(self.l_query)
    }

    /// The key whose parts lie in `b` as the layout `at` says, or why a part
    /// stands for none. The parts are decoded in their order.
    pub open spec fn parts(b: Seq<u8>, at: Layout) -> Result<ProvingKeyView, DecodeError> {
        match VerifyingKeyView::decoding(b.subrange(0, at.vk)) {
            Err(e) => Err(e),
            Ok(vk) => match G1Point::decoding(b.subrange(at.vk, at.vk + 32)) {
                Err(e) => Err(e),
                Ok(beta_g1) => match G1Point::decoding(b.subrange(at.vk + 32, at.vk + 64)) {
                    Err(e) => Err(e),
                    Ok(delta_g1) => match g1s_decoding(
                        b.subrange(at.vk + 72, at.a),
                        section_count(b, at.vk + 64) as nat,
                    ) {
                        Err(e) => Err(e),
                        Ok(a_query) => match g1s_decoding(
                            b.subrange(at.a + 8, at.b_g1),
                            section_count(b, at.a) as nat,
                        ) {
                            Err(e) => Err(e),
                            Ok(b_g1_query) => match g2s_decoding(
                                b.subrange(at.b_g1 + 8, at.b_g2),
                                section_count(b, at.b_g1) as nat,
                            ) {
                                Err(e) => Err(e),
                                Ok(b_g2_query) => match g1s_decoding(
                                    b.subrange(at.b_g2 + 8, at.h),
                                    section_count(b, at.b_g2) as nat,
                                ) {
                                    Err(e) => Err(e),
                                    Ok(h_query) => match g1s_decoding(
                                        b.subrange(at.h + 8, at.l),
                                        section_count(b, at.h) as nat,
                                    ) {
                                        Err(e) => Err(e),
                                        Ok(l_query) => Ok(
                                            ProvingKeyView {
                                                vk,
                                                beta_g1,
                                                delta_g1,
                                                a_query,
                                                b_g1_query,
                                                b_g2_query,
                                                h_query,
                                                l_query,
                                            },
                                        ),
                                    },
                                },
                            },
                        },
                    },
                },
            },
        }
    }

    /// The key that a byte string stands for, or why it stands for none.
    /// The layout is looked at first, then the parts in their order.
    pub open spec fn decoding(b: Seq<u8>) -> Result<ProvingKeyView, DecodeError> {
        match layout(b) {
            Err(e) => Err(e),
            Ok(at) => ProvingKeyView::parts(b, at),
        }
    }
}

/// A Groth16 proving key.
#[derive(Clone, Debug, PartialEq, Eq)]
pub struct ProvingKey {
    pub vk: VerifyingKey,
    /// beta in G1.
    pub beta_g1: G1Point,
    /// delta in G1.
    pub delta_g1: G1Point,
    pub a_query: Vec<G1Point>,
    pub b_g1_query: Vec<G1Point>,
    pub b_g2_query: Vec<G2Point>,
    pub h_query: Vec<G1Point>,
    pub l_query: Vec<G1Point>,
}

impl View for ProvingKey {
    type V = ProvingKeyView;

    /// The points of the key, each query as a sequence.
    open spec fn view(&self) -> ProvingKeyView {
        ProvingKeyView {
            vk: self.vk@,
            beta_g1: self.beta_g1,
            delta_g1: self.delta_g1,
            a_query: self.a_query@,
            b_g1_query: self.b_g1_query@,
            b_g2_query: self.b_g2_query@,
            h_query: self.h_query@,
            l_query: self.l_query@,
        }
    }
}

/// Encodes a counted sequence of points of G1.
pub fn encode_counted_g1s(ps: &Vec<G1Point>) -> (r: Vec<u8>)
    ensures
        r@ == counted_g1s(ps@),
{
    let mut out = encode_count(ps.len() as u64);
    let body = encode_g1s(ps);
    out.extend_from_slice(body.as_slice());
    assert(out@ =~= counted_g1s(ps@));
    out
}

/// Encodes a counted sequence of points of G2.
pub fn encode_counted_g2s(ps: &Vec<G2Point>) -> (r: Vec<u8>)
    ensures
        r@ == counted_g2s(ps@),
{
    let mut out = encode_count(ps.len() as u64);
    let body = encode_g2s(ps);
    out.extend_from_slice(body.as_slice());
    assert(out@ =~= counted_g2s(ps@));
    out
}

/// The places where the parts of an encoded proving key end, and the
/// counts of its five sequences.
#[derive(Clone, Copy, Debug, PartialEq, Eq, Structural)]
pub struct Frame {
    pub vk: usize,
    pub a: usize,
    pub b_g1: usize,
    pub b_g2: usize,
    pub h: usize,
    pub l: usize,
    pub a_count: usize,
    pub b_g1_count: usize,
    pub b_g2_count: usize,
    pub h_count: usize,
    pub l_count: usize,
}

impl Frame {
    /// The places alone.
    pub open spec fn layout(self) -> Layout {
        Layout {
            vk: self.vk as int,
            a: self.a as int,
            b_g1: self.b_g1 as int,
            b_g2: self.b_g2 as int,
            h: self.h as int,
            l: self.l as int,
        }
    }

    /// Whether the places and counts are those of the byte string `b`.
    pub open spec fn frames(self, b: Seq<u8>) -> bool {
        &&& layout(b) == Ok::<Layout, DecodeError>(self.layout())
        &&& KEY_HEAD_LEN <= self.vk
        &&& self.vk + 72 <= self.a
        &&& self.a + 8 <= self.b_g1
        &&& self.b_g1 + 8 <= self.b_g2
        &&& self.b_g2 + 8 <= self.h
        &&& self.h + 8 <= self.l
        &&& self.l == b.len()
        &&& self.a_count == section_count(b, self.vk + 64)
        &&& self.b_g1_count == section_count(b, self.a as int)
        &&& self.b_g2_count == section_count(b, self.b_g1 as int)
        &&& self.h_count == section_count(b, self.b_g2 as int)
        &&& self.l_count == section_count(b, self.h as int)
        &&& self.a == self.vk + 72 + 32 * self.a_count
        &&& self.b_g1 == self.a + 8 + 32 * self.b_g1_count
        &&& self.b_g2 == self.b_g1 + 8 + 64 * self.b_g2_count
        &&& self.h == self.b_g2 + 8 + 32 * self.h_count
        &&& self.l == self.h + 8 + 32 * self.l_count
    }
}

/// Finds the parts of an encoded proving key.
pub fn frame(b: &[u8]) -> (r: Result<Frame, DecodeError>)
    ensures
        match r {
            Ok(f) => f.frames(b@),
            Err(e) => layout(b@) == Err::<Layout, DecodeError>(e),
        },
{
    if b.len() < KEY_POINTS_LEN {
        return Err(DecodeError::Truncated);
    }
    let vk = match read_section(b, KEY_POINTS_LEN, false) {
        Some(s) => s.1,
        None => {
            return Err(DecodeError::Truncated);
        },
    };
    if b.len() - vk < 64 {
        return Err(DecodeError::Truncated);
    }
    let (a_count, a) = match read_section(b, vk + 64, false) {
        Some(s) => s,
        None => {
            return Err(DecodeError::Truncated);
        },
    };
    let (b_g1_count, b_g1) = match read_section(b, a, false) {
        Some(s) => s,
        None => {
            return Err(DecodeError::Truncated);
        },
    };
    let (b_g2_count, b_g2) = match read_section(b, b_g1, true) {
        Some(s) => s,
        None => {
            return Err(DecodeError::Truncated);
        },
    };
    let (h_count, h) = match read_section(b, b_g2, false) {
        Some(s) => s,
        None => {
            return Err(DecodeError::Truncated);
        },
    };
    let (l_count, l) = match read_section(b, h, false) {
        Some(s) => s,
        None => {
            return Err(DecodeError::Truncated);
        },
    };
    if l < b.len() {
        return Err(DecodeError::TrailingData);
    }
    Ok(Frame { vk, a, b_g1, b_g2, h, l, a_count, b_g1_count, b_g2_count, h_count, l_count })
}

impl ProvingKey {
    /// Decodes a key.
    pub fn decode(b: &[u8]) -> (r: Result<ProvingKey, DecodeError>)
        ensures
            match r {
                Ok(pk) => ProvingKeyView::decoding(b@) == Ok::<ProvingKeyView, DecodeError>(pk@)
                    && pk@.valid() && pk@.encoding() == b@,
                Err(e) => ProvingKeyView::decoding(b@) == Err::<ProvingKeyView, DecodeError>(e),
            },
    {
        proof {
            if let Ok(pk) = ProvingKeyView::decoding(b@) {
                lemma_proving_key_encode_decode(b@, pk);
            }
        }
        let f = match frame(b) {
            Ok(f) => f,
            Err(e) => {
                return Err(e);
            },
        };
        let vk = match VerifyingKey::decode(slice_subrange(b, 0, f.vk)) {
            Ok(v) => v,
            Err(e) => {
                return Err(e);
            },
        };
        let beta_g1 = match G1Point::decode(slice_subrange(b, f.vk, f.vk + 32)) {
            Ok(v) => v,
            Err(e) => {
                return Err(e);
            },
        };
        let delta_g1 = match G1Point::decode(slice_subrange(b, f.vk + 32, f.vk + 64)) {
            Ok(v) => v,
            Err(e) => {
                return Err(e);
            },
        };
        let a_query = match decode_g1s(slice_subrange(b, f.vk + 72, f.a), f.a_count) {
            Ok(v) => v,
            Err(e) => {
                return Err(e);
            },
        };
        let b_g1_query = match decode_g1s(slice_subrange(b, f.a + 8, f.b_g1), f.b_g1_count) {
            Ok(v) => v,
            Err(e) => {
                return Err(e);
            },
        };
        let b_g2_query = match decode_g2s(slice_subrange(b, f.b_g1 + 8, f.b_g2), f.b_g2_count) {
            Ok(v) => v,
            Err(e) => {
                return Err(e);
            },
        };
        let h_query = match decode_g1s(slice_subrange(b, f.b_g2 + 8, f.h), f.h_count) {
            Ok(v) => v,
            Err(e) => {
                return Err(e);
            },
        };
        let l_query = match decode_g1s(slice_subrange(b, f.h + 8, f.l), f.l_count) {
            Ok(v) => v,
            Err(e) => {
                return Err(e);
            },
        };
        Ok(
            ProvingKey {
                vk,
                beta_g1,
                delta_g1,
                a_query,
                b_g1_query,
                b_g2_query,
                h_query,
                l_query,
            },
        )
    }

    /// Encodes the key.
    pub fn encode(&self) -> (r: Vec<u8>)
        ensures
            r@ == self@.encoding(),
            self@.valid() ==> ProvingKeyView::decoding(r@) == Ok::<ProvingKeyView, DecodeError>(
                self@,
            ),
    {
        proof {
            if self@.valid() {
                lemma_proving_key_decode_encode(self@);
            }
        }
        let mut out = self.vk.encode();
        let beta = self.beta_g1.encode();
        let delta = self.delta_g1.encode();
        let a = encode_counted_g1s(&self.a_query);
        let b_g1 = encode_counted_g1s(&self.b_g1_query);
        let b_g2 = encode_counted_g2s(&self.b_g2_query);
        let h = encode_counted_g1s(&self.h_query);
        let l = encode_counted_g1s(&self.l_query);
        out.extend_from_slice(beta.as_slice());
        out.extend_from_slice(delta.as_slice());
        out.extend_from_slice(a.as_slice());
        out.extend_from_slice(b_g1.as_slice());
        out.extend_from_slice(b_g2.as_slice());
        out.extend_from_slice(h.as_slice());
        out.extend_from_slice(l.as_slice());
        assert(out@ =~= self@.encoding());
        out
    }
}

/// A counted sequence that lies in a byte string at `at` is found there with
/// its count.
pub proof fn lemma_section_found(b: Seq<u8>, at: int, n: u64, width: int)
    requires
        0 <= at,
        0 <= width,
        at + 8 + width * n <= b.len(),
        b.subrange(at, at + 8) == count_encoding(n),
    ensures
        section_count(b, at) == n,
        section_end(b, at, width) == Some(at + 8 + width * n),
{
    lemma_word_of_its_bytes(n);
    assert(width * n >= 0) by (nonlinear_arith)
        requires
            width >= 0,
            n >= 0,
    ;
}

/// A part of the front of a concatenation is that part of the front.
pub proof fn lemma_front(p: Seq<u8>, x: Seq<u8>, i: int, j: int)
    requires
        0 <= i <= j <= p.len(),
    ensures
        (p + x).subrange(i, j) == p.subrange(i, j),
{
    assert((p + x).subrange(i, j) =~= p.subrange(i, j));
}

/// The back of a concatenation is what was appended.
pub proof fn lemma_back(p: Seq<u8>, x: Seq<u8>)
    ensures
        (p + x).subrange(p.len() as int, (p.len() + x.len()) as int) == x,
        (p + x).len() == p.len() + x.len(),
{
    assert((p + x).subrange(p.len() as int, (p.len() + x.len()) as int) =~= x);
}

/// A counted sequence of points of G1 that is appended to `p` is found
/// there, and decodes to its points if they are valid.
pub proof fn lemma_counted_g1s_appended(p: Seq<u8>, ps: Seq<G1Point>)
    requires
        g1s_valid(ps),
        ps.len() <= u64::MAX,
    ensures
        (p + counted_g1s(ps)).len() == p.len() + 8 + 32 * ps.len(),
        section_count(p + counted_g1s(ps), p.len() as int) == ps.len(),
        section_end(p + counted_g1s(ps), p.len() as int, 32) == Some(
            (p.len() + 8 + 32 * ps.len()) as int,
        ),
        g1s_decoding(
            (p + counted_g1s(ps)).subrange((p.len() + 8) as int, (p.len() + 8 + 32 * ps.len()) as int),
            ps.len(),
        ) == Ok::<Seq<G1Point>, DecodeError>(ps),
{
    let b = p + counted_g1s(ps);
    let n = ps.len() as u64;
    let at = p.len() as int;
    lemma_g1s_len(ps);
    assert(b.subrange(at, at + 8) =~= count_encoding(n));
    assert(b.subrange(at + 8, at + 8 + 32 * ps.len()) =~= g1s_encoding(ps));
    lemma_section_found(b, at, n, 32);
    lemma_g1s_decode_encode(ps);
}

/// The same for a sequence of points of G2.
pub proof fn lemma_counted_g2s_appended(p: Seq<u8>, ps: Seq<G2Point>)
    requires
        g2s_valid(ps),
        ps.len() <= u64::MAX,
    ensures
        (p + counted_g2s(ps)).len() == p.len() + 8 + 64 * ps.len(),
        section_count(p + counted_g2s(ps), p.len() as int) == ps.len(),
        section_end(p + counted_g2s(ps), p.len() as int, 64) == Some(
            (p.len() + 8 + 64 * ps.len()) as int,
        ),
        g2s_decoding(
            (p + counted_g2s(ps)).subrange((p.len() + 8) as int, (p.len() + 8 + 64 * ps.len()) as int),
            ps.len(),
        ) == Ok::<Seq<G2Point>, DecodeError>(ps),
{
    let b = p + counted_g2s(ps);
    let n = ps.len() as u64;
    let at = p.len() as int;
    lemma_g2s_len(ps);
    assert(b.subrange(at, at + 8) =~= count_encoding(n));
    assert(b.subrange(at + 8, at + 8 + 64 * ps.len()) =~= g2s_encoding(ps));
    lemma_section_found(b, at, n, 64);
    lemma_g2s_decode_encode(ps);
}

/// Appending bytes to a byte string in which a counted sequence was found
/// leaves the sequence where it was.
pub proof fn lemma_section_kept(p: Seq<u8>, x: Seq<u8>, at: int, width: int)
    requires
        0 <= at,
        section_end(p, at, width) is Some,
        section_end(p, at, width).unwrap() <= p.len(),
    ensures
        section_count(p + x, at) == section_count(p, at),
        section_end(p + x, at, width) == section_end(p, at, width),
{
    lemma_front(p, x, at, at + 8);
}

/// Decoding the encoding of a valid key gives the key back.
pub proof fn lemma_proving_key_decode_encode(pk: ProvingKeyView)
    requires
        pk.valid(),
    ensures
        ProvingKeyView::decoding(pk.encoding()) == Ok::<ProvingKeyView, DecodeError>(pk),
{
    let v = pk.vk.encoding();
    let n0 = pk.vk.gamma_abc_g1.len() as u64;
    let with_beta = v + pk.beta_g1.encoding();
    let with_delta = with_beta + pk.delta_g1.encoding();
    let with_a = with_delta + counted_g1s(pk.a_query);
    let with_b_g1 = with_a + counted_g1s(pk.b_g1_query);
    let with_b_g2 = with_b_g1 + counted_g2s(pk.b_g2_query);
    let with_h = with_b_g2 + counted_g1s(pk.h_query);
    let b = with_h + counted_g1s(pk.l_query);
    assert(b == pk.encoding());
    let e0: int = v.len() as int;
    let s1: int = e0 + 64;
    let ea: int = with_a.len() as int;
    let eb1: int = with_b_g1.len() as int;
    let eb2: int = with_b_g2.len() as int;
    let eh: int = with_h.len() as int;
    let el: int = b.len() as int;
    // the verifying key and its count
    assert(e0 == KEY_HEAD_LEN + 32 * n0 && section_end(v, 224, 32) == Some(e0)) by {
        lemma_g1s_len(pk.vk.gamma_abc_g1);
        assert(v.subrange(224, 232) =~= count_encoding(n0));
        lemma_section_found(v, 224, n0, 32);
    }
    lemma_back(v, pk.beta_g1.encoding());
    lemma_back(with_beta, pk.delta_g1.encoding());
    assert(with_delta.len() == s1);
    lemma_counted_g1s_appended(with_delta, pk.a_query);
    lemma_counted_g1s_appended(with_a, pk.b_g1_query);
    lemma_counted_g2s_appended(with_b_g1, pk.b_g2_query);
    lemma_counted_g1s_appended(with_b_g2, pk.h_query);
    lemma_counted_g1s_appended(with_h, pk.l_query);
    // the places in the whole byte string
    assert(section_end(b, 224, 32) == Some(e0)) by {
        lemma_section_kept(v, pk.beta_g1.encoding(), 224, 32);
        lemma_section_kept(with_beta, pk.delta_g1.encoding(), 224, 32);
        lemma_section_kept(with_delta, counted_g1s(pk.a_query), 224, 32);
        lemma_section_kept(with_a, counted_g1s(pk.b_g1_query), 224, 32);
        lemma_section_kept(with_b_g1, counted_g2s(pk.b_g2_query), 224, 32);
        lemma_section_kept(with_b_g2, counted_g1s(pk.h_query), 224, 32);
        lemma_section_kept(with_h, counted_g1s(pk.l_query), 224, 32);
    }
    assert(section_end(b, s1, 32) == Some(ea) && section_count(b, s1) == pk.a_query.len()) by {
        lemma_section_kept(with_a, counted_g1s(pk.b_g1_query), s1, 32);
        lemma_section_kept(with_b_g1, counted_g2s(pk.b_g2_query), s1, 32);
        lemma_section_kept(with_b_g2, counted_g1s(pk.h_query), s1, 32);
        lemma_section_kept(with_h, counted_g1s(pk.l_query), s1, 32);
    }
    assert(section_end(b, ea, 32) == Some(eb1) && section_count(b, ea) == pk.b_g1_query.len()) by {
        lemma_section_kept(with_b_g1, counted_g2s(pk.b_g2_query), ea, 32);
        lemma_section_kept(with_b_g2, counted_g1s(pk.h_query), ea, 32);
        lemma_section_kept(with_h, counted_g1s(pk.l_query), ea, 32);
    }
    assert(section_end(b, eb1, 64) == Some(eb2) && section_count(b, eb1) == pk.b_g2_query.len())
        by {
        lemma_section_kept(with_b_g2, counted_g1s(pk.h_query), eb1, 64);
        lemma_section_kept(with_h, counted_g1s(pk.l_query), eb1, 64);
    }
    assert(section_end(b, eb2, 32) == Some(eh) && section_count(b, eb2) == pk.h_query.len()) by {
        lemma_section_kept(with_h, counted_g1s(pk.l_query), eb2, 32);
    }
    assert(section_end(b, eh, 32) == Some(el) && section_count(b, eh) == pk.l_query.len());
    let at = Layout { vk: e0, a: ea, b_g1: eb1, b_g2: eb2, h: eh, l: el };
    assert(layout(b) == Ok::<Layout, DecodeError>(at));
    // the parts in the whole byte string
    assert(b.subrange(0, e0) == v) by {
        lemma_front(v, pk.beta_g1.encoding(), 0, e0);
        lemma_front(with_beta, pk.delta_g1.encoding(), 0, e0);
        lemma_front(with_delta, counted_g1s(pk.a_query), 0, e0);
        lemma_front(with_a, counted_g1s(pk.b_g1_query), 0, e0);
        lemma_front(with_b_g1, counted_g2s(pk.b_g2_query), 0, e0);
        lemma_front(with_b_g2, counted_g1s(pk.h_query), 0, e0);
        lemma_front(with_h, counted_g1s(pk.l_query), 0, e0);
        assert(v.subrange(0, e0) =~= v);
    }
    assert(b.subrange(e0, e0 + 32) == pk.beta_g1.encoding()) by {
        lemma_front(with_beta, pk.delta_g1.encoding(), e0, e0 + 32);
        lemma_front(with_delta, counted_g1s(pk.a_query), e0, e0 + 32);
        lemma_front(with_a, counted_g1s(pk.b_g1_query), e0, e0 + 32);
        lemma_front(with_b_g1, counted_g2s(pk.b_g2_query), e0, e0 + 32);
        lemma_front(with_b_g2, counted_g1s(pk.h_query), e0, e0 + 32);
        lemma_front(with_h, counted_g1s(pk.l_query), e0, e0 + 32);
    }
    assert(b.subrange(e0 + 32, e0 + 64) == pk.delta_g1.encoding()) by {
        lemma_front(with_delta, counted_g1s(pk.a_query), e0 + 32, e0 + 64);
        lemma_front(with_a, counted_g1s(pk.b_g1_query), e0 + 32, e0 + 64);
        lemma_front(with_b_g1, counted_g2s(pk.b_g2_query), e0 + 32, e0 + 64);
        lemma_front(with_b_g2, counted_g1s(pk.h_query), e0 + 32, e0 + 64);
        lemma_front(with_h, counted_g1s(pk.l_query), e0 + 32, e0 + 64);
    }
    assert(b.subrange(s1 + 8, ea) == with_a.subrange(s1 + 8, ea)) by {
        lemma_front(with_a, counted_g1s(pk.b_g1_query), s1 + 8, ea);
        lemma_front(with_b_g1, counted_g2s(pk.b_g2_query), s1 + 8, ea);
        lemma_front(with_b_g2, counted_g1s(pk.h_query), s1 + 8, ea);
        lemma_front(with_h, counted_g1s(pk.l_query), s1 + 8, ea);
    }
    assert(b.subrange(ea + 8, eb1) == with_b_g1.subrange(ea + 8, eb1)) by {
        lemma_front(with_b_g1, counted_g2s(pk.b_g2_query), ea + 8, eb1);
        lemma_front(with_b_g2, counted_g1s(pk.h_query), ea + 8, eb1);
        lemma_front(with_h, counted_g1s(pk.l_query), ea + 8, eb1);
    }
    assert(b.subrange(eb1 + 8, eb2) == with_b_g2.subrange(eb1 + 8, eb2)) by {
        lemma_front(with_b_g2, counted_g1s(pk.h_query), eb1 + 8, eb2);
        lemma_front(with_h, counted_g1s(pk.l_query), eb1 + 8, eb2);
    }
    assert(b.subrange(eb2 + 8, eh) == with_h.subrange(eb2 + 8, eh)) by {
        lemma_front(with_h, counted_g1s(pk.l_query), eb2 + 8, eh);
    }
    lemma_key_decode_encode(pk.vk);
    lemma_g1_decode_encode(pk.beta_g1);
    lemma_g1_decode_encode(pk.delta_g1);
    assert(ProvingKeyView::parts(b, at) == Ok::<ProvingKeyView, DecodeError>(pk));
}

/// A counted sequence that was found and decoded is encoded as it stands
/// in the byte string.
pub proof fn lemma_counted_g1s_back(b: Seq<u8>, at: int, end: int, ps: Seq<G1Point>)
    requires
        0 <= at,
        section_end(b, at, 32) == Some(end),
        g1s_decoding(b.subrange(at + 8, end), section_count(b, at) as nat) == Ok::<
            Seq<G1Point>,
            DecodeError,
        >(ps),
    ensures
        counted_g1s(ps) == b.subrange(at, end),
        g1s_valid(ps),
        ps.len() <= u64::MAX,
{
    let n = section_count(b, at);
    let body = b.subrange(at + 8, end);
    lemma_g1s_encode_decode(body, n as nat, ps);
    lemma_bytes_of_word(b.subrange(at, at + 8));
    assert(count_encoding(n) =~= b.subrange(at, at + 8));
    assert(body.subrange(0, 32 * n) =~= body);
    assert(b.subrange(at, end) =~= b.subrange(at, at + 8) + body);
}

/// The same for a sequence of points of G2.
pub proof fn lemma_counted_g2s_back(b: Seq<u8>, at: int, end: int, ps: Seq<G2Point>)
    requires
        0 <= at,
        section_end(b, at, 64) == Some(end),
        g2s_decoding(b.subrange(at + 8, end), section_count(b, at) as nat) == Ok::<
            Seq<G2Point>,
            DecodeError,
        >(ps),
    ensures
        counted_g2s(ps) == b.subrange(at, end),
        g2s_valid(ps),
        ps.len() <= u64::MAX,
{
    let n = section_count(b, at);
    let body = b.subrange(at + 8, end);
    lemma_g2s_encode_decode(body, n as nat, ps);
    lemma_bytes_of_word(b.subrange(at, at + 8));
    assert(count_encoding(n) =~= b.subrange(at, at + 8));
    assert(body.subrange(0, 64 * n) =~= body);
    assert(b.subrange(at, end) =~= b.subrange(at, at + 8) + body);
}

/// Bytes that decode to a key are the encoding of that key, and the key is
/// valid.
pub proof fn lemma_proving_key_encode_decode(b: Seq<u8>, pk: ProvingKeyView)
    requires
        ProvingKeyView::decoding(b) == Ok::<ProvingKeyView, DecodeError>(pk),
    ensures
        pk.encoding() == b,
        pk.valid(),
{
    let at = layout(b).unwrap();
    assert(section_end(b, KEY_POINTS_LEN as int, 32) == Some(at.vk));
    assert(section_end(b, at.vk + 64, 32) == Some(at.a));
    assert(section_end(b, at.a, 32) == Some(at.b_g1));
    assert(section_end(b, at.b_g1, 64) == Some(at.b_g2));
    assert(section_end(b, at.b_g2, 32) == Some(at.h));
    assert(section_end(b, at.h, 32) == Some(at.l));
    assert(at.l == b.len());
    lemma_key_encode_decode(b.subrange(0, at.vk), pk.vk);
    lemma_g1_encode_decode(b.subrange(at.vk, at.vk + 32), pk.beta_g1);
    lemma_g1_encode_decode(b.subrange(at.vk + 32, at.vk + 64), pk.delta_g1);
    lemma_counted_g1s_back(b, at.vk + 64, at.a, pk.a_query);
    lemma_counted_g1s_back(b, at.a, at.b_g1, pk.b_g1_query);
    lemma_counted_g2s_back(b, at.b_g1, at.b_g2, pk.b_g2_query);
    lemma_counted_g1s_back(b, at.b_g2, at.h, pk.h_query);
    lemma_counted_g1s_back(b, at.h, at.l, pk.l_query);
    assert(b =~= b.subrange(0, at.vk) + b.subrange(at.vk, at.vk + 32) + b.subrange(
        at.vk + 32,
        at.vk + 64,
    ) + b.subrange(at.vk + 64, at.a) + b.subrange(at.a, at.b_g1) + b.subrange(at.b_g1, at.b_g2)
        + b.subrange(at.b_g2, at.h) + b.subrange(at.h, at.l));
}

} // verus!
