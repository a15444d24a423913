//! Counted sequences of points, as keys hold them.

use crate::bigint::word_byte;
use crate::curve::{
    lemma_g1_decode_encode, lemma_g1_encode_decode, lemma_g2_decode_encode,
    lemma_g2_encode_decode, G1Point, G2Point,
};
use crate::error::DecodeError;
use vstd::prelude::*;
use vstd::slice::slice_subrange;

verus! {

/// The eight bytes of a count, least significant first.
pub open spec fn count_encoding(n: u64) -> Seq<u8> {
    Seq::new(8, |k: int| word_byte(n, k))
}

/// Encodes a count in eight bytes.
pub fn encode_count(n: u64) -> (r: Vec<u8>)
    ensures
        r@ == count_encoding(n),
{
    let mut out: Vec<u8> = Vec::with_capacity(8);
    let mut k: usize = 0;
    while k < 8
        invariant
            k <= 8,
            out@.len() == k,
            forall|j: int| 0 <= j < k ==> out@[j] == word_byte(n, j),
        decreases 8 - k,
    {
        let shift: u64 = (8 * k) as u64;
        assert((n >> shift) & 0xff <= 0xff) by (bit_vector);
        out.push(((n >> shift) & 0xff) as u8);
        k += 1;
    }
    assert(out@ =~= count_encoding(n));
    out
}

/// The bytes of a sequence of points of G1, one after the other.
pub open spec fn g1s_encoding(ps: Seq<G1Point>) -> Seq<u8>
    decreases ps.len(),
{
    if ps.len() == 0 {
        Seq::empty()
    } else {
        g1s_encoding(ps.drop_last()) + ps.last().encoding()
    }
}

/// The `n` points of G1 that the first `32 * n` bytes of `b` stand for, or
/// why the first of them that stands for none does so.
pub open spec fn g1s_decoding(b: Seq<u8>, n: nat) -> Result<Seq<G1Point>, DecodeError>
    decreases n,
{
    if n == 0 {
        Ok(Seq::empty())
    } else {
        match g1s_decoding(b, (n - 1) as nat) {
            Err(e) => Err(e),
            Ok(ps) => match G1Point::decoding(b.subrange(32 * (n - 1), 32 * (n as int))) {
                Err(e) => Err(e),
                Ok(p) => Ok(ps.push(p)),
            },
        }
    }
}

/// Whether a decoder accepts each point of a sequence.
pub open spec fn g1s_valid(ps: Seq<G1Point>) -> bool {
    forall|i: int| 0 <= i < ps.len() ==> (#[trigger] ps[i]).valid()
}

/// Encodes a sequence of points of G1, one after the other.
pub fn encode_g1s(ps: &Vec<G1Point>) -> (r: Vec<u8>)
    ensures
        r@ == g1s_encoding(ps@),
{
    let mut out: Vec<u8> = Vec::new();
    let mut i: usize = 0;
    while i < ps.len()
        invariant
            i <= ps@.len(),
            out@ == g1s_encoding(ps@.take(i as int)),
        decreases ps@.len() - i,
    {
        let e = ps[i].encode();
        out.extend_from_slice(e.as_slice());
        proof {
            let next = ps@.take(i + 1);
            assert(next.drop_last() =~= ps@.take(i as int));
            assert(next.last() == ps@[i as int]);
            assert(out@ =~= g1s_encoding(next.drop_last()) + next.last().encoding());
        }
        i += 1;
    }
    assert(ps@.take(ps@.len() as int) =~= ps@);
    out
}

/// Decodes `n` points of G1 from the first `32 * n` bytes of `b`.
pub fn decode_g1s(b: &[u8], n: usize) -> (r: Result<Vec<G1Point>, DecodeError>)
    requires
        32 * n <= b@.len(),
    ensures
        match r {
            Ok(ps) => g1s_decoding(b@, n as nat) == Ok::<Seq<G1Point>, DecodeError>(ps@)
                && g1s_valid(ps@) && ps@.len() == n,
            Err(e) => g1s_decoding(b@, n as nat) == Err::<Seq<G1Point>, DecodeError>(e),
        },
{
    let mut out: Vec<G1Point> = Vec::new();
    let mut i: usize = 0;
    let total: usize = b.len();
    while i < n
        invariant
            i <= n,
            32 * n <= b@.len(),
            b@.len() == total,
            out@.len() == i,
            g1s_decoding(b@, i as nat) == Ok::<Seq<G1Point>, DecodeError>(out@),
            g1s_valid(out@),
        decreases n - i,
    {
        match G1Point::decode(slice_subrange(b, 32 * i, 32 * i + 32)) {
            Ok(p) => {
                out.push(p);
            },
            Err(e) => {
                proof {
                    lemma_g1s_failure(b@, (i + 1) as nat, n as nat);
                }
                return Err(e);
            },
        }
        i += 1;
    }
    Ok(out)
}

/// Once the first `k` points fail to decode, so do the first `n`, for the
/// same reason.
pub proof fn lemma_g1s_failure(b: Seq<u8>, k: nat, n: nat)
    requires
        k <= n,
        g1s_decoding(b, k) is Err,
    ensures
        g1s_decoding(b, n) == g1s_decoding(b, k),
    decreases n - k,
{
    if k < n {
        lemma_g1s_failure(b, k, (n - 1) as nat);
    }
}

/// The encoding of a sequence of points has 32 bytes for each point.
pub proof fn lemma_g1s_len(ps: Seq<G1Point>)
    ensures
        g1s_encoding(ps).len() == 32 * ps.len(),
    decreases ps.len(),
{
    if ps.len() > 0 {
        lemma_g1s_len(ps.drop_last());
    }
}

/// What the first `n` points decode to depends on the first `32 * n` bytes
/// alone.
pub proof fn lemma_g1s_prefix(b1: Seq<u8>, b2: Seq<u8>, n: nat)
    requires
        32 * n <= b1.len(),
        32 * n <= b2.len(),
        b1.subrange(0, (32 * n) as int) == b2.subrange(0, (32 * n) as int),
    ensures
        g1s_decoding(b1, n) == g1s_decoding(b2, n),
    decreases n,
{
    if n > 0 {
        let m = (n - 1) as nat;
        let lo = (32 * m) as int;
        let hi = (32 * n) as int;
        assert(b1.subrange(0, lo) =~= b1.subrange(0, hi).subrange(0, lo));
        assert(b2.subrange(0, lo) =~= b2.subrange(0, hi).subrange(0, lo));
        lemma_g1s_prefix(b1, b2, m);
        assert(b1.subrange(lo, hi) =~= b1.subrange(0, hi).subrange(lo, hi));
        assert(b2.subrange(lo, hi) =~= b2.subrange(0, hi).subrange(lo, hi));
    }
}

/// Decoding the encoding of valid points gives the points back.
pub proof fn lemma_g1s_decode_encode(ps: Seq<G1Point>)
    requires
        g1s_valid(ps),
    ensures
        g1s_decoding(g1s_encoding(ps), ps.len()) == Ok::<Seq<G1Point>, DecodeError>(ps),
    decreases ps.len(),
{
    if ps.len() > 0 {
        let front = ps.drop_last();
        let b = g1s_encoding(ps);
        let m = front.len();
        lemma_g1s_len(front);
        lemma_g1s_len(ps);
        lemma_g1s_decode_encode(front);
        assert(b.subrange(0, (32 * m) as int) =~= g1s_encoding(front));
        assert(g1s_encoding(front).subrange(0, (32 * m) as int) =~= g1s_encoding(front));
        lemma_g1s_prefix(b, g1s_encoding(front), m);
        assert(b.subrange((32 * m) as int, (32 * (m + 1)) as int) =~= ps.last().encoding());
        lemma_g1_decode_encode(ps.last());
        assert(front.push(ps.last()) =~= ps);
        assert((ps.len() - 1) as nat == m);
        assert(g1s_decoding(b, m) == Ok::<Seq<G1Point>, DecodeError>(front));
        assert(G1Point::decoding(b.subrange(32 * (ps.len() - 1), 32 * (ps.len() as int))) == Ok::<
            G1Point,
            DecodeError,
        >(ps.last()));
    } else {
        assert(ps =~= Seq::<G1Point>::empty());
    }
}

/// Bytes that decode to points start with the encoding of those points, and
/// the points are valid.
pub proof fn lemma_g1s_encode_decode(b: Seq<u8>, n: nat, ps: Seq<G1Point>)
    requires
        32 * n <= b.len(),
        g1s_decoding(b, n) == Ok::<Seq<G1Point>, DecodeError>(ps),
    ensures
        ps.len() == n,
        g1s_encoding(ps) == b.subrange(0, (32 * n) as int),
        g1s_valid(ps),
    decreases n,
{
    if n == 0 {
        assert(g1s_encoding(ps) =~= b.subrange(0, 0));
    } else {
        let m = (n - 1) as nat;
        let front = g1s_decoding(b, m).unwrap();
        let p = G1Point::decoding(b.subrange((32 * m) as int, (32 * n) as int)).unwrap();
        lemma_g1s_encode_decode(b, m, front);
        lemma_g1_encode_decode(b.subrange((32 * m) as int, (32 * n) as int), p);
        assert(ps == front.push(p));
        assert(ps.drop_last() =~= front);
        assert(ps.last() == p);
        assert(b.subrange(0, (32 * n) as int) =~= b.subrange(0, (32 * m) as int) + b.subrange(
            (32 * m) as int,
            (32 * n) as int,
        ));
    }
}

/// The bytes of a sequence of points of G2, one after the other.
pub open spec fn g2s_encoding(ps: Seq<G2Point>) -> Seq<u8>
    decreases ps.len(),
{
    if ps.len() == 0 {
        Seq::empty()
    } else {
        g2s_encoding(ps.drop_last()) + ps.last().encoding()
    }
}

/// The `n` points of G2 that the first `64 * n` bytes of `b` stand for, or
/// why the first of them that stands for none does so.
pub open spec fn g2s_decoding(b: Seq<u8>, n: nat) -> Result<Seq<G2Point>, DecodeError>
    decreases n,
{
    if n == 0 {
        Ok(Seq::empty())
    } else {
        match g2s_decoding(b, (n - 1) as nat) {
            Err(e) => Err(e),
            Ok(ps) => match G2Point::decoding(b.subrange(64 * (n - 1), 64 * (n as int))) {
                Err(e) => Err(e),
                Ok(p) => Ok(ps.push(p)),
            },
        }
    }
}

/// Whether a decoder accepts each point of a sequence of points of G2.
pub open spec fn g2s_valid(ps: Seq<G2Point>) -> bool {
    forall|i: int| 0 <= i < ps.len() ==> (#[trigger] ps[i]).valid()
}

/// Encodes a sequence of points of G2, one after the other.
pub fn encode_g2s(ps: &Vec<G2Point>) -> (r: Vec<u8>)
    ensures
        r@ == g2s_encoding(ps@),
{
    let mut out: Vec<u8> = Vec::new();
    let mut i: usize = 0;
    while i < ps.len()
        invariant
            i <= ps@.len(),
            out@ == g2s_encoding(ps@.take(i as int)),
        decreases ps@.len() - i,
    {
        let e = ps[i].encode();
        out.extend_from_slice(e.as_slice());
        proof {
            let next = ps@.take(i + 1);
            assert(next.drop_last() =~= ps@.take(i as int));
            assert(next.last() == ps@[i as int]);
            assert(out@ =~= g2s_encoding(next.drop_last()) + next.last().encoding());
        }
        i += 1;
    }
    assert(ps@.take(ps@.len() as int) =~= ps@);
    out
}

/// Decodes `n` points of G2 from the first `64 * n` bytes of `b`.
pub fn decode_g2s(b: &[u8], n: usize) -> (r: Result<Vec<G2Point>, DecodeError>)
    requires
        64 * n <= b@.len(),
    ensures
        match r {
            Ok(ps) => g2s_decoding(b@, n as nat) == Ok::<Seq<G2Point>, DecodeError>(ps@)
                && g2s_valid(ps@) && ps@.len() == n,
            Err(e) => g2s_decoding(b@, n as nat) == Err::<Seq<G2Point>, DecodeError>(e),
        },
{
    let mut out: Vec<G2Point> = Vec::new();
    let mut i: usize = 0;
    let total: usize = b.len();
    while i < n
        invariant
            i <= n,
            64 * n <= b@.len(),
            b@.len() == total,
            out@.len() == i,
            g2s_decoding(b@, i as nat) == Ok::<Seq<G2Point>, DecodeError>(out@),
            g2s_valid(out@),
        decreases n - i,
    {
        match G2Point::decode(slice_subrange(b, 64 * i, 64 * i + 64)) {
            Ok(p) => {
                out.push(p);
            },
            Err(e) => {
                proof {
                    lemma_g2s_failure(b@, (i + 1) as nat, n as nat);
                }
                return Err(e);
            },
        }
        i += 1;
    }
    Ok(out)
}

/// Once the first `k` points fail to decode, so do the first `n`, for the
/// same reason.
pub proof fn lemma_g2s_failure(b: Seq<u8>, k: nat, n: nat)
    requires
        k <= n,
        g2s_decoding(b, k) is Err,
    ensures
        g2s_decoding(b, n) == g2s_decoding(b, k),
    decreases n - k,
{
    if k < n {
        lemma_g2s_failure(b, k, (n - 1) as nat);
    }
}

/// The encoding of a sequence of points has 64 bytes for each point.
pub proof fn lemma_g2s_len(ps: Seq<G2Point>)
    ensures
        g2s_encoding(ps).len() == 64 * ps.len(),
    decreases ps.len(),
{
    if ps.len() > 0 {
        lemma_g2s_len(ps.drop_last());
    }
}

/// What the first `n` points decode to depends on the first `64 * n` bytes
/// alone.
pub proof fn lemma_g2s_prefix(b1: Seq<u8>, b2: Seq<u8>, n: nat)
    requires
        64 * n <= b1.len(),
        64 * n <= b2.len(),
        b1.subrange(0, (64 * n) as int) == b2.subrange(0, (64 * n) as int),
    ensures
        g2s_decoding(b1, n) == g2s_decoding(b2, n),
    decreases n,
{
    if n > 0 {
        let m = (n - 1) as nat;
        let lo = (64 * m) as int;
        let hi = (64 * n) as int;
        assert(b1.subrange(0, lo) =~= b1.subrange(0, hi).subrange(0, lo));
        assert(b2.subrange(0, lo) =~= b2.subrange(0, hi).subrange(0, lo));
        lemma_g2s_prefix(b1, b2, m);
        assert(b1.subrange(lo, hi) =~= b1.subrange(0, hi).subrange(lo, hi));
        assert(b2.subrange(lo, hi) =~= b2.subrange(0, hi).subrange(lo, hi));
    }
}

/// Decoding the encoding of valid points gives the points back.
pub proof fn lemma_g2s_decode_encode(ps: Seq<G2Point>)
    requires
        g2s_valid(ps),
    ensures
        g2s_decoding(g2s_encoding(ps), ps.len()) == Ok::<Seq<G2Point>, DecodeError>(ps),
    decreases ps.len(),
{
    if ps.len() > 0 {
        let front = ps.drop_last();
        let b = g2s_encoding(ps);
        let m = front.len();
        lemma_g2s_len(front);
        lemma_g2s_len(ps);
        lemma_g2s_decode_encode(front);
        assert(b.subrange(0, (64 * m) as int) =~= g2s_encoding(front));
        assert(g2s_encoding(front).subrange(0, (64 * m) as int) =~= g2s_encoding(front));
        lemma_g2s_prefix(b, g2s_encoding(front), m);
        assert(b.subrange((64 * m) as int, (64 * (m + 1)) as int) =~= ps.last().encoding());
        lemma_g2_decode_encode(ps.last());
        assert(front.push(ps.last()) =~= ps);
        assert((ps.len() - 1) as nat == m);
        assert(g2s_decoding(b, m) == Ok::<Seq<G2Point>, DecodeError>(front));
        assert(G2Point::decoding(b.subrange(64 * (ps.len() - 1), 64 * (ps.len() as int))) == Ok::<
            G2Point,
            DecodeError,
        >(ps.last()));
    } else {
        assert(ps =~= Seq::<G2Point>::empty());
    }
}

/// Bytes that decode to points start with the encoding of those points, and
/// the points are valid.
pub proof fn lemma_g2s_encode_decode(b: Seq<u8>, n: nat, ps: Seq<G2Point>)
    requires
        64 * n <= b.len(),
        g2s_decoding(b, n) == Ok::<Seq<G2Point>, DecodeError>(ps),
    ensures
        ps.len() == n,
        g2s_encoding(ps) == b.subrange(0, (64 * n) as int),
        g2s_valid(ps),
    decreases n,
{
    if n == 0 {
        assert(g2s_encoding(ps) =~= b.subrange(0, 0));
    } else {
        let m = (n - 1) as nat;
        let front = g2s_decoding(b, m).unwrap();
        let p = G2Point::decoding(b.subrange((64 * m) as int, (64 * n) as int)).unwrap();
        lemma_g2s_encode_decode(b, m, front);
        lemma_g2_encode_decode(b.subrange((64 * m) as int, (64 * n) as int), p);
        assert(ps == front.push(p));
        assert(ps.drop_last() =~= front);
        assert(ps.last() == p);
        assert(b.subrange(0, (64 * n) as int) =~= b.subrange(0, (64 * m) as int) + b.subrange(
            (64 * m) as int,
            (64 * n) as int,
        ));
    }
}

} // verus!
