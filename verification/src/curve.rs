//! The two groups of BN254 in which the points of keys and proofs lie.

use crate::backend::{
    g1_in_subgroup, g1_ordinate, g1_recover_y, g1_subgroup_check, g2_in_subgroup, g2_ordinate,
    g2_recover_y, g2_subgroup_check,
};
use crate::bigint::{
    lemma_from_nat_of_value, lemma_le_bytes_of_le, lemma_of_le_bytes_of, lemma_order,
    lemma_value_of_from_nat, U256,
};
use crate::error::DecodeError;
use vstd::prelude::*;
use vstd::slice::slice_subrange;

verus! {

/// The words of the order of the base field of BN254.
pub open spec fn base_modulus_words() -> U256 {
    U256 {
        w0: 0x3c208c16d87cfd47,
        w1: 0x97816a916871ca8d,
        w2: 0xb85045b68181585d,
        w3: 0x30644e72e131a029,
    }
}

/// The order of the base field of BN254, which is
/// 21888242871839275222246405745257275088696311157297823662689037894645226208583.
pub open spec fn base_modulus() -> nat {
    base_modulus_words()@
}

/// Whether `y`, reduced, is larger than its negation in the base field.
pub open spec fn fq_is_upper(y: nat) -> bool {
    2 * y > base_modulus()
}

/// Whether `y`, a reduced element of the quadratic extension, is larger than
/// its negation: the second components decide, then the first.
pub open spec fn fq2_is_upper(y: (nat, nat)) -> bool {
    2 * y.1 > base_modulus() || (y.1 == 0 && 2 * y.0 > base_modulus())
}

/// The product of two elements of the quadratic extension, in which the
/// square of the generator is -1.
pub open spec fn fq2_mul(a: (nat, nat), b: (nat, nat)) -> (nat, nat) {
    (
        ((a.0 * b.0 - a.1 * b.1) % (base_modulus() as int)) as nat,
        (a.0 * b.1 + a.1 * b.0) % base_modulus(),
    )
}

/// The sum of two elements of the quadratic extension.
pub open spec fn fq2_add(a: (nat, nat), b: (nat, nat)) -> (nat, nat) {
    ((a.0 + b.0) % base_modulus(), (a.1 + b.1) % base_modulus())
}

/// The constant term of the curve G2, which is 3 / (9 + u): the pair of
/// 19485874751759354771024239261021720505790618469301721065564631296452457478373
/// and 266929791119991161246907387137283842545076965332900288569378510910307636690.
pub open spec fn g2_coeff_b() -> (nat, nat) {
    (
        (U256 {
            w0: 0x3267e6dc24a138e5,
            w1: 0xb5b4c5e559dbefa3,
            w2: 0x81be18991be06ac3,
            w3: 0x2b149d40ceb8aaae,
        })@,
        (U256 {
            w0: 0xe4a2bd0685c315d2,
            w1: 0xa74fa084e52d1852,
            w2: 0xcd2cafadeed8fdf4,
            w3: 0x009713b03af0fed4,
        })@,
    )
}

/// The equation of G1: `y^2 = x^3 + 3` in the base field.
pub open spec fn g1_on_curve(x: nat, y: nat) -> bool {
    (y * y) % base_modulus() == (x * x * x + 3) % base_modulus()
}

/// The equation of G2: `y^2 = x^3 + b` in the quadratic extension.
pub open spec fn g2_on_curve(x: (nat, nat), y: (nat, nat)) -> bool {
    fq2_mul(y, y) == fq2_add(fq2_mul(fq2_mul(x, x), x), g2_coeff_b())
}

/// The 62 low bits of the last word, which hold no flag.
pub const VALUE_BITS: u64 = 0x3fff_ffff_ffff_ffff;

/// The tag of a point whose ordinate is the smaller of the two candidates.
pub const TAG_LOWER: u64 = 0;

/// The tag of the point at infinity.
pub const TAG_INFINITY: u64 = 1;

/// The tag of a point whose ordinate is the larger of the two candidates.
pub const TAG_UPPER: u64 = 2;

/// `x` with `tag` in its two highest bits: bit 254 marks the point at
/// infinity, bit 255 the larger ordinate.
pub open spec fn tagged(x: U256, tag: u64) -> U256 {
    U256 { w0: x.w0, w1: x.w1, w2: x.w2, w3: x.w3 | (tag << 62) }
}

/// The two highest bits of `x`.
pub open spec fn tag_of(x: U256) -> u64 {
    x.w3 >> 62
}

/// `x` without its two highest bits.
pub open spec fn untagged(x: U256) -> U256 {
    U256 { w0: x.w0, w1: x.w1, w2: x.w2, w3: x.w3 & VALUE_BITS }
}

/// `x` with `tag` in its two highest bits.
pub fn with_tag(x: &U256, tag: u64) -> (r: U256)
    ensures
        r == tagged(*x, tag),
{
    U256 { w0: x.w0, w1: x.w1, w2: x.w2, w3: x.w3 | (tag << 62) }
}

/// The base modulus.
pub fn base_modulus_value() -> (r: U256)
    ensures
        r == base_modulus_words(),
{
    U256 {
        w0: 0x3c208c16d87cfd47,
        w1: 0x97816a916871ca8d,
        w2: 0xb85045b68181585d,
        w3: 0x30644e72e131a029,
    }
}

/// Whether `x` is a reduced element of the base field.
pub fn is_reduced(x: &U256) -> (r: bool)
    ensures
        r == (x@ < base_modulus()),
{
    let q = base_modulus_value();
    x.lt(&q)
}

/// Whether `y` is larger than its negation in the base field.
pub fn is_upper(y: &U256) -> (r: bool)
    ensures
        r == fq_is_upper(y@),
{
    let half = U256 {
        w0: 0x9e10460b6c3e7ea4,
        w1: 0xcbc0b548b438e546,
        w2: 0xdc2822db40c0ac2e,
        w3: 0x183227397098d014,
    };
    assert(2 * half@ == base_modulus() + 1);
    !y.lt(&half)
}

/// A reduced element has its two highest bits clear.
pub proof fn lemma_reduced_is_untagged(x: U256)
    requires
        x@ < base_modulus(),
    ensures
        tagged(x, 0) == x,
        untagged(x) == x,
        tag_of(x) == 0,
        forall|t: u64| t < 4 ==> tag_of(#[trigger] tagged(x, t)) == t && untagged(tagged(x, t)) == x,
{
    lemma_order(x, base_modulus_words());
    let w = x.w3;
    assert(w <= 0x30644e72e131a029);
    assert((w | (0u64 << 62)) == w) by (bit_vector);
    assert(w & 0x3fff_ffff_ffff_ffff == w && w >> 62 == 0) by (bit_vector)
        requires
            w <= 0x30644e72e131a029,
    ;
    assert forall|t: u64| t < 4 implies tag_of(#[trigger] tagged(x, t)) == t && untagged(
        tagged(x, t),
    ) == x by {
        assert((w | (t << 62)) >> 62 == t && (w | (t << 62)) & 0x3fff_ffff_ffff_ffff == w)
            by (bit_vector)
            requires
                w <= 0x30644e72e131a029,
                t < 4,
        ;
    }
}

/// An integer is made of its 254 low bits and its tag.
pub proof fn lemma_tag_split(x: U256)
    ensures
        tagged(untagged(x), tag_of(x)) == x,
        tag_of(x) < 4,
{
    let w = x.w3;
    assert(((w & 0x3fff_ffff_ffff_ffff) | ((w >> 62) << 62)) == w && (w >> 62) < 4)
        by (bit_vector);
}

/// A point of G1 in affine coordinates, or the point at infinity.
#[derive(Clone, Copy, Debug, PartialEq, Eq, Structural)]
pub struct G1Point {
    pub x: U256,
    pub y: U256,
    pub infinity: bool,
}

impl G1Point {
    /// The point at infinity, with the coordinates that stand for it.
    pub open spec fn identity_spec() -> G1Point {
        G1Point {
            x: U256 { w0: 0, w1: 0, w2: 0, w3: 0 },
            y: U256 { w0: 1, w1: 0, w2: 0, w3: 0 },
            infinity: true,
        }
    }

    /// Whether the point satisfies the equation of the curve.
    pub open spec fn on_curve(self) -> bool {
        self.infinity || g1_on_curve(self.x@, self.y@)
    }

    /// Whether a decoder accepts the point: it is the point at infinity in
    /// its one form, or its coordinates are reduced, its ordinate is the one
    /// recovered from its abscissa, and it lies in the subgroup.
    pub open spec fn valid(self) -> bool {
        if self.infinity {
            self == G1Point::identity_spec()
        } else {
            &&& self.x@ < base_modulus()
            &&& self.y@ < base_modulus()
            &&& g1_ordinate(self.x@, fq_is_upper(self.y@)) == Some(self.y@)
            &&& g1_in_subgroup(self.x@, self.y@)
        }
    }

    /// The tag that the encoding of the point carries.
    pub open spec fn tag(self) -> u64 {
        if self.infinity {
            TAG_INFINITY
        } else if fq_is_upper(self.y@) {
            TAG_UPPER
        } else {
            TAG_LOWER
        }
    }

    /// The 32 bytes that stand for the point: its abscissa, least significant
    /// byte first, with the tag in the two highest bits of the last byte. The
    /// point at infinity has abscissa 0.
    pub open spec fn encoding(self) -> Seq<u8> {
        if self.infinity {
            tagged(U256 { w0: 0, w1: 0, w2: 0, w3: 0 }, TAG_INFINITY).le_bytes()
        } else {
            tagged(self.x, self.tag()).le_bytes()
        }
    }

    /// The point that 32 bytes stand for, or why they stand for none.
    #[verifier::opaque]
    pub open spec fn decoding(b: Seq<u8>) -> Result<G1Point, DecodeError> {
        let raw = U256::of_le_bytes(b);
        let x = untagged(raw);
        let tag = tag_of(raw);
        if b.len() < 32 {
            Err(DecodeError::Truncated)
        } else if b.len() > 32 {
            Err(DecodeError::TrailingData)
        } else if tag == 3 || !(x@ < base_modulus()) {
            Err(DecodeError::NonCanonical)
        } else if tag == TAG_INFINITY {
            if x@ == 0 {
                Ok(G1Point::identity_spec())
            } else {
                Err(DecodeError::NonCanonical)
            }
        } else {
            G1Point::assembled(
                x,
                tag == TAG_UPPER,
                g1_ordinate(x@, tag == TAG_UPPER),
                g1_in_subgroup(x@, g1_ordinate(x@, tag == TAG_UPPER).unwrap_or(0)),
            )
        }
    }

    /// The point with abscissa `x`, given the ordinate recovered for it and
    /// whether that point lies in the subgroup.
    pub open spec fn assembled(x: U256, upper: bool, y: Option<nat>, member: bool) -> Result<
        G1Point,
        DecodeError,
    > {
        match y {
            None => Err(DecodeError::InvalidPoint),
            Some(y) => if !(y < base_modulus()) {
                Err(DecodeError::InvalidPoint)
            } else if fq_is_upper(y) != upper {
                Err(DecodeError::NonCanonical)
            } else if !member {
                Err(DecodeError::InvalidPoint)
            } else {
                Ok(G1Point { x, y: U256::from_nat(y), infinity: false })
            },
        }
    }

    /// The point at infinity.
    pub fn identity() -> (r: G1Point)
        ensures
            r == G1Point::identity_spec(),
            r.valid(),
    {
        G1Point { x: U256::zero(), y: U256::from_u64(1), infinity: true }
    }

    /// Encodes the point in 32 bytes.
    pub fn encode(&self) -> (r: Vec<u8>)
        ensures
            r@ == self.encoding(),
            r@.len() == 32,
            self.valid() ==> G1Point::decoding(r@) == Ok::<G1Point, DecodeError>(*self),
    {
        proof {
            if self.valid() {
                lemma_g1_decode_encode(*self);
            }
        }
        if self.infinity {
            with_tag(&U256::zero(), TAG_INFINITY).to_le_bytes()
        } else if is_upper(&self.y) {
            with_tag(&self.x, TAG_UPPER).to_le_bytes()
        } else {
            with_tag(&self.x, TAG_LOWER).to_le_bytes()
        }
    }

    /// Makes a point of an abscissa, the ordinate that was recovered for it
    /// and the answer of the subgroup check.
    pub fn assemble(x: U256, upper: bool, y: Option<U256>, member: bool) -> (r: Result<
        G1Point,
        DecodeError,
    >)
        ensures
            r == G1Point::assembled(
                x,
                upper,
                match y {
                    Some(y) => Some(y@),
                    None => None,
                },
                member,
            ),
    {
        match y {
            None => Err(DecodeError::InvalidPoint),
            Some(y) => {
                proof {
                    lemma_from_nat_of_value(y);
                }
                if !is_reduced(&y) {
                    Err(DecodeError::InvalidPoint)
                } else if is_upper(&y) != upper {
                    Err(DecodeError::NonCanonical)
                } else if !member {
                    Err(DecodeError::InvalidPoint)
                } else {
                    Ok(G1Point { x, y, infinity: false })
                }
            },
        }
    }

    /// Decodes a point from its 32 bytes.
    pub fn decode(b: &[u8]) -> (r: Result<G1Point, DecodeError>)
        ensures
            r == G1Point::decoding(b@),
            r matches Ok(p) ==> p.valid() && p.on_curve() && p.encoding() == b@,
    {
        proof {
            if let Ok(p) = G1Point::decoding(b@) {
                lemma_g1_encode_decode(b@, p);
            }
        }
        reveal(G1Point::decoding);
        if b.len() < 32 {
            return Err(DecodeError::Truncated);
        }
        if b.len() > 32 {
            return Err(DecodeError::TrailingData);
        }
        let raw = U256::from_le_bytes(b);
        let tag: u64 = raw.w3 >> 62;
        let x = U256 { w0: raw.w0, w1: raw.w1, w2: raw.w2, w3: raw.w3 & VALUE_BITS };
        if tag == 3 || !is_reduced(&x) {
            return Err(DecodeError::NonCanonical);
        }
        if tag == TAG_INFINITY {
            if x.is_zero() {
                return Ok(G1Point::identity());
            } else {
                return Err(DecodeError::NonCanonical);
            }
        }
        let upper = tag == TAG_UPPER;
        let y = g1_recover_y(&x, upper);
        let member = match &y {
            Some(y) => g1_subgroup_check(&x, y),
            None => false,
        };
        let r = G1Point::assemble(x, upper, y, member);
        proof {
            if let Some(y) = y {
                lemma_from_nat_of_value(y);
            }
        }
        r
    }
}

/// Decoding the encoding of a valid point gives the point back.
pub proof fn lemma_g1_decode_encode(p: G1Point)
    requires
        p.valid(),
    ensures
        G1Point::decoding(p.encoding()) == Ok::<G1Point, DecodeError>(p),
{
    reveal(G1Point::decoding);
    let zero = U256 { w0: 0, w1: 0, w2: 0, w3: 0 };
    let x = if p.infinity {
        zero
    } else {
        p.x
    };
    let t = tagged(x, p.tag());
    assert(p.encoding() == t.le_bytes());
    lemma_of_le_bytes_of(t);
    lemma_reduced_is_untagged(x);
    assert(tag_of(t) == p.tag() && untagged(t) == x);
    if !p.infinity {
        lemma_from_nat_of_value(p.y);
    }
}

/// Bytes that decode to a point are the encoding of that point, and the
/// point is valid: no two byte strings stand for one point.
pub proof fn lemma_g1_encode_decode(b: Seq<u8>, p: G1Point)
    requires
        G1Point::decoding(b) == Ok::<G1Point, DecodeError>(p),
    ensures
        p.encoding() == b,
        p.valid(),
{
    reveal(G1Point::decoding);
    let raw = U256::of_le_bytes(b);
    let x = untagged(raw);
    let tag = tag_of(raw);
    lemma_le_bytes_of_le(b);
    lemma_tag_split(raw);
    if tag == TAG_INFINITY {
        lemma_order(x, U256 { w0: 0, w1: 0, w2: 0, w3: 0 });
    } else {
        let upper = tag == TAG_UPPER;
        let y = g1_ordinate(x@, upper).unwrap();
        assert(y < base_modulus());
        lemma_value_of_from_nat(y);
    }
}

/// An element of the quadratic extension of the base field: `c0 + c1 * u`.
#[derive(Clone, Copy, Debug, PartialEq, Eq, Structural)]
pub struct Fq2 {
    pub c0: U256,
    pub c1: U256,
}

impl View for Fq2 {
    type V = (nat, nat);

    /// The values of the two components.
    open spec fn view(&self) -> (nat, nat) {
        (self.c0@, self.c1@)
    }
}

impl Fq2 {
    /// Whether both components are reduced.
    pub open spec fn reduced(self) -> bool {
        self.c0@ < base_modulus() && self.c1@ < base_modulus()
    }

    /// The element with the given components, each below 2^256.
    pub open spec fn from_nats(v: (nat, nat)) -> Fq2 {
        Fq2 { c0: U256::from_nat(v.0), c1: U256::from_nat(v.1) }
    }

    /// Whether the element is larger than its negation.
    pub fn is_upper(&self) -> (r: bool)
        ensures
            r == fq2_is_upper(self@),
    {
        is_upper(&self.c1) || (self.c1.is_zero() && is_upper(&self.c0))
    }
}

/// A point of G2 in affine coordinates, or the point at infinity.
#[derive(Clone, Copy, Debug, PartialEq, Eq, Structural)]
pub struct G2Point {
    pub x: Fq2,
    pub y: Fq2,
    pub infinity: bool,
}

impl G2Point {
    /// The point at infinity, with the coordinates that stand for it.
    pub open spec fn identity_spec() -> G2Point {
        G2Point {
            x: Fq2 { c0: U256 { w0: 0, w1: 0, w2: 0, w3: 0 }, c1: U256 { w0: 0, w1: 0, w2: 0, w3: 0 } },
            y: Fq2 { c0: U256 { w0: 1, w1: 0, w2: 0, w3: 0 }, c1: U256 { w0: 0, w1: 0, w2: 0, w3: 0 } },
            infinity: true,
        }
    }

    /// Whether the point satisfies the equation of the curve.
    pub open spec fn on_curve(self) -> bool {
        self.infinity || g2_on_curve(self.x@, self.y@)
    }

    /// Whether a decoder accepts the point: it is the point at infinity in
    /// its one form, or its coordinates are reduced, its ordinate is the one
    /// recovered from its abscissa, and it lies in the subgroup.
    pub open spec fn valid(self) -> bool {
        if self.infinity {
            self == G2Point::identity_spec()
        } else {
            &&& self.x.reduced()
            &&& self.y.reduced()
            &&& g2_ordinate(self.x@, fq2_is_upper(self.y@)) == Some(self.y@)
            &&& g2_in_subgroup(self.x@, self.y@)
        }
    }

    /// The tag that the encoding of the point carries.
    pub open spec fn tag(self) -> u64 {
        if self.infinity {
            TAG_INFINITY
        } else if fq2_is_upper(self.y@) {
            TAG_UPPER
        } else {
            TAG_LOWER
        }
    }

    /// The 64 bytes that stand for the point: the two components of its
    /// abscissa, each least significant byte first, with the tag in the two
    /// highest bits of the last byte. The point at infinity has abscissa 0.
    pub open spec fn encoding(self) -> Seq<u8> {
        if self.infinity {
            (U256 { w0: 0, w1: 0, w2: 0, w3: 0 }).le_bytes() + tagged(
                U256 { w0: 0, w1: 0, w2: 0, w3: 0 },
                TAG_INFINITY,
            ).le_bytes()
        } else {
            self.x.c0.le_bytes() + tagged(self.x.c1, self.tag()).le_bytes()
        }
    }

    /// The point that 64 bytes stand for, or why they stand for none.
    #[verifier::opaque]
    pub open spec fn decoding(b: Seq<u8>) -> Result<G2Point, DecodeError> {
        let c0 = U256::of_le_bytes(b.subrange(0, 32));
        let raw = U256::of_le_bytes(b.subrange(32, 64));
        let x = Fq2 { c0, c1: untagged(raw) };
        let tag = tag_of(raw);
        if b.len() < 64 {
            Err(DecodeError::Truncated)
        } else if b.len() > 64 {
            Err(DecodeError::TrailingData)
        } else if tag == 3 || !x.reduced() {
            Err(DecodeError::NonCanonical)
        } else if tag == TAG_INFINITY {
            if x@ == (0nat, 0nat) {
                Ok(G2Point::identity_spec())
            } else {
                Err(DecodeError::NonCanonical)
            }
        } else {
            G2Point::assembled(
                x,
                tag == TAG_UPPER,
                g2_ordinate(x@, tag == TAG_UPPER),
                g2_in_subgroup(x@, g2_ordinate(x@, tag == TAG_UPPER).unwrap_or((0, 0))),
            )
        }
    }

    /// The point with abscissa `x`, given the ordinate recovered for it and
    /// whether that point lies in the subgroup.
    pub open spec fn assembled(x: Fq2, upper: bool, y: Option<(nat, nat)>, member: bool) -> Result<
        G2Point,
        DecodeError,
    > {
        match y {
            None => Err(DecodeError::InvalidPoint),
            Some(y) => if !(y.0 < base_modulus() && y.1 < base_modulus()) {
                Err(DecodeError::InvalidPoint)
            } else if fq2_is_upper(y) != upper {
                Err(DecodeError::NonCanonical)
            } else if !member {
                Err(DecodeError::InvalidPoint)
            } else {
                Ok(G2Point { x, y: Fq2::from_nats(y), infinity: false })
            },
        }
    }

    /// The point at infinity.
    pub fn identity() -> (r: G2Point)
        ensures
            r == G2Point::identity_spec(),
            r.valid(),
    {
        G2Point {
            x: Fq2 { c0: U256::zero(), c1: U256::zero() },
            y: Fq2 { c0: U256::from_u64(1), c1: U256::zero() },
            infinity: true,
        }
    }

    /// Encodes the point in 64 bytes.
    pub fn encode(&self) -> (r: Vec<u8>)
        ensures
            r@ == self.encoding(),
            r@.len() == 64,
            self.valid() ==> G2Point::decoding(r@) == Ok::<G2Point, DecodeError>(*self),
    {
        proof {
            if self.valid() {
                lemma_g2_decode_encode(*self);
            }
        }
        if self.infinity {
            let mut out = U256::zero().to_le_bytes();
            let hi = with_tag(&U256::zero(), TAG_INFINITY).to_le_bytes();
            out.extend_from_slice(hi.as_slice());
            assert(out@ =~= self.encoding());
            out
        } else {
            let tag: u64 = if self.y.is_upper() {
                TAG_UPPER
            } else {
                TAG_LOWER
            };
            let mut out = self.x.c0.to_le_bytes();
            let hi = with_tag(&self.x.c1, tag).to_le_bytes();
            out.extend_from_slice(hi.as_slice());
            assert(out@ =~= self.encoding());
            out
        }
    }

    /// Makes a point of an abscissa, the ordinate that was recovered for it
    /// and the answer of the subgroup check.
    pub fn assemble(x: Fq2, upper: bool, y: Option<Fq2>, member: bool) -> (r: Result<
        G2Point,
        DecodeError,
    >)
        ensures
            r == G2Point::assembled(
                x,
                upper,
                match y {
                    Some(y) => Some(y@),
                    None => None,
                },
                member,
            ),
    {
        match y {
            None => Err(DecodeError::InvalidPoint),
            Some(y) => {
                proof {
                    lemma_from_nat_of_value(y.c0);
                    lemma_from_nat_of_value(y.c1);
                }
                if !(is_reduced(&y.c0) && is_reduced(&y.c1)) {
                    Err(DecodeError::InvalidPoint)
                } else if y.is_upper() != upper {
                    Err(DecodeError::NonCanonical)
                } else if !member {
                    Err(DecodeError::InvalidPoint)
                } else {
                    Ok(G2Point { x, y, infinity: false })
                }
            },
        }
    }

    /// Decodes a point from its 64 bytes.
    pub fn decode(b: &[u8]) -> (r: Result<G2Point, DecodeError>)
        ensures
            r == G2Point::decoding(b@),
            r matches Ok(p) ==> p.valid() && p.on_curve() && p.encoding() == b@,
    {
        proof {
            if let Ok(p) = G2Point::decoding(b@) {
                lemma_g2_encode_decode(b@, p);
            }
        }
        reveal(G2Point::decoding);
        if b.len() < 64 {
            return Err(DecodeError::Truncated);
        }
        if b.len() > 64 {
            return Err(DecodeError::TrailingData);
        }
        let c0 = U256::from_le_bytes(slice_subrange(b, 0, 32));
        let raw = U256::from_le_bytes(slice_subrange(b, 32, 64));
        let tag: u64 = raw.w3 >> 62;
        let c1 = U256 { w0: raw.w0, w1: raw.w1, w2: raw.w2, w3: raw.w3 & VALUE_BITS };
        let x = Fq2 { c0, c1 };
        if tag == 3 || !(is_reduced(&c0) && is_reduced(&c1)) {
            return Err(DecodeError::NonCanonical);
        }
        if tag == TAG_INFINITY {
            if c0.is_zero() && c1.is_zero() {
                return Ok(G2Point::identity());
            } else {
                return Err(DecodeError::NonCanonical);
            }
        }
        let upper = tag == TAG_UPPER;
        let y = match g2_recover_y(&c0, &c1, upper) {
            Some(y) => Some(Fq2 { c0: y.0, c1: y.1 }),
            None => None,
        };
        let member = match &y {
            Some(y) => g2_subgroup_check(&(c0, c1), &(y.c0, y.c1)),
            None => false,
        };
        let r = G2Point::assemble(x, upper, y, member);
        proof {
            if let Some(y) = y {
                lemma_from_nat_of_value(y.c0);
                lemma_from_nat_of_value(y.c1);
            }
        }
        r
    }
}

/// Decoding the encoding of a valid point gives the point back.
pub proof fn lemma_g2_decode_encode(p: G2Point)
    requires
        p.valid(),
    ensures
        G2Point::decoding(p.encoding()) == Ok::<G2Point, DecodeError>(p),
{
    reveal(G2Point::decoding);
    let zero = U256 { w0: 0, w1: 0, w2: 0, w3: 0 };
    let c0 = if p.infinity {
        zero
    } else {
        p.x.c0
    };
    let c1 = if p.infinity {
        zero
    } else {
        p.x.c1
    };
    let t = tagged(c1, p.tag());
    let b = p.encoding();
    assert(b == c0.le_bytes() + t.le_bytes());
    assert(b.subrange(0, 32) =~= c0.le_bytes());
    assert(b.subrange(32, 64) =~= t.le_bytes());
    lemma_of_le_bytes_of(c0);
    lemma_of_le_bytes_of(t);
    lemma_reduced_is_untagged(c1);
    assert(tag_of(t) == p.tag() && untagged(t) == c1);
    if !p.infinity {
        lemma_from_nat_of_value(p.y.c0);
        lemma_from_nat_of_value(p.y.c1);
    }
}

/// Bytes that decode to a point are the encoding of that point, and the
/// point is valid: no two byte strings stand for one point.
pub proof fn lemma_g2_encode_decode(b: Seq<u8>, p: G2Point)
    requires
        G2Point::decoding(b) == Ok::<G2Point, DecodeError>(p),
    ensures
        p.encoding() == b,
        p.valid(),
{
    reveal(G2Point::decoding);
    let c0 = U256::of_le_bytes(b.subrange(0, 32));
    let raw = U256::of_le_bytes(b.subrange(32, 64));
    let c1 = untagged(raw);
    let x = Fq2 { c0, c1 };
    let tag = tag_of(raw);
    lemma_le_bytes_of_le(b.subrange(0, 32));
    lemma_le_bytes_of_le(b.subrange(32, 64));
    lemma_tag_split(raw);
    assert(b =~= b.subrange(0, 32) + b.subrange(32, 64));
    if tag == TAG_INFINITY {
        lemma_order(c0, U256 { w0: 0, w1: 0, w2: 0, w3: 0 });
        lemma_order(c1, U256 { w0: 0, w1: 0, w2: 0, w3: 0 });
    } else {
        let upper = tag == TAG_UPPER;
        let y = g2_ordinate(x@, upper).unwrap();
        lemma_value_of_from_nat(y.0);
        lemma_value_of_from_nat(y.1);
    }
}

} // verus!