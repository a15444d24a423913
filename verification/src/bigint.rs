//! Unsigned 256-bit integers held as four 64-bit words.

use vstd::prelude::*;

verus! {

/// 2^64, the weight of the second word.
pub const RADIX: u128 = 0x1_0000_0000_0000_0000;

/// An unsigned 256-bit integer: four 64-bit words, least significant first.
#[derive(Clone, Copy, Debug, PartialEq, Eq, Structural)]
pub struct U256 {
    pub w0: u64,
    pub w1: u64,
    pub w2: u64,
    pub w3: u64,
}

impl View for U256 {
    type V = nat;

    /// The number that the four words stand for.
    open spec fn view(&self) -> nat {
        (self.w0 + RADIX * (self.w1 + RADIX * (self.w2 + RADIX * self.w3))) as nat
    }
}

/// Byte `k` (0 is the least significant) of a 64-bit word.
pub open spec fn word_byte(w: u64, k: int) -> u8 {
    ((w >> ((8 * k) as u64)) & 0xff) as u8
}

/// The word whose eight bytes, least significant first, are `b`.
pub open spec fn word_of_bytes(b: Seq<u8>) -> u64 {
    (b[0] as u64) | ((b[1] as u64) << 8) | ((b[2] as u64) << 16) | ((b[3] as u64) << 24) | ((
    b[4] as u64) << 32) | ((b[5] as u64) << 40) | ((b[6] as u64) << 48) | ((b[7] as u64) << 56)
}

/// The number that a little-endian byte string stands for.
pub open spec fn le_value(s: Seq<u8>) -> nat
    decreases s.len(),
{
    if s.len() == 0 {
        0
    } else {
        s[0] as nat + 256 * le_value(s.skip(1))
    }
}

impl U256 {
    /// Word `i` of the integer, word 0 being the least significant.
    pub open spec fn word(self, i: int) -> u64 {
        if i == 0 {
            self.w0
        } else if i == 1 {
            self.w1
        } else if i == 2 {
            self.w2
        } else {
            self.w3
        }
    }

    /// The 32 bytes of the integer, least significant first.
    pub open spec fn le_bytes(self) -> Seq<u8> {
        Seq::new(32, |i: int| word_byte(self.word(i / 8), i % 8))
    }

    /// The integer whose 32 little-endian bytes are `b`.
    pub open spec fn of_le_bytes(b: Seq<u8>) -> U256 {
        U256 {
            w0: word_of_bytes(b.subrange(0, 8)),
            w1: word_of_bytes(b.subrange(8, 16)),
            w2: word_of_bytes(b.subrange(16, 24)),
            w3: word_of_bytes(b.subrange(24, 32)),
        }
    }

    /// The integer with value `n`, for `n` below 2^256.
    pub open spec fn from_nat(n: nat) -> U256 {
        U256 {
            w0: (n % (RADIX as nat)) as u64,
            w1: (n / (RADIX as nat) % (RADIX as nat)) as u64,
            w2: (n / (RADIX as nat) / (RADIX as nat) % (RADIX as nat)) as u64,
            w3: (n / (RADIX as nat) / (RADIX as nat) / (RADIX as nat) % (RADIX as nat)) as u64,
        }
    }

    /// The integer zero.
    pub fn zero() -> (r: U256)
        ensures
            r@ == 0,
            r == (U256 { w0: 0, w1: 0, w2: 0, w3: 0 }),
    {
        U256 { w0: 0, w1: 0, w2: 0, w3: 0 }
    }

    /// The integer with the value of a 64-bit number.
    pub fn from_u64(x: u64) -> (r: U256)
        ensures
            r@ == x,
            r == (U256 { w0: x, w1: 0, w2: 0, w3: 0 }),
    {
        U256 { w0: x, w1: 0, w2: 0, w3: 0 }
    }

    /// Whether the integer is zero.
    pub fn is_zero(&self) -> (r: bool)
        ensures
            r == (self@ == 0),
    {
        self.w0 == 0 && self.w1 == 0 && self.w2 == 0 && self.w3 == 0
    }

    /// The four words as an array, least significant first.
    pub fn words(&self) -> (r: [u64; 4])
        ensures
            r@ == seq![self.w0, self.w1, self.w2, self.w3],
    {
        let r: [u64; 4] = [self.w0, self.w1, self.w2, self.w3];
        assert(r@ =~= seq![self.w0, self.w1, self.w2, self.w3]);
        r
    }

    /// The integer made of four words, least significant first.
    pub fn from_words(w: [u64; 4]) -> (r: U256)
        ensures
            r == (U256 { w0: w@[0], w1: w@[1], w2: w@[2], w3: w@[3] }),
    {
        U256 { w0: w[0], w1: w[1], w2: w[2], w3: w[3] }
    }

    /// Word `i` of the integer.
    pub fn word_at(&self, i: usize) -> (r: u64)
        requires
            i < 4,
        ensures
            r == self.word(i as int),
    {
        if i == 0 {
            self.w0
        } else if i == 1 {
            self.w1
        } else if i == 2 {
            self.w2
        } else {
            self.w3
        }
    }

    /// The 32 bytes of the integer, least significant first.
    pub fn to_le_bytes(&self) -> (r: Vec<u8>)
        ensures
            r@ == self.le_bytes(),
            r@.len() == 32,
            le_value(r@) == self@,
    {
        proof {
            lemma_le_bytes_value(*self);
        }
        let mut out: Vec<u8> = Vec::with_capacity(32);
        let mut i: usize = 0;
        while i < 32
            invariant
                i <= 32,
                out@.len() == i,
                forall|j: int| 0 <= j < i ==> out@[j] == word_byte(self.word(j / 8), j % 8),
            decreases 32 - i,
        {
            let w: u64 = self.word_at(i / 8);
            let k: usize = i % 8;
            let shift: u64 = (8 * k) as u64;
            assert((w >> shift) & 0xff <= 0xff) by (bit_vector);
            let b: u8 = ((w >> shift) & 0xff) as u8;
            out.push(b);
            i += 1;
        }
        assert(out@ =~= self.le_bytes());
        out
    }

    /// The integer whose little-endian bytes are the 32 bytes of `b`.
    pub fn from_le_bytes(b: &[u8]) -> (r: U256)
        requires
            b@.len() == 32,
        ensures
            r == U256::of_le_bytes(b@),
            r@ == le_value(b@),
    {
        proof {
            lemma_of_le_bytes_value(b@);
        }
        U256 {
            w0: read_word(b, 0),
            w1: read_word(b, 8),
            w2: read_word(b, 16),
            w3: read_word(b, 24),
        }
    }

    /// Whether `self` is the smaller number.
    pub fn lt(&self, other: &U256) -> (r: bool)
        ensures
            r == (self@ < other@),
    {
        proof {
            lemma_order(*self, *other);
        }
        if self.w3 != other.w3 {
            self.w3 < other.w3
        } else if self.w2 != other.w2 {
            self.w2 < other.w2
        } else if self.w1 != other.w1 {
            self.w1 < other.w1
        } else {
            self.w0 < other.w0
        }
    }
}

/// The word that starts at byte `at` of `b`, least significant byte first.
pub fn read_word(b: &[u8], at: usize) -> (r: u64)
    requires
        at + 8 <= b@.len(),
    ensures
        r == word_of_bytes(b@.subrange(at as int, at + 8)),
{
    let b0: u64 = b[at] as u64;
    let b1: u64 = b[at + 1] as u64;
    let b2: u64 = b[at + 2] as u64;
    let b3: u64 = b[at + 3] as u64;
    let b4: u64 = b[at + 4] as u64;
    let b5: u64 = b[at + 5] as u64;
    let b6: u64 = b[at + 6] as u64;
    let b7: u64 = b[at + 7] as u64;
    b0 | (b1 << 8) | (b2 << 16) | (b3 << 24) | (b4 << 32) | (b5 << 40) | (b6 << 48) | (b7 << 56)
}

/// A word is made of its eight bytes.
pub proof fn lemma_word_of_its_bytes(w: u64)
    ensures
        word_of_bytes(Seq::new(8, |k: int| word_byte(w, k))) == w,
{
    let b = Seq::new(8, |k: int| word_byte(w, k));
    assert(b[0] == ((w >> 0u64) & 0xff) as u8);
    assert(b[1] == ((w >> 8u64) & 0xff) as u8);
    assert(b[2] == ((w >> 16u64) & 0xff) as u8);
    assert(b[3] == ((w >> 24u64) & 0xff) as u8);
    assert(b[4] == ((w >> 32u64) & 0xff) as u8);
    assert(b[5] == ((w >> 40u64) & 0xff) as u8);
    assert(b[6] == ((w >> 48u64) & 0xff) as u8);
    assert(b[7] == ((w >> 56u64) & 0xff) as u8);
    assert(((((w >> 0u64) & 0xff) as u8) as u64) | (((((w >> 8u64) & 0xff) as u8) as u64) << 8) | (((((
    w >> 16u64) & 0xff) as u8) as u64) << 16) | (((((w >> 24u64) & 0xff) as u8) as u64) << 24) | (((((
    w >> 32u64) & 0xff) as u8) as u64) << 32) | (((((w >> 40u64) & 0xff) as u8) as u64) << 40) | (((((
    w >> 48u64) & 0xff) as u8) as u64) << 48) | (((((w >> 56u64) & 0xff) as u8) as u64) << 56) == w)
        by (bit_vector);
}

/// The bytes of a word made of eight bytes are those bytes.
pub proof fn lemma_bytes_of_word(b: Seq<u8>)
    requires
        b.len() == 8,
    ensures
        forall|k: int| 0 <= k < 8 ==> word_byte(word_of_bytes(b), k) == b[k],
{
    let b0 = b[0];
    let b1 = b[1];
    let b2 = b[2];
    let b3 = b[3];
    let b4 = b[4];
    let b5 = b[5];
    let b6 = b[6];
    let b7 = b[7];
    let w = word_of_bytes(b);
    assert(w == (b0 as u64) | ((b1 as u64) << 8) | ((b2 as u64) << 16) | ((b3 as u64) << 24) | ((
    b4 as u64) << 32) | ((b5 as u64) << 40) | ((b6 as u64) << 48) | ((b7 as u64) << 56));
    assert(((w >> 0u64) & 0xff) as u8 == b0 && ((w >> 8u64) & 0xff) as u8 == b1 && ((w >> 16u64)
        & 0xff) as u8 == b2 && ((w >> 24u64) & 0xff) as u8 == b3 && ((w >> 32u64) & 0xff) as u8
        == b4 && ((w >> 40u64) & 0xff) as u8 == b5 && ((w >> 48u64) & 0xff) as u8 == b6 && ((w
        >> 56u64) & 0xff) as u8 == b7) by (bit_vector)
        requires
            w == (b0 as u64) | ((b1 as u64) << 8) | ((b2 as u64) << 16) | ((b3 as u64) << 24) | ((
            b4 as u64) << 32) | ((b5 as u64) << 40) | ((b6 as u64) << 48) | ((b7 as u64) << 56),
    ;
    assert forall|k: int| 0 <= k < 8 implies word_byte(w, k) == b[k] by {
        if k == 0 {
        } else if k == 1 {
        } else if k == 2 {
        } else if k == 3 {
        } else if k == 4 {
        } else if k == 5 {
        } else if k == 6 {
        } else {
        }
    }
}

/// Reading back the 32 bytes of an integer gives that integer.
pub proof fn lemma_of_le_bytes_of(x: U256)
    ensures
        U256::of_le_bytes(x.le_bytes()) == x,
{
    let b = x.le_bytes();
    lemma_word_of_its_bytes(x.w0);
    lemma_word_of_its_bytes(x.w1);
    lemma_word_of_its_bytes(x.w2);
    lemma_word_of_its_bytes(x.w3);
    assert(b.subrange(0, 8) =~= Seq::new(8, |k: int| word_byte(x.w0, k)));
    assert(b.subrange(8, 16) =~= Seq::new(8, |k: int| word_byte(x.w1, k)));
    assert(b.subrange(16, 24) =~= Seq::new(8, |k: int| word_byte(x.w2, k)));
    assert(b.subrange(24, 32) =~= Seq::new(8, |k: int| word_byte(x.w3, k)));
}

/// The 32 bytes of the integer read from 32 bytes are those bytes.
pub proof fn lemma_le_bytes_of_le(b: Seq<u8>)
    requires
        b.len() == 32,
    ensures
        U256::of_le_bytes(b).le_bytes() == b,
{
    let x = U256::of_le_bytes(b);
    lemma_bytes_of_word(b.subrange(0, 8));
    lemma_bytes_of_word(b.subrange(8, 16));
    lemma_bytes_of_word(b.subrange(16, 24));
    lemma_bytes_of_word(b.subrange(24, 32));
    assert forall|i: int| 0 <= i < 32 implies x.le_bytes()[i] == b[i] by {
        let j = i / 8;
        let k = i % 8;
        assert(b.subrange(8 * j, 8 * j + 8)[k] == b[i]);
    }
    assert(x.le_bytes() =~= b);
}

/// The weight of the byte at place `n` of a little-endian byte string:
/// 256 to the power `n`.
pub open spec fn weight(n: nat) -> nat
    decreases n,
{
    if n == 0 {
        1
    } else {
        256 * weight((n - 1) as nat)
    }
}

/// The value of two byte strings, one after the other, is the value of the
/// first and, shifted by its length, the value of the second.
pub proof fn lemma_le_value_append(a: Seq<u8>, b: Seq<u8>)
    ensures
        le_value(a + b) == le_value(a) + weight(a.len()) * le_value(b),
    decreases a.len(),
{
    if a.len() == 0 {
        assert(a + b =~= b);
        assert(weight(0) == 1);
        assert(1 * le_value(b) == le_value(b));
    } else {
        let rest = a.skip(1);
        assert((a + b).skip(1) =~= rest + b);
        assert((a + b)[0] == a[0]);
        lemma_le_value_append(rest, b);
        let w = weight(rest.len());
        let v = le_value(b);
        let r = le_value(rest);
        assert(le_value(a + b) == a[0] + 256 * le_value(rest + b));
        assert(le_value(a) == a[0] + 256 * r);
        assert(weight(a.len()) == 256 * w);
        assert(256 * (r + w * v) == 256 * r + (256 * w) * v) by (nonlinear_arith);
        assert(weight(a.len()) * v == (256 * w) * v);
    }
}

/// The value of the eight bytes of a word is the word.
pub proof fn lemma_word_value(w: u64)
    ensures
        le_value(Seq::new(8, |k: int| word_byte(w, k))) == w,
{
    let s0 = Seq::new(8, |k: int| word_byte(w, k));
    let s1 = s0.skip(1);
    let s2 = s1.skip(1);
    let s3 = s2.skip(1);
    let s4 = s3.skip(1);
    let s5 = s4.skip(1);
    let s6 = s5.skip(1);
    let s7 = s6.skip(1);
    let s8 = s7.skip(1);
    assert(le_value(s8) == 0);
    assert(le_value(s7) == s7[0] + 256 * le_value(s8));
    assert(le_value(s6) == s6[0] + 256 * le_value(s7));
    assert(le_value(s5) == s5[0] + 256 * le_value(s6));
    assert(le_value(s4) == s4[0] + 256 * le_value(s5));
    assert(le_value(s3) == s3[0] + 256 * le_value(s4));
    assert(le_value(s2) == s2[0] + 256 * le_value(s3));
    assert(le_value(s1) == s1[0] + 256 * le_value(s2));
    assert(le_value(s0) == s0[0] + 256 * le_value(s1));
    assert(s0[0] == ((w >> 0u64) & 0xff) as u8);
    assert(s1[0] == s0[1] && s0[1] == ((w >> 8u64) & 0xff) as u8);
    assert(s2[0] == s0[2] && s0[2] == ((w >> 16u64) & 0xff) as u8);
    assert(s3[0] == s0[3] && s0[3] == ((w >> 24u64) & 0xff) as u8);
    assert(s4[0] == s0[4] && s0[4] == ((w >> 32u64) & 0xff) as u8);
    assert(s5[0] == s0[5] && s0[5] == ((w >> 40u64) & 0xff) as u8);
    assert(s6[0] == s0[6] && s0[6] == ((w >> 48u64) & 0xff) as u8);
    assert(s7[0] == s0[7] && s0[7] == ((w >> 56u64) & 0xff) as u8);
    assert(w == ((w >> 0u64) & 0xff) + 0x100 * ((w >> 8u64) & 0xff) + 0x1_0000 * ((w >> 16u64)
        & 0xff) + 0x100_0000 * ((w >> 24u64) & 0xff) + 0x1_0000_0000 * ((w >> 32u64) & 0xff)
        + 0x100_0000_0000 * ((w >> 40u64) & 0xff) + 0x1_0000_0000_0000 * ((w >> 48u64) & 0xff)
        + 0x100_0000_0000_0000 * ((w >> 56u64) & 0xff)) by (bit_vector);
    assert(((w >> 0u64) & 0xff) <= 0xff && ((w >> 8u64) & 0xff) <= 0xff && ((w >> 16u64) & 0xff)
        <= 0xff && ((w >> 24u64) & 0xff) <= 0xff && ((w >> 32u64) & 0xff) <= 0xff && ((w
        >> 40u64) & 0xff) <= 0xff && ((w >> 48u64) & 0xff) <= 0xff && ((w >> 56u64) & 0xff)
        <= 0xff) by (bit_vector);
}

/// The 32 bytes of an integer are its value written to the base 256, least
/// significant digit first.
pub proof fn lemma_le_bytes_value(x: U256)
    ensures
        le_value(x.le_bytes()) == x@,
{
    let b0 = Seq::new(8, |k: int| word_byte(x.w0, k));
    let b1 = Seq::new(8, |k: int| word_byte(x.w1, k));
    let b2 = Seq::new(8, |k: int| word_byte(x.w2, k));
    let b3 = Seq::new(8, |k: int| word_byte(x.w3, k));
    assert(x.le_bytes() =~= b0 + (b1 + (b2 + b3)));
    lemma_word_value(x.w0);
    lemma_word_value(x.w1);
    lemma_word_value(x.w2);
    lemma_word_value(x.w3);
    lemma_le_value_append(b2, b3);
    lemma_le_value_append(b1, b2 + b3);
    lemma_le_value_append(b0, b1 + (b2 + b3));
    assert(weight(8) == RADIX) by {
        reveal_with_fuel(weight, 9);
    }
}

/// The integer read from 32 bytes has the value of the bytes.
pub proof fn lemma_of_le_bytes_value(b: Seq<u8>)
    requires
        b.len() == 32,
    ensures
        U256::of_le_bytes(b)@ == le_value(b),
{
    lemma_le_bytes_of_le(b);
    lemma_le_bytes_value(U256::of_le_bytes(b));
}

/// An integer is the one made from its value.
pub proof fn lemma_from_nat_of_value(x: U256)
    ensures
        U256::from_nat(x@) == x,
{
    let r = RADIX as int;
    let m2 = x.w2 + r * x.w3;
    let m1 = x.w1 + r * m2;
    vstd::arithmetic::div_mod::lemma_fundamental_div_mod_converse(x@ as int, r, m1, x.w0 as int);
    vstd::arithmetic::div_mod::lemma_fundamental_div_mod_converse(m1, r, m2, x.w1 as int);
    vstd::arithmetic::div_mod::lemma_fundamental_div_mod_converse(m2, r, x.w3 as int, x.w2 as int);
    vstd::arithmetic::div_mod::lemma_fundamental_div_mod_converse(x.w3 as int, r, 0, x.w3 as int);
}

/// The integer made from a value below 2^256 has that value.
pub proof fn lemma_value_of_from_nat(n: nat)
    requires
        n < RADIX * RADIX * RADIX * RADIX,
    ensures
        U256::from_nat(n)@ == n,
{
    let r = RADIX as int;
    let n0 = n as int;
    let n1 = n0 / r;
    let n2 = n1 / r;
    let n3 = n2 / r;
    vstd::arithmetic::div_mod::lemma_fundamental_div_mod(n0, r);
    vstd::arithmetic::div_mod::lemma_fundamental_div_mod(n1, r);
    vstd::arithmetic::div_mod::lemma_fundamental_div_mod(n2, r);
    vstd::arithmetic::div_mod::lemma_fundamental_div_mod(n3, r);
    assert(n3 < r) by (nonlinear_arith)
        requires
            n0 < r * r * r * r,
            n1 == n0 / r,
            n2 == n1 / r,
            n3 == n2 / r,
            r > 0,
    ;
    assert(n3 % r == n3) by {
        vstd::arithmetic::div_mod::lemma_small_mod(n3 as nat, r as nat);
    }
    assert(0 <= n1 && 0 <= n2 && 0 <= n3) by (nonlinear_arith)
        requires
            n0 >= 0,
            n1 == n0 / r,
            n2 == n1 / r,
            n3 == n2 / r,
            r > 0,
    ;
}

/// The words, compared from the most significant down, order two integers as
/// their values do.
pub proof fn lemma_order(a: U256, b: U256)
    ensures
        (a@ < b@) == (if a.w3 != b.w3 {
            a.w3 < b.w3
        } else if a.w2 != b.w2 {
            a.w2 < b.w2
        } else if a.w1 != b.w1 {
            a.w1 < b.w1
        } else {
            a.w0 < b.w0
        }),
        (a@ == b@) == (a == b),
{
    let ha = a.w2 + RADIX * a.w3;
    let hb = b.w2 + RADIX * b.w3;
    let ma = a.w1 + RADIX * ha;
    let mb = b.w1 + RADIX * hb;
    assert(a.w3 < b.w3 ==> ha < hb) by (nonlinear_arith)
        requires
            ha == a.w2 + RADIX * a.w3,
            hb == b.w2 + RADIX * b.w3,
            a.w2 < RADIX,
            RADIX > 0,
    ;
    assert(b.w3 < a.w3 ==> hb < ha) by (nonlinear_arith)
        requires
            ha == a.w2 + RADIX * a.w3,
            hb == b.w2 + RADIX * b.w3,
            b.w2 < RADIX,
            RADIX > 0,
    ;
    assert(ha < hb ==> ma < mb) by (nonlinear_arith)
        requires
            ma == a.w1 + RADIX * ha,
            mb == b.w1 + RADIX * hb,
            a.w1 < RADIX,
            RADIX > 0,
    ;
    assert(hb < ha ==> mb < ma) by (nonlinear_arith)
        requires
            ma == a.w1 + RADIX * ha,
            mb == b.w1 + RADIX * hb,
            b.w1 < RADIX,
            RADIX > 0,
    ;
    assert(ma < mb ==> a@ < b@) by (nonlinear_arith)
        requires
            a@ == a.w0 + RADIX * ma,
            b@ == b.w0 + RADIX * mb,
            a.w0 < RADIX,
            RADIX > 0,
    ;
    assert(mb < ma ==> b@ < a@) by (nonlinear_arith)
        requires
            a@ == a.w0 + RADIX * ma,
            b@ == b.w0 + RADIX * mb,
            b.w0 < RADIX,
            RADIX > 0,
    ;
}

} // verus!
