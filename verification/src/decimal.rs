//! Decimal numerals of 256-bit integers.

use crate::bigint::{U256, RADIX};
use vstd::prelude::*;
use vstd::string::StringExecFns;

verus! {

/// The character of a decimal digit.
pub open spec fn digit_char(d: nat) -> char {
    if d == 0 {
        '0'
    } else if d == 1 {
        '1'
    } else if d == 2 {
        '2'
    } else if d == 3 {
        '3'
    } else if d == 4 {
        '4'
    } else if d == 5 {
        '5'
    } else if d == 6 {
        '6'
    } else if d == 7 {
        '7'
    } else if d == 8 {
        '8'
    } else {
        '9'
    }
}

/// The decimal numeral of a number, without leading zeros; "0" for zero.
pub open spec fn decimal(n: nat) -> Seq<char>
    decreases n,
{
    if n < 10 {
        seq![digit_char(n)]
    } else {
        decimal(n / 10).push(digit_char(n % 10))
    }
}

/// The decimal numeral of a positive number, and no digit for zero.
pub open spec fn leading(n: nat) -> Seq<char> {
    if n == 0 {
        Seq::empty()
    } else {
        decimal(n)
    }
}

/// The characters of a sequence of digits, the last digit first.
pub open spec fn reversed_text(ds: Seq<u8>) -> Seq<char>
    decreases ds.len(),
{
    if ds.len() == 0 {
        Seq::empty()
    } else {
        seq![digit_char(ds.last() as nat)] + reversed_text(ds.drop_last())
    }
}

/// A numeral is the numeral of the tenth part, if that is not zero, and the
/// last digit.
pub proof fn lemma_decimal_step(n: nat)
    ensures
        decimal(n) == leading(n / 10).push(digit_char(n % 10)),
{
    if n < 10 {
        assert(n / 10 == 0);
        assert(n % 10 == n);
        assert(decimal(n) =~= Seq::<char>::empty().push(digit_char(n)));
    }
}

/// The text of one decimal digit.
pub fn digit_text(d: u8) -> (r: &'static str)
    requires
        d < 10,
    ensures
        r@ == seq![digit_char(d as nat)],
{
    proof {
        reveal_strlit("0");
        reveal_strlit("1");
        reveal_strlit("2");
        reveal_strlit("3");
        reveal_strlit("4");
        reveal_strlit("5");
        reveal_strlit("6");
        reveal_strlit("7");
        reveal_strlit("8");
        reveal_strlit("9");
    }
    let r = if d == 0 {
        "0"
    } else if d == 1 {
        "1"
    } else if d == 2 {
        "2"
    } else if d == 3 {
        "3"
    } else if d == 4 {
        "4"
    } else if d == 5 {
        "5"
    } else if d == 6 {
        "6"
    } else if d == 7 {
        "7"
    } else if d == 8 {
        "8"
    } else {
        "9"
    };
    assert(r@ =~= seq![digit_char(d as nat)]);
    r
}

/// The tenth part of an integer, rounded down, and the rest.
pub fn div_rem_10(x: &U256) -> (r: (U256, u8))
    ensures
        r.0@ == x@ / 10,
        r.1 == x@ % 10,
{
    let c3: u128 = x.w3 as u128;
    let q3: u128 = c3 / 10;
    let r3: u128 = c3 % 10;
    let c2: u128 = r3 * RADIX + x.w2 as u128;
    let q2: u128 = c2 / 10;
    let r2: u128 = c2 % 10;
    let c1: u128 = r2 * RADIX + x.w1 as u128;
    let q1: u128 = c1 / 10;
    let r1: u128 = c1 % 10;
    let c0: u128 = r1 * RADIX + x.w0 as u128;
    let q0: u128 = c0 / 10;
    let r0: u128 = c0 % 10;
    let q = U256 { w0: q0 as u64, w1: q1 as u64, w2: q2 as u64, w3: q3 as u64 };
    proof {
        assert(10 * q@ + r0 == x@);
        vstd::arithmetic::div_mod::lemma_fundamental_div_mod_converse(
            x@ as int,
            10,
            q@ as int,
            r0 as int,
        );
    }
    (q, r0 as u8)
}

/// The decimal numeral of an integer.
pub fn to_decimal(x: &U256) -> (r: String)
    ensures
        r@ == decimal(x@),
{
    let mut digits: Vec<u8> = Vec::new();
    let (first_q, first_d) = div_rem_10(x);
    digits.push(first_d);
    let mut cur = first_q;
    proof {
        lemma_decimal_step(x@);
        assert(digits@.drop_last() =~= Seq::<u8>::empty());
        assert(digits@.last() == first_d);
        assert(reversed_text(digits@.drop_last()) =~= Seq::<char>::empty());
        assert(reversed_text(digits@) =~= seq![digit_char(first_d as nat)]);
        assert(decimal(x@) =~= leading(cur@) + reversed_text(digits@));
    }
    while !cur.is_zero()
        invariant
            decimal(x@) == leading(cur@) + reversed_text(digits@),
            forall|i: int| 0 <= i < digits@.len() ==> digits@[i] < 10,
        decreases cur@,
    {
        let (q, d) = div_rem_10(&cur);
        proof {
            lemma_decimal_step(cur@);
            let next = digits@.push(d);
            assert(next.drop_last() =~= digits@);
            assert(next.last() == d);
            assert(leading(cur@) + reversed_text(digits@) =~= leading(q@) + reversed_text(next));
        }
        digits.push(d);
        cur = q;
    }
    let mut out = String::new();
    let mut i: usize = digits.len();
    proof {
        assert(digits@.take(i as int) =~= digits@);
        assert(leading(cur@) + reversed_text(digits@) =~= reversed_text(digits@));
    }
    while i > 0
        invariant
            i <= digits@.len(),
            forall|j: int| 0 <= j < digits@.len() ==> digits@[j] < 10,
            out@ + reversed_text(digits@.take(i as int)) == reversed_text(digits@),
        decreases i,
    {
        proof {
            let part = digits@.take(i as int);
            assert(part.drop_last() =~= digits@.take(i - 1));
            assert(part.last() == digits@[i - 1]);
            assert(reversed_text(part) =~= seq![digit_char(digits@[i - 1] as nat)]
                + reversed_text(digits@.take(i - 1)));
        }
        i -= 1;
        out.append(digit_text(digits[i]));
        proof {
            assert(out@ + reversed_text(digits@.take(i as int)) =~= reversed_text(digits@));
        }
    }
    proof {
        assert(digits@.take(0) =~= Seq::<u8>::empty());
        assert(out@ + Seq::<char>::empty() =~= out@);
    }
    out
}

} // verus!
