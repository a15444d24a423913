use ark_bn254::Fr;
use ark_ff::{BigInteger256, PrimeField};
use rust_zkp::bigint::U256;
use rust_zkp::error::DecodeError;
use rust_zkp::field::FieldElement;

fn modulus() -> U256 {
    U256 {
        w0: 0x43e1f593f0000001,
        w1: 0x2833e84879b97091,
        w2: 0xb85045b68181585d,
        w3: 0x30644e72e131a029,
    }
}

fn to_ark(x: &FieldElement) -> Fr {
    Fr::from_repr(BigInteger256(x.repr.words())).unwrap()
}

fn from_ark(x: Fr) -> FieldElement {
    FieldElement { repr: U256::from_words(x.into_repr().0) }
}

#[test]
fn modulus_is_the_order_of_the_scalar_field() {
    assert_eq!(FieldElement::modulus(), modulus());
    assert_eq!(from_ark(-Fr::from(1u64)).repr.w0, modulus().w0 - 1);
    assert!(Fr::from_repr(BigInteger256(modulus().words())).is_none());
}

#[test]
fn small_numbers_are_field_elements() {
    assert_eq!(FieldElement::from_u64(6), from_ark(Fr::from(6u64)));
    assert_eq!(FieldElement::from_u32(6), FieldElement::from_u64(6));
    assert_eq!(FieldElement::from_u32(u32::MAX), from_ark(Fr::from(u32::MAX)));
    assert!(FieldElement::from_u64(u64::MAX).is_valid());
    assert!(!FieldElement { repr: modulus() }.is_valid());
}

#[test]
fn product_is_that_of_the_field() {
    let a = FieldElement::from_u64(3);
    let b = FieldElement::from_u64(5);
    assert_eq!(a.mul(&b), FieldElement::from_u64(15));
    let big = FieldElement::from_u64(u64::MAX);
    let square = big.mul(&big);
    assert_eq!(square, from_ark(Fr::from(u64::MAX) * Fr::from(u64::MAX)));
    assert_eq!(square.repr, U256 { w0: 1, w1: u64::MAX - 1, w2: 0, w3: 0 });
    let minus_one = from_ark(-Fr::from(1u64));
    assert_eq!(minus_one.mul(&minus_one), FieldElement::from_u64(1));
}

#[test]
fn sum_is_that_of_the_field() {
    let a = FieldElement::from_u64(3);
    let b = FieldElement::from_u64(5);
    assert_eq!(a.add(&b), FieldElement::from_u64(8));
    let minus_one = from_ark(-Fr::from(1u64));
    assert_eq!(minus_one.add(&FieldElement::from_u64(1)), FieldElement::from_u64(0));
    assert_eq!(minus_one.add(&FieldElement::from_u64(3)), FieldElement::from_u64(2));
}

#[test]
fn arithmetic_reduces_its_arguments() {
    let unreduced = FieldElement { repr: modulus() };
    assert_eq!(unreduced.add(&FieldElement::from_u64(2)), FieldElement::from_u64(2));
    assert_eq!(unreduced.mul(&FieldElement::from_u64(2)), FieldElement::from_u64(0));
}

#[test]
fn field_element_decodes_from_its_bytes() {
    let x = FieldElement::from_u64(0x0102030405060708);
    let bytes = x.encode();
    assert_eq!(bytes.len(), 32);
    assert_eq!(bytes[0], 8);
    assert_eq!(bytes[7], 1);
    assert_eq!(FieldElement::decode(&bytes), Ok(x));
    let y = to_ark(&x);
    assert_eq!(from_ark(y), x);
}

#[test]
fn unreduced_field_element_is_not_canonical() {
    let bytes = modulus().to_le_bytes();
    assert_eq!(FieldElement::decode(&bytes), Err(DecodeError::NonCanonical));
    let mut below = modulus();
    below.w0 -= 1;
    assert!(FieldElement::decode(&below.to_le_bytes()).is_ok());
    assert_eq!(FieldElement::decode(&bytes[..31]), Err(DecodeError::Truncated));
    let mut long = below.to_le_bytes();
    long.push(0);
    assert_eq!(FieldElement::decode(&long), Err(DecodeError::TrailingData));
}
