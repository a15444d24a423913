//! The calls into the arkworks crates. Each function here has a contract that
//! is taken on trust from the source of the crate it calls.

use crate::bigint::U256;
use crate::curve::{base_modulus, fq2_is_upper, fq_is_upper, g1_on_curve, g2_on_curve};
use crate::field::scalar_modulus;
use ark_ff::{BigInteger256, PrimeField};
use ark_serialize::CanonicalDeserialize;
use vstd::prelude::*;

verus! {

/// The `y` that `ark_ec`'s `GroupAffine::get_point_from_x` finds on the curve
/// G1 of BN254 for an abscissa `x` below the base modulus, the larger of the
/// two candidates when `upper` is set.
pub uninterp spec fn g1_ordinate(x: nat, upper: bool) -> Option<nat>;

/// The same for the curve G2, whose coordinates are pairs.
pub uninterp spec fn g2_ordinate(x: (nat, nat), upper: bool) -> Option<(nat, nat)>;

/// What `is_in_correct_subgroup_assuming_on_curve` answers for the point
/// `(x, y)` of G1.
pub uninterp spec fn g1_in_subgroup(x: nat, y: nat) -> bool;

/// What `is_in_correct_subgroup_assuming_on_curve` answers for the point
/// `(x, y)` of G2.
pub uninterp spec fn g2_in_subgroup(x: (nat, nat), y: (nat, nat)) -> bool;

/// What `ark_groth16::verify_proof` answers for a verifying key, a proof and
/// a sequence of public inputs, each given in the encoding of
/// `ark_serialize`, with the key prepared by `prepare_verifying_key`. It is
/// `None` where one of the three is not decoded or `verify_proof` returns an
/// error.
pub uninterp spec fn groth16_outcome(vk: Seq<u8>, proof: Seq<u8>, inputs: Seq<u8>) -> Option<bool>;

/// Calls `ark_groth16::verify_proof` over BN254, on a key prepared by
/// `ark_groth16::prepare_verifying_key`. The key, the proof and the public
/// inputs are handed over in their encodings, which `deserialize` of
/// `ark_serialize` turns into the values of arkworks. Nothing is claimed of
/// the answer but that it depends on the three byte strings alone.
#[verifier::external_body]
pub(crate) fn groth16_check(vk: &[u8], proof: &[u8], inputs: &[u8]) -> (r: Option<bool>)
    ensures
        r == groth16_outcome(vk@, proof@, inputs@),
{
    let vk = ark_groth16::VerifyingKey::<ark_bn254::Bn254>::deserialize(vk).ok()?;
    let proof = ark_groth16::Proof::<ark_bn254::Bn254>::deserialize(proof).ok()?;
    let inputs = Vec::<ark_bn254::Fr>::deserialize(inputs).ok()?;
    let pvk = ark_groth16::prepare_verifying_key(&vk);
    ark_groth16::verify_proof(&pvk, &proof, &inputs).ok()
}

/// Calls `ark_bn254::G1Affine::get_point_from_x`. It takes a square root of
/// `x^3 + 3` in the base field and returns `None` when there is none. Of a
/// root and its negation it returns the larger one if `upper` is set, else the
/// smaller one. The ordinate returned is reduced and lies on the curve.
#[verifier::external_body]
pub(crate) fn g1_recover_y(x: &U256, upper: bool) -> (r: Option<U256>)
    requires
        x@ < base_modulus(),
    ensures
        r matches Some(y) ==> g1_ordinate(x@, upper) == Some(y@) && y@ < base_modulus()
            && g1_on_curve(x@, y@) && (y@ == 0 || fq_is_upper(y@) == upper),
        r is None ==> g1_ordinate(x@, upper) is None,
{
    let x = ark_bn254::Fq::from_repr(BigInteger256(x.words()))?;
    let p = ark_bn254::G1Affine::get_point_from_x(x, upper)?;
    Some(U256::from_words(p.y.into_repr().0))
}

/// Calls `ark_bn254::G2Affine::get_point_from_x`, which does on G2, over the
/// quadratic extension of the base field, what the function above does on G1.
#[verifier::external_body]
pub(crate) fn g2_recover_y(x0: &U256, x1: &U256, upper: bool) -> (r: Option<(U256, U256)>)
    requires
        x0@ < base_modulus(),
        x1@ < base_modulus(),
    ensures
        r matches Some(y) ==> g2_ordinate((x0@, x1@), upper) == Some((y.0@, y.1@)) && y.0@
            < base_modulus() && y.1@ < base_modulus() && g2_on_curve((x0@, x1@), (y.0@, y.1@))
            && ((y.0@ == 0 && y.1@ == 0) || fq2_is_upper((y.0@, y.1@)) == upper),
        r is None ==> g2_ordinate((x0@, x1@), upper) is None,
{
    let c0 = ark_bn254::Fq::from_repr(BigInteger256(x0.words()))?;
    let c1 = ark_bn254::Fq::from_repr(BigInteger256(x1.words()))?;
    let p = ark_bn254::G2Affine::get_point_from_x(ark_bn254::Fq2::new(c0, c1), upper)?;
    Some((U256::from_words(p.y.c0.into_repr().0), U256::from_words(p.y.c1.into_repr().0)))
}

/// Calls `is_in_correct_subgroup_assuming_on_curve` on the point `(x, y)` of
/// G1: whether the point times the order of the scalar field is the identity.
#[verifier::external_body]
pub(crate) fn g1_subgroup_check(x: &U256, y: &U256) -> (r: bool)
    requires
        x@ < base_modulus(),
        y@ < base_modulus(),
    ensures
        r == g1_in_subgroup(x@, y@),
{
    match (
        ark_bn254::Fq::from_repr(BigInteger256(x.words())),
        ark_bn254::Fq::from_repr(BigInteger256(y.words())),
    ) {
        (Some(x), Some(y)) => ark_bn254::G1Affine::new(
            x,
            y,
            false,
        ).is_in_correct_subgroup_assuming_on_curve(),
        _ => false,
    }
}

/// Calls `is_in_correct_subgroup_assuming_on_curve` on the point `(x, y)` of
/// G2.
#[verifier::external_body]
pub(crate) fn g2_subgroup_check(x: &(U256, U256), y: &(U256, U256)) -> (r: bool)
    requires
        x.0@ < base_modulus(),
        x.1@ < base_modulus(),
        y.0@ < base_modulus(),
        y.1@ < base_modulus(),
    ensures
        r == g2_in_subgroup((x.0@, x.1@), (y.0@, y.1@)),
{
    match (
        ark_bn254::Fq::from_repr(BigInteger256(x.0.words())),
        ark_bn254::Fq::from_repr(BigInteger256(x.1.words())),
        ark_bn254::Fq::from_repr(BigInteger256(y.0.words())),
        ark_bn254::Fq::from_repr(BigInteger256(y.1.words())),
    ) {
        (Some(a), Some(b), Some(c), Some(d)) => ark_bn254::G2Affine::new(
            ark_bn254::Fq2::new(a, b),
            ark_bn254::Fq2::new(c, d),
            false,
        ).is_in_correct_subgroup_assuming_on_curve(),
        _ => false,
    }
}

/// Adds two integers in `ark_bn254::Fr`, the scalar field, after reducing
/// each with `from_le_bytes_mod_order`. The sum comes back reduced.
#[verifier::external_body]
pub(crate) fn fr_sum(a: &U256, b: &U256) -> (r: U256)
    ensures
        r@ == (a@ + b@) % scalar_modulus(),
        r@ < scalar_modulus(),
{
    let a = ark_bn254::Fr::from_le_bytes_mod_order(&a.to_le_bytes());
    let b = ark_bn254::Fr::from_le_bytes_mod_order(&b.to_le_bytes());
    U256::from_words((a + b).into_repr().0)
}

/// Multiplies two integers in `ark_bn254::Fr`, the scalar field, after
/// reducing each with `from_le_bytes_mod_order`. The product comes back
/// reduced.
#[verifier::external_body]
pub(crate) fn fr_product(a: &U256, b: &U256) -> (r: U256)
    ensures
        r@ == (a@ * b@) % scalar_modulus(),
        r@ < scalar_modulus(),
{
    let a = ark_bn254::Fr::from_le_bytes_mod_order(&a.to_le_bytes());
    let b = ark_bn254::Fr::from_le_bytes_mod_order(&b.to_le_bytes());
    U256::from_words((a * b).into_repr().0)
}

} // verus!
