//! Verification of a proof against a verifying key and public inputs.

use crate::backend::{groth16_check, groth16_outcome};
use crate::error::{CheckError, VerifyError};
use crate::field::FieldElement;
use crate::keys::{VerifyingKey, VerifyingKeyView};
use crate::sequences::{count_encoding, encode_count};
use crate::proofs::Proof;
use vstd::prelude::*;
use vstd::string::StringExecFns;

verus! {

/// The bytes of a sequence of field elements, one after the other.
pub open spec fn elements_encoding(xs: Seq<FieldElement>) -> Seq<u8>
    decreases xs.len(),
{
    if xs.len() == 0 {
        Seq::empty()
    } else {
        elements_encoding(xs.drop_last()) + xs.last().encoding()
    }
}

/// The bytes that stand for a sequence of public inputs: their count in
/// eight bytes, then the elements.
pub open spec fn inputs_encoding(xs: Seq<FieldElement>) -> Seq<u8> {
    count_encoding(xs.len() as u64) + elements_encoding(xs)
}

/// What a check that was made, or could not be made, means for the caller.
pub open spec fn verdict(outcome: Option<bool>) -> Result<bool, VerifyError> {
    match outcome {
        Some(accepted) => Ok(accepted),
        None => Err(VerifyError::Malformed),
    }
}

/// What verification returns: an error where the number of public inputs
/// is not the one the key is made for, else the verdict on what the pairing
/// check answers for the encodings of the three arguments.
pub open spec fn verification(vk: VerifyingKeyView, proof: Proof, inputs: Seq<FieldElement>)
    -> Result<bool, VerifyError> {
    if inputs.len() != vk.inputs() {
        Err(VerifyError::InputLength)
    } else {
        verdict(groth16_outcome(vk.encoding(), proof.encoding(), inputs_encoding(inputs)))
    }
}

/// Encodes a sequence of public inputs.
pub fn encode_inputs(xs: &[FieldElement]) -> (r: Vec<u8>)
    ensures
        r@ == inputs_encoding(xs@),
{
    let mut out = encode_count(xs.len() as u64);
    let ghost head = out@;
    let mut i: usize = 0;
    while i < xs.len()
        invariant
            i <= xs@.len(),
            head == count_encoding(xs@.len() as u64),
            out@ == head + elements_encoding(xs@.take(i as int)),
        decreases xs@.len() - i,
    {
        let e = xs[i].encode();
        out.extend_from_slice(e.as_slice());
        proof {
            let next = xs@.take(i + 1);
            assert(next.drop_last() =~= xs@.take(i as int));
            assert(next.last() == xs@[i as int]);
            assert(out@ =~= head + (elements_encoding(next.drop_last()) + next.last().encoding()));
        }
        i += 1;
    }
    assert(xs@.take(xs@.len() as int) =~= xs@);
    out
}

/// Turns the answer of the pairing check into the result of verification:
/// a proof that was checked is accepted or not, one that could not be
/// checked is an error.
pub fn interpret(outcome: Option<bool>) -> (r: Result<bool, VerifyError>)
    ensures
        r == verdict(outcome),
{
    match outcome {
        Some(accepted) => Ok(accepted),
        None => Err(VerifyError::Malformed),
    }
}

/// Verifies a proof against a key and the public inputs. A proof that the
/// check refuses is `Ok(false)`, not an error.
pub fn verify(vk: &VerifyingKey, proof: &Proof, public_input: &[FieldElement]) -> (r: Result<
    bool,
    VerifyError,
>)
    ensures
        r == verification(vk@, *proof, public_input@),
        public_input@.len() + 1 != vk@.gamma_abc_g1.len() ==> r == Err::<bool, VerifyError>(
            VerifyError::InputLength,
        ),
{
    let points = vk.gamma_abc_g1.len();
    if points == 0 || public_input.len() != points - 1 {
        return Err(VerifyError::InputLength);
    }
    let key_bytes = vk.encode();
    let proof_bytes = proof.encode();
    let input_bytes = encode_inputs(public_input);
    interpret(groth16_check(key_bytes.as_slice(), proof_bytes.as_slice(), input_bytes.as_slice()))
}

/// What a verifier is started with and never changes: the encoding of its
/// verifying key and the public inputs against which it checks proofs.
#[derive(Clone, Debug, PartialEq, Eq)]
pub struct VerifierConfig {
    pub vk_bytes: Vec<u8>,
    pub public_input: Vec<FieldElement>,
}

/// What the check of an encoded proof returns: the key is decoded first,
/// then the proof, then the proof is verified.
pub open spec fn checked(vk_bytes: Seq<u8>, inputs: Seq<FieldElement>, proof: Seq<u8>) -> Result<
    bool,
    CheckError,
> {
    match VerifyingKeyView::decoding(vk_bytes) {
        Err(e) => Err(CheckError::Key(e)),
        Ok(vk) => match Proof::decoding(proof) {
            Err(e) => Err(CheckError::Proof(e)),
            Ok(p) => match verification(vk, p, inputs) {
                Err(e) => Err(CheckError::Verify(e)),
                Ok(accepted) => Ok(accepted),
            },
        },
    }
}

/// The sentence that reports the result of a check.
pub open spec fn report(r: Result<bool, CheckError>) -> Seq<char> {
    match r {
        Ok(true) => "Proof is valid"@,
        Ok(false) => "Proof is invalid"@,
        Err(CheckError::Key(e)) => "Failed to deserialize vk: "@ + e.name_spec(),
        Err(CheckError::Proof(e)) => "Failed to deserialize proof: "@ + e.name_spec(),
        Err(CheckError::Verify(e)) => "Failed to verify proof: "@ + e.name_spec(),
    }
}

/// Checks an encoded proof against the key and the public inputs of the
/// verifier. A proof that is decoded and refused is `Ok(false)`.
pub fn verify_proof(config: &VerifierConfig, proof: &[u8]) -> (r: Result<bool, CheckError>)
    ensures
        r == checked(config.vk_bytes@, config.public_input@, proof@),
{
    let vk = match VerifyingKey::decode(config.vk_bytes.as_slice()) {
        Ok(vk) => vk,
        Err(e) => {
            return Err(CheckError::Key(e));
        },
    };
    let p = match Proof::decode(proof) {
        Ok(p) => p,
        Err(e) => {
            return Err(CheckError::Proof(e));
        },
    };
    match verify(&vk, &p, config.public_input.as_slice()) {
        Ok(accepted) => Ok(accepted),
        Err(e) => Err(CheckError::Verify(e)),
    }
}

/// Reports the result of a check as a sentence.
pub fn describe(r: Result<bool, CheckError>) -> (text: String)
    ensures
        text@ == report(r),
{
    match r {
        Ok(true) => String::from_str("Proof is valid"),
        Ok(false) => String::from_str("Proof is invalid"),
        Err(CheckError::Key(e)) => String::from_str("Failed to deserialize vk: ").concat(e.name()),
        Err(CheckError::Proof(e)) => String::from_str("Failed to deserialize proof: ").concat(
            e.name(),
        ),
        Err(CheckError::Verify(e)) => String::from_str("Failed to verify proof: ").concat(
            e.name(),
        ),
    }
}

/// Checks an encoded proof and reports the result as a sentence.
pub fn verify_groth16(config: &VerifierConfig, proof: &[u8]) -> (r: String)
    ensures
        r@ == report(checked(config.vk_bytes@, config.public_input@, proof@)),
{
    describe(verify_proof(config, proof))
}

} // verus!
