use ark_bn254::{Bn254, Fr};
use ark_ff::{BigInteger256, PrimeField};
use ark_groth16::{create_random_proof, generate_random_parameters, ProvingKey};
use ark_relations::r1cs::{
    ConstraintSynthesizer, ConstraintSystemRef, LinearCombination, SynthesisError as ArkError,
    Variable as ArkVariable,
};
use ark_serialize::CanonicalSerialize;
use ark_std::rand::{rngs::StdRng, SeedableRng};
use rust_zkp::circuit::{
    Circuit, ConstraintSystem, SynthesisMode, Term, Variable,
};
use rust_zkp::error::{CheckError, VerifyError};
use rust_zkp::field::FieldElement;
use rust_zkp::keys::VerifyingKey;
use rust_zkp::proofs::Proof;
use rust_zkp::verification::{verify, verify_groth16, verify_proof, VerifierConfig};

/// Hands the constraint system that the library synthesizes to arkworks.
struct Replay(Circuit);

fn to_fr(x: &FieldElement) -> Fr {
    Fr::from_repr(BigInteger256(x.repr.words())).expect("a reduced element")
}

fn to_lc(terms: &[Term], witness: &[ArkVariable], instance: &[ArkVariable]) -> LinearCombination<Fr> {
    let mut lc = LinearCombination::<Fr>::zero();
    for t in terms {
        let var = match t.var {
            Variable::One => ArkVariable::One,
            Variable::Instance(i) => instance[i],
            Variable::Witness(i) => witness[i],
        };
        lc = lc + (to_fr(&t.coeff), var);
    }
    lc
}

impl ConstraintSynthesizer<Fr> for Replay {
    fn generate_constraints(self, cs: ConstraintSystemRef<Fr>) -> Result<(), ArkError> {
        let mode = if cs.is_in_setup_mode() { SynthesisMode::Setup } else { SynthesisMode::Prove };
        let mut model = ConstraintSystem::new(mode);
        self.0.synthesize(&mut model).map_err(|_| ArkError::AssignmentMissing)?;
        let mut witness = Vec::new();
        for w in &model.witness {
            let value = w.as_ref().map(to_fr);
            witness.push(cs.new_witness_variable(|| value.ok_or(ArkError::AssignmentMissing))?);
        }
        let mut instance = vec![ArkVariable::One];
        for x in model.instance.iter().skip(1) {
            let value = x.as_ref().map(to_fr);
            instance.push(cs.new_input_variable(|| value.ok_or(ArkError::AssignmentMissing))?);
        }
        for k in &model.constraints {
            cs.enforce_constraint(
                to_lc(&k.a, &witness, &instance),
                to_lc(&k.b, &witness, &instance),
                to_lc(&k.c, &witness, &instance),
            )?;
        }
        Ok(())
    }
}

fn setup(seed: u64) -> ProvingKey<Bn254> {
    let mut rng = StdRng::seed_from_u64(seed);
    generate_random_parameters::<Bn254, _, _>(Replay(Circuit::topology()), &mut rng)
        .expect("setup of the relation")
}

fn key_bytes(pk: &ProvingKey<Bn254>) -> Vec<u8> {
    let mut out = Vec::new();
    pk.vk.serialize(&mut out).unwrap();
    out
}

fn prove(pk: &ProvingKey<Bn254>, circuit: Circuit, seed: u64) -> Vec<u8> {
    let mut rng = StdRng::seed_from_u64(seed);
    let proof = create_random_proof(Replay(circuit), pk, &mut rng).expect("a proof");
    let mut out = Vec::new();
    proof.serialize(&mut out).unwrap();
    out
}

#[test]
fn proof_of_four_times_two_verifies() {
    let pk = setup(0);
    let vk = VerifyingKey::decode(&key_bytes(&pk)).expect("the key decodes");
    let circuit = Circuit::assignment(4, 2);
    let proof = Proof::decode(&prove(&pk, circuit, 0)).expect("the proof decodes");
    let inputs = circuit.public_input().unwrap();
    assert_eq!(inputs, vec![FieldElement::from_u64(8)]);
    assert_eq!(verify(&vk, &proof, &inputs), Ok(true));
}

#[test]
fn proof_does_not_verify_for_another_public_value() {
    let pk = setup(0);
    let vk = VerifyingKey::decode(&key_bytes(&pk)).unwrap();
    let proof = Proof::decode(&prove(&pk, Circuit::assignment(4, 2), 0)).unwrap();
    assert_eq!(verify(&vk, &proof, &[FieldElement::from_u64(9)]), Ok(false));
}

#[test]
fn honest_proofs_verify_for_several_witnesses() {
    let pk = setup(7);
    let vk = VerifyingKey::decode(&key_bytes(&pk)).unwrap();
    let pairs: [(u32, u32); 5] = [(0, 0), (1, 1), (3, 2), (65535, 65537), (u32::MAX, u32::MAX)];
    for (a, b) in pairs {
        let circuit = Circuit::assignment(a, b);
        let proof = Proof::decode(&prove(&pk, circuit, 11)).unwrap();
        let inputs = circuit.public_input().unwrap();
        assert_eq!(inputs[0], FieldElement::from_u64(a as u64 * b as u64));
        assert_eq!(verify(&vk, &proof, &inputs), Ok(true), "a = {}, b = {}", a, b);
    }
}

#[test]
fn proofs_with_other_randomness_differ_and_verify() {
    let pk = setup(0);
    let vk = VerifyingKey::decode(&key_bytes(&pk)).unwrap();
    let circuit = Circuit::assignment(4, 2);
    let first = prove(&pk, circuit, 1);
    let second = prove(&pk, circuit, 2);
    assert_ne!(first, second);
    let inputs = circuit.public_input().unwrap();
    assert_eq!(verify(&vk, &Proof::decode(&first).unwrap(), &inputs), Ok(true));
    assert_eq!(verify(&vk, &Proof::decode(&second).unwrap(), &inputs), Ok(true));
}

#[test]
fn setup_with_one_seed_gives_one_key() {
    assert_eq!(key_bytes(&setup(0)), key_bytes(&setup(0)));
    assert_ne!(key_bytes(&setup(0)), key_bytes(&setup(1)));
}

#[test]
fn proving_without_values_fails() {
    let pk = setup(0);
    let mut rng = StdRng::seed_from_u64(0);
    let missing = Circuit { a: Some(FieldElement::from_u64(4)), b: None, c: None };
    let r = create_random_proof(Replay(missing), &pk, &mut rng);
    assert_eq!(r.err(), Some(ArkError::AssignmentMissing));
}

#[test]
fn every_flipped_byte_is_refused_or_fails_verification() {
    let pk = setup(0);
    let vk = VerifyingKey::decode(&key_bytes(&pk)).unwrap();
    let circuit = Circuit::assignment(4, 2);
    let bytes = prove(&pk, circuit, 3);
    let inputs = circuit.public_input().unwrap();
    let original = Proof::decode(&bytes).unwrap();
    for i in 0..bytes.len() {
        let mut altered = bytes.clone();
        altered[i] ^= 0x01;
        match Proof::decode(&altered) {
            Err(_) => {}
            Ok(p) => {
                assert_ne!(p, original);
                assert_eq!(verify(&vk, &p, &inputs), Ok(false), "byte {}", i);
            }
        }
    }
}

#[test]
fn library_encoding_is_that_of_arkworks() {
    let pk = setup(5);
    let ark_key = key_bytes(&pk);
    let vk = VerifyingKey::decode(&ark_key).unwrap();
    assert_eq!(vk.encode(), ark_key);
    let ark_proof = prove(&pk, Circuit::assignment(10, 20), 9);
    assert_eq!(Proof::decode(&ark_proof).unwrap().encode(), ark_proof);
}

#[test]
fn verifier_reports_each_result() {
    let pk = setup(0);
    let circuit = Circuit::assignment(4, 2);
    let good = VerifierConfig {
        vk_bytes: key_bytes(&pk),
        public_input: circuit.public_input().unwrap(),
    };
    let bytes = prove(&pk, circuit, 0);
    assert_eq!(verify_groth16(&good, &bytes), "Proof is valid");
    assert_eq!(verify_proof(&good, &bytes), Ok(true));

    let other = VerifierConfig { vk_bytes: key_bytes(&pk), public_input: vec![FieldElement::from_u64(7)] };
    assert_eq!(verify_groth16(&other, &bytes), "Proof is invalid");

    assert_eq!(verify_groth16(&good, &bytes[..100]), "Failed to deserialize proof: Truncated");

    let no_key = VerifierConfig { vk_bytes: vec![1, 2, 3], public_input: vec![] };
    assert_eq!(verify_groth16(&no_key, &bytes), "Failed to deserialize vk: Truncated");

    let no_input = VerifierConfig { vk_bytes: key_bytes(&pk), public_input: vec![] };
    assert_eq!(verify_groth16(&no_input, &bytes), "Failed to verify proof: InputLength");
    assert_eq!(verify_proof(&no_input, &bytes), Err(CheckError::Verify(VerifyError::InputLength)));
}
