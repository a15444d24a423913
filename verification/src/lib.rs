//! Groth16 proofs over BN254 for the relation `a * b = c`: the encoding of
//! keys and proofs, the constraint system of the relation, verification, and
//! a structured form of a proof for consumers outside this crate.

pub mod backend;
pub mod bigint;
pub mod circuit;
pub mod curve;
pub mod decimal;
pub mod error;
pub mod field;
pub mod interchange;
pub mod keys;
pub mod proofs;
pub mod proving_key;
pub mod sequences;
pub mod verification;
