//! Core of a shielded pool: an append-only Merkle accumulator with a bounded
//! window of accepted roots, the decoders for Groth16 proofs and verifying
//! keys, the proof check itself, and the encoding of public circuit inputs.

pub mod address;
pub mod codec;
pub mod curve;
pub mod decimal;
pub mod field;
pub mod groth16;
pub mod json;
pub mod merkle_root;
pub mod merkle_tree;
pub mod msg;
pub mod pool;
pub mod poseidon;
pub mod proof_verifier;
pub mod swap;
pub mod uint256;
