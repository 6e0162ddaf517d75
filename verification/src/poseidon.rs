//! The Poseidon hash over the BN254 scalar field, with the parameters that
//! circom circuits use.

use crate::field::fr_modulus;
use crate::uint256::{values_of, U256};
use ark_bn254::Fr;
use ark_ff::{BigInteger, PrimeField};
use light_poseidon::{Poseidon, PoseidonHasher};
use vstd::prelude::*;

verus! {

/// The Poseidon hash of `inputs`, each input taken modulo the order of the
/// scalar field. Defined for one to twelve inputs.
pub uninterp spec fn poseidon(inputs: Seq<nat>) -> nat;

/// `light_poseidon::Poseidon::<Fr>::new_circom(n)` and `hash` on it, with
/// each input reduced by `Fr::from_be_bytes_mod_order`: the hash is a function
/// of the inputs alone and is a canonical field element. For one to twelve
/// inputs neither call fails.
#[verifier::external_body]
fn poseidon_digest(inputs: &Vec<U256>) -> (r: U256)
    requires
        1 <= inputs@.len() <= 12,
    ensures
        r@ == poseidon(values_of(inputs@)),
        r@ < fr_modulus(),
{
    let elems: Vec<Fr> = inputs.iter().map(|x| Fr::from_be_bytes_mod_order(&x.bytes)).collect();
    let digest = Poseidon::<Fr>::new_circom(elems.len()).unwrap().hash(&elems).unwrap();
    U256 { bytes: digest.into_bigint().to_bytes_be().try_into().unwrap() }
}

/// Hashes one to twelve values.
pub fn hash_values(inputs: &Vec<U256>) -> (r: U256)
    requires
        1 <= inputs@.len() <= 12,
    ensures
        r@ == poseidon(values_of(inputs@)),
        r@ < fr_modulus(),
{
    poseidon_digest(inputs)
}

/// Hashes a pair of values, as a node of a hash tree combines its children.
pub fn hash_pair(left: &U256, right: &U256) -> (r: U256)
    ensures
        r@ == poseidon(seq![left@, right@]),
        r@ < fr_modulus(),
{
    let mut inputs: Vec<U256> = Vec::new();
    inputs.push(*left);
    inputs.push(*right);
    assert(values_of(inputs@) =~= seq![left@, right@]);
    poseidon_digest(&inputs)
}

} // verus!
