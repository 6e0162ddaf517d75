//! Groth16 proofs and verifying keys over BN254, and their verification.

use crate::curve::{g1_valid, g2_valid, Fq2Element, G1Point, G2Point};
use crate::uint256::{values_of, U256};
use ark_bn254::{Bn254, Fq, Fq2, Fr, G1Affine, G2Affine};
use ark_ff::PrimeField;
use ark_groth16::{prepare_verifying_key, Groth16};
use vstd::prelude::*;

verus! {

/// What a proof holds, as numbers.
pub struct ProofModel {
    pub a: (nat, nat),
    pub b: ((nat, nat), (nat, nat)),
    pub c: (nat, nat),
}

/// What a verifying key holds, as numbers.
pub struct KeyModel {
    pub alpha_g1: (nat, nat),
    pub beta_g2: ((nat, nat), (nat, nat)),
    pub gamma_g2: ((nat, nat), (nat, nat)),
    pub delta_g2: ((nat, nat), (nat, nat)),
    pub gamma_abc_g1: Seq<(nat, nat)>,
}

impl ProofModel {
    /// Whether each point is a valid point of its group.
    pub open spec fn valid(self) -> bool {
        g1_valid(self.a) && g2_valid(self.b) && g1_valid(self.c)
    }
}

impl KeyModel {
    /// Whether each point is a valid point of its group and `gamma_abc_g1`
    /// is not empty.
    pub open spec fn valid(self) -> bool {
        &&& g1_valid(self.alpha_g1)
        &&& g2_valid(self.beta_g2)
        &&& g2_valid(self.gamma_g2)
        &&& g2_valid(self.delta_g2)
        &&& self.gamma_abc_g1.len() >= 1
        &&& forall|i: int|
            0 <= i < self.gamma_abc_g1.len() ==> g1_valid(#[trigger] self.gamma_abc_g1[i])
    }
}

/// Whether the pairing equation of Groth16 holds of the key, the proof and
/// the public inputs, each input taken modulo the order of the scalar field:
/// `e(a, b) == e(alpha, beta) * e(x, gamma) * e(c, delta)`, where `x` is the
/// first point of `gamma_abc_g1` plus the other points, each multiplied by
/// its input.
pub uninterp spec fn groth16_accepts(key: KeyModel, proof: ProofModel, inputs: Seq<nat>) -> bool;

/// A proof: two points of the curve and one of the twist.
#[derive(Clone, Copy, Debug, PartialEq, Eq)]
pub struct Proof {
    pub a: G1Point,
    pub b: G2Point,
    pub c: G1Point,
}

impl View for Proof {
    type V = ProofModel;

    open spec fn view(&self) -> ProofModel {
        ProofModel { a: self.a@, b: self.b@, c: self.c@ }
    }
}

impl Proof {
    /// Whether each point is a valid point of its group.
    pub open spec fn wf(&self) -> bool {
        self@.valid()
    }

    /// Decides `wf`.
    pub fn is_valid(&self) -> (r: bool)
        ensures
            r == self.wf(),
    {
        self.a.is_valid() && self.b.is_valid() && self.c.is_valid()
    }
}

/// The verifying key of a circuit. `gamma_abc_g1` holds one point more than
/// the circuit has public inputs.
#[derive(Clone, Debug, PartialEq, Eq)]
pub struct VerifyingKey {
    pub alpha_g1: G1Point,
    pub beta_g2: G2Point,
    pub gamma_g2: G2Point,
    pub delta_g2: G2Point,
    pub gamma_abc_g1: Vec<G1Point>,
}

/// The coordinates of a sequence of points.
pub open spec fn points_of(s: Seq<G1Point>) -> Seq<(nat, nat)> {
    s.map_values(|p: G1Point| p@)
}

impl View for VerifyingKey {
    type V = KeyModel;

    open spec fn view(&self) -> KeyModel {
        KeyModel {
            alpha_g1: self.alpha_g1@,
            beta_g2: self.beta_g2@,
            gamma_g2: self.gamma_g2@,
            delta_g2: self.delta_g2@,
            gamma_abc_g1: points_of(self.gamma_abc_g1@),
        }
    }
}

impl VerifyingKey {
    /// Whether each point is a valid point of its group and `gamma_abc_g1`
    /// is not empty.
    pub open spec fn wf(&self) -> bool {
        self@.valid()
    }

    /// Decides `wf`.
    pub fn is_valid(&self) -> (r: bool)
        ensures
            r == self.wf(),
    {
        if !(self.alpha_g1.is_valid() && self.beta_g2.is_valid() && self.gamma_g2.is_valid()
            && self.delta_g2.is_valid()) {
            return false;
        }
        if self.gamma_abc_g1.len() == 0 {
            return false;
        }
        let mut i: usize = 0;
        while i < self.gamma_abc_g1.len()
            invariant
                i <= self.gamma_abc_g1@.len(),
                forall|j: int| 0 <= j < i ==> g1_valid(#[trigger] self@.gamma_abc_g1[j]),
            decreases self.gamma_abc_g1@.len() - i,
        {
            if !self.gamma_abc_g1[i].is_valid() {
                assert(!g1_valid(self@.gamma_abc_g1[i as int]));
                return false;
            }
            i += 1;
        }
        true
    }
}

/// Why a proof was not checked.
#[derive(Clone, Copy, Debug, PartialEq, Eq)]
pub enum VerifyError {
    /// The number of public inputs is not the number that the key is for.
    InputCount,
    /// A point of the key is not a valid point of its group.
    MalformedKey,
    /// A point of the proof is not a valid point of its group.
    MalformedProof,
}

/// A verifying key together with what verification needs of the key alone,
/// computed in advance: an `ark_groth16::PreparedVerifyingKey<Bn254>`. What
/// it holds is known through `prepared_key` alone.
#[verifier::external_body]
pub struct PreparedKey {
    inner: ark_groth16::PreparedVerifyingKey<Bn254>,
}

/// The key that a prepared key was made of.
pub uninterp spec fn prepared_key(key: PreparedKey) -> KeyModel;

/// `ark_groth16::prepare_verifying_key`, which pairs `alpha_g1` with
/// `beta_g2` and negates `gamma_g2` and `delta_g2`. On valid points it does
/// not fail.
#[verifier::external_body]
fn prepare_key(vk: &VerifyingKey) -> (r: PreparedKey)
    requires
        vk.wf(),
    ensures
        prepared_key(r) == vk@,
{
    let fq = |v: &U256| Fq::from_be_bytes_mod_order(&v.bytes);
    let g1 = |p: &G1Point| G1Affine::new_unchecked(fq(&p.x), fq(&p.y));
    let f2 = |e: &Fq2Element| Fq2 { c0: fq(&e.c0), c1: fq(&e.c1) };
    let g2 = |p: &G2Point| G2Affine::new_unchecked(f2(&p.x), f2(&p.y));
    let key = ark_groth16::VerifyingKey {
        alpha_g1: g1(&vk.alpha_g1),
        beta_g2: g2(&vk.beta_g2),
        gamma_g2: g2(&vk.gamma_g2),
        delta_g2: g2(&vk.delta_g2),
        gamma_abc_g1: vk.gamma_abc_g1.iter().map(g1).collect(),
    };
    PreparedKey { inner: prepare_verifying_key(&key) }
}

/// `Groth16::<Bn254>::verify_proof` on a prepared key, the proof and the
/// inputs, each input reduced by `Fr::from_be_bytes_mod_order`: whether the
/// proof is accepted, which is a function of the three. Where the call
/// reports an error the proof is not accepted.
#[verifier::external_body]
fn pairing_check(key: &PreparedKey, proof: &Proof, inputs: &Vec<U256>) -> (r: bool)
    ensures
        r == groth16_accepts(prepared_key(*key), proof@, values_of(inputs@)),
{
    let fq = |v: &U256| Fq::from_be_bytes_mod_order(&v.bytes);
    let g1 = |p: &G1Point| G1Affine::new_unchecked(fq(&p.x), fq(&p.y));
    let f2 = |e: &Fq2Element| Fq2 { c0: fq(&e.c0), c1: fq(&e.c1) };
    let pi = ark_groth16::Proof {
        a: g1(&proof.a),
        b: G2Affine::new_unchecked(f2(&proof.b.x), f2(&proof.b.y)),
        c: g1(&proof.c),
    };
    let xs: Vec<Fr> = inputs.iter().map(|v| Fr::from_be_bytes_mod_order(&v.bytes)).collect();
    Groth16::<Bn254>::verify_proof(&key.inner, &pi, &xs).unwrap_or(false)
}

/// The outcome of a check: an error where the inputs are not as many as the
/// key is for or where a point is not valid, else whether the pairing
/// equation holds.
pub open spec fn verify_outcome(key: KeyModel, proof: ProofModel, inputs: Seq<nat>) -> Result<
    bool,
    VerifyError,
> {
    if inputs.len() + 1 != key.gamma_abc_g1.len() {
        Err(VerifyError::InputCount)
    } else if !key.valid() {
        Err(VerifyError::MalformedKey)
    } else if !proof.valid() {
        Err(VerifyError::MalformedProof)
    } else {
        Ok(groth16_accepts(key, proof, inputs))
    }
}

/// Checks a proof against a verifying key and the public inputs of the
/// statement. A proof that does not satisfy the pairing equation is rejected
/// with `Ok(false)`; an error says that no check was made.
pub fn verify(vk: &VerifyingKey, proof: &Proof, public_inputs: &Vec<U256>) -> (r: Result<
    bool,
    VerifyError,
>)
    ensures
        r == verify_outcome(vk@, proof@, values_of(public_inputs@)),
{
    let points: usize = vk.gamma_abc_g1.len();
    if points == 0 || public_inputs.len() != points - 1 {
        return Err(VerifyError::InputCount);
    }
    if !vk.is_valid() {
        return Err(VerifyError::MalformedKey);
    }
    if !proof.is_valid() {
        return Err(VerifyError::MalformedProof);
    }
    let prepared = prepare_key(vk);
    Ok(pairing_check(&prepared, proof, public_inputs))
}

} // verus!
