//! The two prime fields of the BN254 curve.

use crate::uint256::U256;
use vstd::prelude::*;

verus! {

/// The order of the base field, in which curve points have their
/// coordinates.
pub open spec fn fq_modulus() -> nat {
    21888242871839275222246405745257275088696311157297823662689037894645226208583nat
}

/// The order of the scalar field, in which circuits compute.
pub open spec fn fr_modulus() -> nat {
    21888242871839275222246405745257275088548364400416034343698204186575808495617nat
}

/// The order of the base field.
pub fn fq_order() -> (r: U256)
    ensures
        r@ == fq_modulus(),
{
    U256::from_halves(
        0x30644e72e131a029b85045b68181585du128,
        0x97816a916871ca8d3c208c16d87cfd47u128,
    )
}

} // verus!
