//! Points of the BN254 curve and of its twist, by their affine coordinates.

use crate::decimal::{decimal_value, is_canonical_decimal, is_canonical_decimal_str};
use crate::field::{fq_modulus, fq_order, fr_modulus};
use crate::uint256::U256;
use ark_bn254::{Fq, Fq2, Fr, G1Affine, G1Projective, G2Affine, G2Projective};
use ark_ff::{BigInteger, PrimeField};
use vstd::prelude::*;

verus! {

/// The product of two elements of the quadratic extension of the base field,
/// in which `u * u == -1`. An element `c0 + c1 * u` is the pair `(c0, c1)`.
pub open spec fn fq2_mul(a: (nat, nat), b: (nat, nat)) -> (nat, nat) {
    (
        ((a.0 * b.0 - a.1 * b.1) % (fq_modulus() as int)) as nat,
        (a.0 * b.1 + a.1 * b.0) % fq_modulus(),
    )
}

/// The sum of two elements of the quadratic extension.
pub open spec fn fq2_add(a: (nat, nat), b: (nat, nat)) -> (nat, nat) {
    ((a.0 + b.0) % fq_modulus(), (a.1 + b.1) % fq_modulus())
}

/// The constant of the twist's equation, `3 / (9 + u)`.
pub open spec fn twist_b() -> (nat, nat) {
    (
        19485874751759354771024239261021720505790618469301721065564631296452457478373nat,
        266929791119991161246907387137283842545076965332900288569378510910307636690nat,
    )
}

/// Whether `(x, y)` satisfies the curve's equation, `y^2 == x^3 + 3`.
pub open spec fn g1_on_curve(p: (nat, nat)) -> bool {
    (p.1 * p.1) % fq_modulus() == (p.0 * p.0 * p.0 + 3) % fq_modulus()
}

/// Whether `(x, y)` satisfies the twist's equation, `y^2 == x^3 + 3 / (9 + u)`.
pub open spec fn g2_on_curve(p: ((nat, nat), (nat, nat))) -> bool {
    fq2_mul(p.1, p.1) == fq2_add(fq2_mul(fq2_mul(p.0, p.0), p.0), twist_b())
}

/// Whether `(x, y)` is a point of the curve with reduced coordinates.
pub open spec fn g1_valid(p: (nat, nat)) -> bool {
    p.0 < fq_modulus() && p.1 < fq_modulus() && g1_on_curve(p)
}

/// Whether `(x, y)` is a point of the twist with reduced coordinates, in the
/// subgroup of prime order.
pub open spec fn g2_valid(p: ((nat, nat), (nat, nat))) -> bool {
    fq2_in_range(p.0) && fq2_in_range(p.1) && g2_on_curve(p) && g2_in_subgroup(p)
}

/// Whether the Jacobian coordinates are reduced and `z` is not zero.
pub open spec fn jacobian_in_range(x: nat, y: nat, z: nat) -> bool {
    x < fq_modulus() && y < fq_modulus() && 0 < z < fq_modulus()
}

/// Whether `a` is the affine point `(x / z^2, y / z^3)` of the Jacobian
/// coordinates `(x, y, z)`. The order of the field is prime, so a point with
/// `z` other than zero has one such point.
pub open spec fn g1_affine_of(a: (nat, nat), x: nat, y: nat, z: nat) -> bool {
    &&& jacobian_in_range(x, y, z)
    &&& a.0 < fq_modulus()
    &&& a.1 < fq_modulus()
    &&& (a.0 * (z * z)) % fq_modulus() == x
    &&& (a.1 * (z * z * z)) % fq_modulus() == y
}

/// Whether `a` is the affine point `(x / z^2, y / z^3)` of the Jacobian
/// coordinates `(x, y, z)` of the twist.
pub open spec fn g2_affine_of(
    a: ((nat, nat), (nat, nat)),
    x: (nat, nat),
    y: (nat, nat),
    z: (nat, nat),
) -> bool {
    &&& fq2_in_range(x) && fq2_in_range(y) && fq2_in_range(z) && z != (0nat, 0nat)
    &&& fq2_in_range(a.0) && fq2_in_range(a.1)
    &&& fq2_mul(a.0, fq2_mul(z, z)) == x
    &&& fq2_mul(a.1, fq2_mul(z, fq2_mul(z, z))) == y
}

/// Whether both coefficients of an element of the extension are reduced.
pub open spec fn fq2_in_range(a: (nat, nat)) -> bool {
    a.0 < fq_modulus() && a.1 < fq_modulus()
}

/// The affine point of the Jacobian coordinates `(x, y, z)` of the curve,
/// where `z` is not zero.
pub uninterp spec fn g1_affine(x: nat, y: nat, z: nat) -> (nat, nat);

/// The affine point of the Jacobian coordinates `(x, y, z)` of the twist,
/// where `z` is not zero.
pub uninterp spec fn g2_affine(x: (nat, nat), y: (nat, nat), z: (nat, nat)) -> (
    (nat, nat),
    (nat, nat),
);

/// Whether a point of the twist lies in the subgroup whose order is that of
/// the scalar field.
pub uninterp spec fn g2_in_subgroup(p: ((nat, nat), (nat, nat))) -> bool;

/// An element of the quadratic extension of the base field, `c0 + c1 * u`.
#[derive(Clone, Copy, Debug, PartialEq, Eq)]
pub struct Fq2Element {
    pub c0: U256,
    pub c1: U256,
}

impl View for Fq2Element {
    type V = (nat, nat);

    open spec fn view(&self) -> (nat, nat) {
        (self.c0@, self.c1@)
    }
}

impl Fq2Element {
    /// Whether both coefficients are reduced.
    pub open spec fn canonical(&self) -> bool {
        self.c0@ < fq_modulus() && self.c1@ < fq_modulus()
    }

    /// Whether the element is zero.
    pub fn is_zero(&self) -> (r: bool)
        ensures
            r == (self@ == (0nat, 0nat)),
    {
        self.c0.is_zero() && self.c1.is_zero()
    }

    /// Whether the element is one.
    pub fn is_one(&self) -> (r: bool)
        ensures
            r == (self@ == (1nat, 0nat)),
    {
        self.c0.equals(&U256::from_u128(1)) && self.c1.is_zero()
    }
}

/// A point of the curve other than the point at infinity.
#[derive(Clone, Copy, Debug, PartialEq, Eq)]
pub struct G1Point {
    pub x: U256,
    pub y: U256,
}

impl View for G1Point {
    type V = (nat, nat);

    open spec fn view(&self) -> (nat, nat) {
        (self.x@, self.y@)
    }
}

/// A point of the twist other than the point at infinity.
#[derive(Clone, Copy, Debug, PartialEq, Eq)]
pub struct G2Point {
    pub x: Fq2Element,
    pub y: Fq2Element,
}

impl View for G2Point {
    type V = ((nat, nat), (nat, nat));

    open spec fn view(&self) -> ((nat, nat), (nat, nat)) {
        (self.x@, self.y@)
    }
}

/// `Fq::from_str` of arkworks, on a canonical base-10 numeral: the number,
/// reduced modulo the order of the base field.
#[verifier::external_body]
fn fq_from_digits(s: &str) -> (r: U256)
    requires
        is_canonical_decimal(s@),
    ensures
        r@ == decimal_value(s@) % fq_modulus(),
{
    let e = <Fq as std::str::FromStr>::from_str(s).unwrap();
    U256 { bytes: e.into_bigint().to_bytes_be().try_into().unwrap() }
}

/// `Fr::from_str` of arkworks, on a canonical base-10 numeral: the number,
/// reduced modulo the order of the scalar field.
#[verifier::external_body]
fn fr_from_digits(s: &str) -> (r: U256)
    requires
        is_canonical_decimal(s@),
    ensures
        r@ == decimal_value(s@) % fr_modulus(),
{
    let e = <Fr as std::str::FromStr>::from_str(s).unwrap();
    U256 { bytes: e.into_bigint().to_bytes_be().try_into().unwrap() }
}

/// `G1Affine::is_on_curve` of arkworks: whether the coordinates satisfy
/// `y^2 == x^3 + 3` in the base field.
#[verifier::external_body]
fn g1_satisfies_equation(x: &U256, y: &U256) -> (r: bool)
    requires
        x@ < fq_modulus(),
        y@ < fq_modulus(),
    ensures
        r == g1_on_curve((x@, y@)),
{
    let fq = |v: &U256| Fq::from_be_bytes_mod_order(&v.bytes);
    G1Affine::new_unchecked(fq(x), fq(y)).is_on_curve()
}

/// `G2Affine::is_on_curve` of arkworks: whether the coordinates satisfy
/// `y^2 == x^3 + 3 / (9 + u)` in the quadratic extension.
#[verifier::external_body]
fn g2_satisfies_equation(x: &Fq2Element, y: &Fq2Element) -> (r: bool)
    requires
        x.canonical(),
        y.canonical(),
    ensures
        r == g2_on_curve((x@, y@)),
{
    let fq = |v: &U256| Fq::from_be_bytes_mod_order(&v.bytes);
    let f2 = |e: &Fq2Element| Fq2 { c0: fq(&e.c0), c1: fq(&e.c1) };
    G2Affine::new_unchecked(f2(x), f2(y)).is_on_curve()
}

/// `G2Affine::is_in_correct_subgroup_assuming_on_curve` of arkworks, on a
/// point of the twist.
#[verifier::external_body]
fn g2_has_prime_order(x: &Fq2Element, y: &Fq2Element) -> (r: bool)
    requires
        x.canonical(),
        y.canonical(),
        g2_on_curve((x@, y@)),
    ensures
        r == g2_in_subgroup((x@, y@)),
{
    let fq = |v: &U256| Fq::from_be_bytes_mod_order(&v.bytes);
    let f2 = |e: &Fq2Element| Fq2 { c0: fq(&e.c0), c1: fq(&e.c1) };
    G2Affine::new_unchecked(f2(x), f2(y)).is_in_correct_subgroup_assuming_on_curve()
}

/// `G1Affine::from` of arkworks on the Jacobian point `(x, y, z)` with `z`
/// other than zero: the affine point `(x / z^2, y / z^3)`, which is a
/// function of the three coordinates.
#[verifier::external_body]
fn g1_normalized(x: &U256, y: &U256, z: &U256) -> (r: (U256, U256))
    requires
        x@ < fq_modulus(),
        y@ < fq_modulus(),
        0 < z@ < fq_modulus(),
    ensures
        (r.0@, r.1@) == g1_affine(x@, y@, z@),
        g1_affine_of((r.0@, r.1@), x@, y@, z@),
{
    let fq = |v: &U256| Fq::from_be_bytes_mod_order(&v.bytes);
    let p: G1Affine = G1Projective::new_unchecked(fq(x), fq(y), fq(z)).into();
    let out = |e: Fq| U256 { bytes: e.into_bigint().to_bytes_be().try_into().unwrap() };
    (out(p.x), out(p.y))
}

/// `G2Affine::from` of arkworks on the Jacobian point `(x, y, z)` of the
/// twist with `z` other than zero: the affine point `(x / z^2, y / z^3)`,
/// which is a function of the three coordinates.
#[verifier::external_body]
fn g2_normalized(x: &Fq2Element, y: &Fq2Element, z: &Fq2Element) -> (r: (Fq2Element, Fq2Element))
    requires
        x.canonical(),
        y.canonical(),
        z.canonical(),
        z@ != (0nat, 0nat),
    ensures
        (r.0@, r.1@) == g2_affine(x@, y@, z@),
        g2_affine_of((r.0@, r.1@), x@, y@, z@),
{
    let fq = |v: &U256| Fq::from_be_bytes_mod_order(&v.bytes);
    let f2 = |e: &Fq2Element| Fq2 { c0: fq(&e.c0), c1: fq(&e.c1) };
    let p: G2Affine = G2Projective::new_unchecked(f2(x), f2(y), f2(z)).into();
    let out = |e: Fq| U256 { bytes: e.into_bigint().to_bytes_be().try_into().unwrap() };
    (Fq2Element { c0: out(p.x.c0), c1: out(p.x.c1) }, Fq2Element { c0: out(p.y.c0), c1: out(p.y.c1) })
}

/// Reads an element of the base field from a canonical base-10 numeral; the
/// number is reduced modulo the field's order. Anything else gives nothing.
pub fn str_to_fq(s: &str) -> (r: Option<U256>)
    ensures
        r is Some <==> is_canonical_decimal(s@),
        r is Some ==> r.unwrap()@ == decimal_value(s@) % fq_modulus(),
{
    if is_canonical_decimal_str(s) {
        Some(fq_from_digits(s))
    } else {
        None
    }
}

/// Reads an element of the scalar field from a canonical base-10 numeral;
/// the number is reduced modulo the field's order. Anything else gives
/// nothing.
pub fn str_to_fr(s: &str) -> (r: Option<U256>)
    ensures
        r is Some <==> is_canonical_decimal(s@),
        r is Some ==> r.unwrap()@ == decimal_value(s@) % fr_modulus(),
{
    if is_canonical_decimal_str(s) {
        Some(fr_from_digits(s))
    } else {
        None
    }
}

impl G1Point {
    /// Whether the coordinates are reduced and satisfy the curve's equation.
    pub open spec fn wf(&self) -> bool {
        g1_valid(self@)
    }

    /// Decides `wf`.
    pub fn is_valid(&self) -> (r: bool)
        ensures
            r == self.wf(),
    {
        let q = fq_order();
        self.x.less_than(&q) && self.y.less_than(&q) && g1_satisfies_equation(&self.x, &self.y)
    }

    /// The point with the given coordinates; nothing where they are not
    /// reduced or do not satisfy the curve's equation.
    pub fn new(x: U256, y: U256) -> (r: Option<G1Point>)
        ensures
            r is Some <==> (G1Point { x, y }).wf(),
            r is Some ==> r.unwrap() == (G1Point { x, y }),
    {
        let p = G1Point { x, y };
        if p.is_valid() {
            Some(p)
        } else {
            None
        }
    }

    /// The affine point of the Jacobian coordinates `(x, y, z)`. It gives
    /// nothing where a coordinate is not reduced, where `z` is zero (the
    /// point at infinity), or where the affine point is not on the curve.
    pub fn from_jacobian(x: &U256, y: &U256, z: &U256) -> (r: Option<G1Point>)
        ensures
            r is Some <==> jacobian_in_range(x@, y@, z@) && g1_on_curve(g1_affine(x@, y@, z@)),
            r is Some ==> r.unwrap()@ == g1_affine(x@, y@, z@) && r.unwrap().wf() && g1_affine_of(
                r.unwrap()@,
                x@,
                y@,
                z@,
            ),
            z@ == 1 && r is Some ==> r.unwrap()@ == (x@, y@),
    {
        let q = fq_order();
        if !(x.less_than(&q) && y.less_than(&q) && z.less_than(&q)) || z.is_zero() {
            return None;
        }
        let (ax, ay) = g1_normalized(x, y, z);
        let p = G1Point { x: ax, y: ay };
        proof {
            if z@ == 1 {
                lemma_g1_affine_of_one(p@, x@, y@);
            }
        }
        if g1_satisfies_equation(&ax, &ay) {
            Some(p)
        } else {
            None
        }
    }
}

/// With `z` one, the affine point has the coordinates `x` and `y`.
pub proof fn lemma_g1_affine_of_one(a: (nat, nat), x: nat, y: nat)
    requires
        g1_affine_of(a, x, y, 1),
    ensures
        a == (x, y),
{
    assert(a.0 * (1nat * 1nat) == a.0) by (nonlinear_arith);
    assert(a.1 * (1nat * 1nat * 1nat) == a.1) by (nonlinear_arith);
    vstd::arithmetic::div_mod::lemma_small_mod(a.0, fq_modulus());
    vstd::arithmetic::div_mod::lemma_small_mod(a.1, fq_modulus());
}

/// With `z` one, the affine point of the twist has the coordinates `x` and
/// `y`.
pub proof fn lemma_g2_affine_of_one(a: ((nat, nat), (nat, nat)), x: (nat, nat), y: (nat, nat))
    requires
        g2_affine_of(a, x, y, (1nat, 0nat)),
    ensures
        a == (x, y),
{
    let one = (1nat, 0nat);
    let q = fq_modulus();
    vstd::arithmetic::div_mod::lemma_small_mod(1, q);
    vstd::arithmetic::div_mod::lemma_small_mod(0, q);
    assert(fq2_mul(one, one) == one);
    lemma_fq2_mul_one(a.0);
    lemma_fq2_mul_one(a.1);
}

/// One is neutral for the product of reduced elements of the extension.
pub proof fn lemma_fq2_mul_one(a: (nat, nat))
    requires
        fq2_in_range(a),
    ensures
        fq2_mul(a, (1nat, 0nat)) == a,
{
    let q = fq_modulus();
    assert(a.0 * 1 - a.1 * 0 == a.0) by (nonlinear_arith);
    assert(a.0 * 0 + a.1 * 1 == a.1) by (nonlinear_arith);
    vstd::arithmetic::div_mod::lemma_small_mod(a.0, q);
    vstd::arithmetic::div_mod::lemma_small_mod(a.1, q);
}

impl G2Point {
    /// Whether the coordinates are reduced, satisfy the twist's equation, and
    /// give a point of the subgroup of prime order.
    pub open spec fn wf(&self) -> bool {
        g2_valid(self@)
    }

    /// Decides `wf`.
    pub fn is_valid(&self) -> (r: bool)
        ensures
            r == self.wf(),
    {
        let q = fq_order();
        self.x.c0.less_than(&q) && self.x.c1.less_than(&q) && self.y.c0.less_than(&q)
            && self.y.c1.less_than(&q) && g2_satisfies_equation(&self.x, &self.y)
            && g2_has_prime_order(&self.x, &self.y)
    }

    /// The point with the given coordinates; nothing where they are not
    /// reduced, do not satisfy the twist's equation, or give a point outside
    /// the subgroup of prime order.
    pub fn new(x: Fq2Element, y: Fq2Element) -> (r: Option<G2Point>)
        ensures
            r is Some <==> (G2Point { x, y }).wf(),
            r is Some ==> r.unwrap() == (G2Point { x, y }),
    {
        let p = G2Point { x, y };
        if p.is_valid() {
            Some(p)
        } else {
            None
        }
    }

    /// The affine point of the Jacobian coordinates `(x, y, z)`. It gives
    /// nothing where a coordinate is not reduced, where `z` is zero (the
    /// point at infinity), or where the affine point is not a point of the
    /// subgroup of prime order.
    pub fn from_jacobian(x: &Fq2Element, y: &Fq2Element, z: &Fq2Element) -> (r: Option<G2Point>)
        ensures
            r is Some <==> fq2_in_range(x@) && fq2_in_range(y@) && fq2_in_range(z@) && z@ != (
                0nat,
                0nat,
            ) && g2_on_curve(g2_affine(x@, y@, z@)) && g2_in_subgroup(g2_affine(x@, y@, z@)),
            r is Some ==> r.unwrap()@ == g2_affine(x@, y@, z@) && r.unwrap().wf() && g2_affine_of(
                r.unwrap()@,
                x@,
                y@,
                z@,
            ),
            z@ == (1nat, 0nat) && r is Some ==> r.unwrap()@ == (x@, y@),
    {
        let q = fq_order();
        let in_range = x.c0.less_than(&q) && x.c1.less_than(&q) && y.c0.less_than(&q)
            && y.c1.less_than(&q) && z.c0.less_than(&q) && z.c1.less_than(&q);
        if !in_range || z.is_zero() {
            return None;
        }
        let (ax, ay) = g2_normalized(x, y, z);
        let p = G2Point { x: ax, y: ay };
        proof {
            if z@ == (1nat, 0nat) {
                lemma_g2_affine_of_one(p@, x@, y@);
            }
        }
        if g2_satisfies_equation(&ax, &ay) && g2_has_prime_order(&ax, &ay) {
            Some(p)
        } else {
            None
        }
    }
}

} // verus!
