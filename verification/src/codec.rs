//! Reading curve points from the base-10 numerals of their coordinates.

use crate::curve::{
    g1_affine, g1_on_curve, g2_affine, g2_in_subgroup, g2_on_curve, str_to_fq, Fq2Element, G1Point,
    G2Point,
};
use crate::decimal::{decimal_value, is_canonical_decimal};
use crate::field::fq_modulus;
use crate::groth16::{points_of, KeyModel, ProofModel};
use vstd::prelude::*;

verus! {

/// Why a document was not read.
#[derive(Clone, Copy, Debug, PartialEq, Eq)]
pub enum DecodeError {
    /// The text is not JSON.
    Syntax,
    /// A field is missing or is not of the form that it must have.
    Shape,
    /// A coordinate is not a canonical base-10 numeral.
    Numeral,
    /// A point of a proof is not given in affine form.
    NotAffine,
    /// A point of a key is the point at infinity.
    Infinity,
    /// A point is not a valid point of its group.
    NotOnCurve,
}

/// The element of the base field that a numeral denotes.
pub open spec fn fq_of(s: Seq<char>) -> nat {
    decimal_value(s) % fq_modulus()
}

/// The characters of each string.
pub open spec fn texts_of(v: Seq<String>) -> Seq<Seq<char>> {
    v.map_values(|s: String| s@)
}

/// The characters of each string of each row.
pub open spec fn rows_of(v: Seq<Vec<String>>) -> Seq<Seq<Seq<char>>> {
    v.map_values(|r: Vec<String>| texts_of(r@))
}

/// The point of the curve that three numerals give in affine form: `x`, `y`
/// and a third that must be "1".
pub open spec fn affine_g1(c: Seq<Seq<char>>) -> Result<(nat, nat), DecodeError> {
    if c.len() != 3 {
        Err(DecodeError::Shape)
    } else if !(is_canonical_decimal(c[0]) && is_canonical_decimal(c[1])) {
        Err(DecodeError::Numeral)
    } else if c[2] != "1"@ {
        Err(DecodeError::NotAffine)
    } else if !g1_on_curve((fq_of(c[0]), fq_of(c[1]))) {
        Err(DecodeError::NotOnCurve)
    } else {
        Ok((fq_of(c[0]), fq_of(c[1])))
    }
}

/// The point of the twist that three pairs of numerals give in affine form:
/// `x`, `y` and a third that must be ("1", "0").
pub open spec fn affine_g2(c: Seq<Seq<Seq<char>>>) -> Result<((nat, nat), (nat, nat)), DecodeError> {
    if !(c.len() == 3 && c[0].len() == 2 && c[1].len() == 2 && c[2].len() == 2) {
        Err(DecodeError::Shape)
    } else if !(is_canonical_decimal(c[0][0]) && is_canonical_decimal(c[0][1])
        && is_canonical_decimal(c[1][0]) && is_canonical_decimal(c[1][1])) {
        Err(DecodeError::Numeral)
    } else if !(c[2][0] == "1"@ && c[2][1] == "0"@) {
        Err(DecodeError::NotAffine)
    } else {
        let p = ((fq_of(c[0][0]), fq_of(c[0][1])), (fq_of(c[1][0]), fq_of(c[1][1])));
        if !(g2_on_curve(p) && g2_in_subgroup(p)) {
            Err(DecodeError::NotOnCurve)
        } else {
            Ok(p)
        }
    }
}

/// The point of the curve that three numerals give in Jacobian form.
pub open spec fn jacobian_g1(c: Seq<Seq<char>>) -> Result<(nat, nat), DecodeError> {
    if c.len() != 3 {
        Err(DecodeError::Shape)
    } else if !(is_canonical_decimal(c[0]) && is_canonical_decimal(c[1]) && is_canonical_decimal(
        c[2],
    )) {
        Err(DecodeError::Numeral)
    } else if fq_of(c[2]) == 0 {
        Err(DecodeError::Infinity)
    } else {
        let p = g1_affine(fq_of(c[0]), fq_of(c[1]), fq_of(c[2]));
        if !g1_on_curve(p) {
            Err(DecodeError::NotOnCurve)
        } else {
            Ok(p)
        }
    }
}

/// The point of the twist that three pairs of numerals give in Jacobian form.
pub open spec fn jacobian_g2(c: Seq<Seq<Seq<char>>>) -> Result<
    ((nat, nat), (nat, nat)),
    DecodeError,
> {
    if !(c.len() == 3 && c[0].len() == 2 && c[1].len() == 2 && c[2].len() == 2) {
        Err(DecodeError::Shape)
    } else if !(is_canonical_decimal(c[0][0]) && is_canonical_decimal(c[0][1])
        && is_canonical_decimal(c[1][0]) && is_canonical_decimal(c[1][1]) && is_canonical_decimal(
        c[2][0],
    ) && is_canonical_decimal(c[2][1])) {
        Err(DecodeError::Numeral)
    } else if (fq_of(c[2][0]), fq_of(c[2][1])) == (0nat, 0nat) {
        Err(DecodeError::Infinity)
    } else {
        let p = g2_affine(
            (fq_of(c[0][0]), fq_of(c[0][1])),
            (fq_of(c[1][0]), fq_of(c[1][1])),
            (fq_of(c[2][0]), fq_of(c[2][1])),
        );
        if !(g2_on_curve(p) && g2_in_subgroup(p)) {
            Err(DecodeError::NotOnCurve)
        } else {
            Ok(p)
        }
    }
}

/// The points that a list of triples gives in Jacobian form, or the error of
/// the first triple that gives none.
pub open spec fn jacobian_points(rows: Seq<Seq<Seq<char>>>) -> Result<
    Seq<(nat, nat)>,
    DecodeError,
>
    decreases rows.len(),
{
    if rows.len() == 0 {
        Ok(Seq::empty())
    } else {
        match jacobian_points(rows.drop_last()) {
            Err(e) => Err(e),
            Ok(points) => match jacobian_g1(rows.last()) {
                Err(e) => Err(e),
                Ok(p) => Ok(points.push(p)),
            },
        }
    }
}

/// The proof that the three fields of a proof document give.
pub open spec fn decode_proof(
    pi_a: Seq<Seq<char>>,
    pi_b: Seq<Seq<Seq<char>>>,
    pi_c: Seq<Seq<char>>,
) -> Result<ProofModel, DecodeError> {
    match affine_g1(pi_a) {
        Err(e) => Err(e),
        Ok(a) => match affine_g2(pi_b) {
            Err(e) => Err(e),
            Ok(b) => match affine_g1(pi_c) {
                Err(e) => Err(e),
                Ok(c) => Ok(ProofModel { a, b, c }),
            },
        },
    }
}

/// The key that the fields of a key document give: the error of the first
/// field, in the order of the parameters, that gives no point; an error too
/// where the list of points is empty.
pub open spec fn decode_key(
    alpha: Seq<Seq<char>>,
    beta: Seq<Seq<Seq<char>>>,
    gamma: Seq<Seq<Seq<char>>>,
    delta: Seq<Seq<Seq<char>>>,
    ic: Seq<Seq<Seq<char>>>,
) -> Result<KeyModel, DecodeError> {
    match jacobian_g1(alpha) {
        Err(e) => Err(e),
        Ok(alpha_g1) => match jacobian_g2(beta) {
            Err(e) => Err(e),
            Ok(beta_g2) => match jacobian_g2(gamma) {
                Err(e) => Err(e),
                Ok(gamma_g2) => match jacobian_g2(delta) {
                    Err(e) => Err(e),
                    Ok(delta_g2) => if ic.len() == 0 {
                        Err(DecodeError::Shape)
                    } else {
                        match jacobian_points(ic) {
                            Err(e) => Err(e),
                            Ok(gamma_abc_g1) => Ok(
                                KeyModel { alpha_g1, beta_g2, gamma_g2, delta_g2, gamma_abc_g1 },
                            ),
                        }
                    },
                },
            },
        },
    }
}

/// Whether two strings hold the same characters.
pub fn str_equal(a: &str, b: &str) -> (r: bool)
    ensures
        r == (a@ == b@),
{
    let x: String = a.to_owned();
    let y: String = b.to_owned();
    x == y
}

/// Reads two numerals as an element of the quadratic extension.
fn read_fq2(c0: &str, c1: &str) -> (r: Option<Fq2Element>)
    ensures
        r is Some <==> is_canonical_decimal(c0@) && is_canonical_decimal(c1@),
        r is Some ==> r.unwrap()@ == (fq_of(c0@), fq_of(c1@)) && r.unwrap().canonical(),
{
    match (str_to_fq(c0), str_to_fq(c1)) {
        (Some(a), Some(b)) => Some(Fq2Element { c0: a, c1: b }),
        _ => None,
    }
}

/// Whether the rows are three pairs.
fn is_three_pairs(c: &Vec<Vec<String>>) -> (r: bool)
    ensures
        r == (c@.len() == 3 && c@[0]@.len() == 2 && c@[1]@.len() == 2 && c@[2]@.len() == 2),
{
    c.len() == 3 && c[0].len() == 2 && c[1].len() == 2 && c[2].len() == 2
}

/// Reads a point of the curve from its affine form, as a proof gives it.
pub fn read_affine_g1(c: &Vec<String>) -> (r: Result<G1Point, DecodeError>)
    ensures
        match r {
            Ok(p) => affine_g1(texts_of(c@)) == Ok::<(nat, nat), DecodeError>(p@) && p.wf(),
            Err(e) => affine_g1(texts_of(c@)) == Err::<(nat, nat), DecodeError>(e),
        },
{
    if c.len() != 3 {
        return Err(DecodeError::Shape);
    }
    let x = str_to_fq(c[0].as_str());
    let y = str_to_fq(c[1].as_str());
    if x.is_none() || y.is_none() {
        return Err(DecodeError::Numeral);
    }
    if !str_equal(c[2].as_str(), "1") {
        return Err(DecodeError::NotAffine);
    }
    let p = G1Point { x: x.unwrap(), y: y.unwrap() };
    if !p.is_valid() {
        return Err(DecodeError::NotOnCurve);
    }
    Ok(p)
}

/// Reads a point of the twist from its affine form, as a proof gives it.
pub fn read_affine_g2(c: &Vec<Vec<String>>) -> (r: Result<G2Point, DecodeError>)
    ensures
        match r {
            Ok(p) => affine_g2(rows_of(c@)) == Ok::<((nat, nat), (nat, nat)), DecodeError>(p@)
                && p.wf(),
            Err(e) => affine_g2(rows_of(c@)) == Err::<((nat, nat), (nat, nat)), DecodeError>(e),
        },
{
    if !is_three_pairs(c) {
        return Err(DecodeError::Shape);
    }
    let x = read_fq2(c[0][0].as_str(), c[0][1].as_str());
    let y = read_fq2(c[1][0].as_str(), c[1][1].as_str());
    if x.is_none() || y.is_none() {
        return Err(DecodeError::Numeral);
    }
    if !(str_equal(c[2][0].as_str(), "1") && str_equal(c[2][1].as_str(), "0")) {
        return Err(DecodeError::NotAffine);
    }
    let p = G2Point { x: x.unwrap(), y: y.unwrap() };
    if !p.is_valid() {
        return Err(DecodeError::NotOnCurve);
    }
    Ok(p)
}

/// Reads a point of the curve from its Jacobian form, as a key gives it.
pub fn read_jacobian_g1(c: &Vec<String>) -> (r: Result<G1Point, DecodeError>)
    ensures
        match r {
            Ok(p) => jacobian_g1(texts_of(c@)) == Ok::<(nat, nat), DecodeError>(p@) && p.wf(),
            Err(e) => jacobian_g1(texts_of(c@)) == Err::<(nat, nat), DecodeError>(e),
        },
        r is Ok && c@[2]@ == "1"@ ==> r.unwrap()@ == (fq_of(c@[0]@), fq_of(c@[1]@)),
{
    if c.len() != 3 {
        return Err(DecodeError::Shape);
    }
    let x = str_to_fq(c[0].as_str());
    let y = str_to_fq(c[1].as_str());
    let z = str_to_fq(c[2].as_str());
    if x.is_none() || y.is_none() || z.is_none() {
        return Err(DecodeError::Numeral);
    }
    let z = z.unwrap();
    if z.is_zero() {
        return Err(DecodeError::Infinity);
    }
    proof {
        if c@[2]@ == "1"@ {
            lemma_numeral_one();
        }
    }
    match G1Point::from_jacobian(&x.unwrap(), &y.unwrap(), &z) {
        Some(p) => Ok(p),
        None => Err(DecodeError::NotOnCurve),
    }
}

/// Reads a point of the twist from its Jacobian form, as a key gives it.
pub fn read_jacobian_g2(c: &Vec<Vec<String>>) -> (r: Result<G2Point, DecodeError>)
    ensures
        match r {
            Ok(p) => jacobian_g2(rows_of(c@)) == Ok::<((nat, nat), (nat, nat)), DecodeError>(p@)
                && p.wf(),
            Err(e) => jacobian_g2(rows_of(c@)) == Err::<((nat, nat), (nat, nat)), DecodeError>(e),
        },
        r is Ok && c@[2]@[0]@ == "1"@ && c@[2]@[1]@ == "0"@ ==> r.unwrap()@ == (
            (fq_of(c@[0]@[0]@), fq_of(c@[0]@[1]@)),
            (fq_of(c@[1]@[0]@), fq_of(c@[1]@[1]@)),
        ),
{
    if !is_three_pairs(c) {
        return Err(DecodeError::Shape);
    }
    let x = read_fq2(c[0][0].as_str(), c[0][1].as_str());
    let y = read_fq2(c[1][0].as_str(), c[1][1].as_str());
    let z = read_fq2(c[2][0].as_str(), c[2][1].as_str());
    if x.is_none() || y.is_none() || z.is_none() {
        return Err(DecodeError::Numeral);
    }
    let z = z.unwrap();
    if z.is_zero() {
        return Err(DecodeError::Infinity);
    }
    proof {
        if c@[2]@[0]@ == "1"@ && c@[2]@[1]@ == "0"@ {
            lemma_numeral_one();
        }
    }
    match G2Point::from_jacobian(&x.unwrap(), &y.unwrap(), &z) {
        Some(p) => Ok(p),
        None => Err(DecodeError::NotOnCurve),
    }
}

/// The numeral "1" denotes one and the numeral "0" zero.
pub proof fn lemma_numeral_one()
    ensures
        fq_of("1"@) == 1,
        fq_of("0"@) == 0,
{
    reveal_strlit("1");
    reveal_strlit("0");
    reveal_with_fuel(decimal_value, 2);
    assert("1"@.drop_last() =~= Seq::<char>::empty());
    assert("0"@.drop_last() =~= Seq::<char>::empty());
    assert("1"@.last() == '1');
    assert("0"@.last() == '0');
    vstd::arithmetic::div_mod::lemma_small_mod(1, fq_modulus());
    vstd::arithmetic::div_mod::lemma_small_mod(0, fq_modulus());
}

/// Reads the points of a list of triples in Jacobian form.
pub fn read_jacobian_points(rows: &Vec<Vec<String>>) -> (r: Result<Vec<G1Point>, DecodeError>)
    ensures
        match r {
            Ok(points) => jacobian_points(rows_of(rows@)) == Ok::<Seq<(nat, nat)>, DecodeError>(
                points_of(points@),
            ) && points@.len() == rows@.len() && forall|i: int|
                0 <= i < points@.len() ==> (#[trigger] points@[i]).wf(),
            Err(e) => jacobian_points(rows_of(rows@)) == Err::<Seq<(nat, nat)>, DecodeError>(e),
        },
{
    let mut points: Vec<G1Point> = Vec::new();
    let mut i: usize = 0;
    proof {
        assert(rows_of(rows@).take(0) =~= Seq::empty());
        assert(points_of(points@) =~= Seq::empty());
    }
    while i < rows.len()
        invariant
            i <= rows@.len(),
            points@.len() == i,
            jacobian_points(rows_of(rows@).take(i as int)) == Ok::<Seq<(nat, nat)>, DecodeError>(
                points_of(points@),
            ),
            forall|j: int| 0 <= j < points@.len() ==> (#[trigger] points@[j]).wf(),
        decreases rows@.len() - i,
    {
        let ghost all = rows_of(rows@);
        proof {
            assert(all.take(i + 1).drop_last() =~= all.take(i as int));
            assert(all.take(i + 1).last() == texts_of(rows@[i as int]@));
        }
        match read_jacobian_g1(&rows[i]) {
            Err(e) => {
                proof {
                    lemma_jacobian_points_error(all, i + 1);
                }
                return Err(e);
            },
            Ok(p) => {
                let ghost before = points_of(points@);
                points.push(p);
                proof {
                    assert(points_of(points@) =~= before.push(p@));
                }
            },
        }
        i += 1;
    }
    proof {
        assert(rows_of(rows@).take(i as int) =~= rows_of(rows@));
    }
    Ok(points)
}

/// An error among the first rows is the error of the whole list.
pub proof fn lemma_jacobian_points_error(rows: Seq<Seq<Seq<char>>>, n: int)
    requires
        0 <= n <= rows.len(),
        jacobian_points(rows.take(n)) is Err,
    ensures
        jacobian_points(rows) == jacobian_points(rows.take(n)),
    decreases rows.len() - n,
{
    if n == rows.len() {
        assert(rows.take(n) =~= rows);
    } else {
        assert(rows.take(n + 1).drop_last() =~= rows.take(n));
        lemma_jacobian_points_error(rows, n + 1);
    }
}

} // verus!
