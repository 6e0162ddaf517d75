//! 256-bit unsigned integers, held as 32 big-endian bytes.

use crate::decimal::{
    decimal_digits, decimal_value, is_canonical_decimal, is_canonical_decimal_str, is_decimal,
    lemma_digits_of_value, lemma_value_of_digits,
};
use vstd::prelude::*;

verus! {

/// The number that a big-endian byte string denotes.
pub open spec fn be_value(s: Seq<u8>) -> nat
    decreases s.len(),
{
    if s.len() == 0 {
        0
    } else {
        be_value(s.drop_last()) * 256 + s.last() as nat
    }
}

/// `256^n`.
pub open spec fn pow256(n: nat) -> nat
    decreases n,
{
    if n == 0 {
        1
    } else {
        256 * pow256((n - 1) as nat)
    }
}

/// `2^256`, one more than the largest value a `U256` holds.
pub open spec fn u256_limit() -> nat {
    0x1_0000_0000_0000_0000_0000_0000_0000_0000_0000_0000_0000_0000_0000_0000_0000_0000nat
}

/// A big-endian string of `n` bytes denotes a number below `256^n`.
pub proof fn lemma_be_value_bound(s: Seq<u8>)
    ensures
        be_value(s) < pow256(s.len()),
    decreases s.len(),
{
    if s.len() > 0 {
        lemma_be_value_bound(s.drop_last());
    }
}

/// Appending one byte multiplies the value by 256 and adds the byte.
pub proof fn lemma_be_value_push(s: Seq<u8>, b: u8)
    ensures
        be_value(s.push(b)) == be_value(s) * 256 + b as nat,
{
    assert(s.push(b).drop_last() =~= s);
}

/// Two byte strings of one length that denote the same number are equal.
pub proof fn lemma_be_value_injective(a: Seq<u8>, b: Seq<u8>)
    requires
        a.len() == b.len(),
        be_value(a) == be_value(b),
    ensures
        a == b,
    decreases a.len(),
{
    if a.len() > 0 {
        let x = be_value(a.drop_last());
        let y = be_value(b.drop_last());
        assert(x * 256 + a.last() as nat == y * 256 + b.last() as nat);
        assert(x == y && a.last() == b.last()) by (nonlinear_arith)
            requires
                x * 256 + a.last() as nat == y * 256 + b.last() as nat,
                a.last() < 256,
                b.last() < 256,
        ;
        lemma_be_value_injective(a.drop_last(), b.drop_last());
        assert(a =~= a.drop_last().push(a.last()));
        assert(b =~= b.drop_last().push(b.last()));
    } else {
        assert(a =~= b);
    }
}

/// A byte string denotes zero exactly when all its bytes are zero.
pub proof fn lemma_be_value_zero(s: Seq<u8>)
    ensures
        be_value(s) == 0 <==> (forall|i: int| 0 <= i < s.len() ==> s[i] == 0),
    decreases s.len(),
{
    if s.len() > 0 {
        lemma_be_value_zero(s.drop_last());
        let t = s.drop_last();
        if be_value(s) == 0 {
            assert(be_value(t) == 0);
            assert forall|i: int| 0 <= i < s.len() implies s[i] == 0 by {
                if i < t.len() {
                    assert(t[i] == s[i]);
                }
            }
        }
        if forall|i: int| 0 <= i < s.len() ==> s[i] == 0 {
            assert forall|i: int| 0 <= i < t.len() implies t[i] == 0 by {
                assert(t[i] == s[i]);
            }
        }
    }
}

/// The value of a concatenation: the first part shifted past the second.
pub proof fn lemma_be_value_concat(a: Seq<u8>, b: Seq<u8>)
    ensures
        be_value(a + b) == be_value(a) * pow256(b.len()) + be_value(b),
    decreases b.len(),
{
    if b.len() == 0 {
        assert(a + b =~= a);
        assert(pow256(0) == 1);
        assert(be_value(b) == 0);
        assert(be_value(a) * 1 == be_value(a));
    } else {
        assert((a + b).drop_last() =~= a + b.drop_last());
        assert((a + b).last() == b.last());
        lemma_be_value_concat(a, b.drop_last());
        let x = be_value(a);
        let y = be_value(b.drop_last());
        let p = pow256((b.len() - 1) as nat);
        assert(pow256(b.len()) == 256 * p);
        assert(be_value(a + b) == (x * p + y) * 256 + b.last() as nat);
        assert((x * p + y) * 256 == x * (256 * p) + y * 256) by (nonlinear_arith);
        assert(be_value(b) == y * 256 + b.last() as nat);
    }
}

/// Of two byte strings of one length that agree up to a place where the
/// first has the smaller byte, the first denotes the smaller number.
pub proof fn lemma_be_value_order(a: Seq<u8>, b: Seq<u8>, i: int)
    requires
        a.len() == b.len(),
        0 <= i < a.len(),
        a.subrange(0, i) == b.subrange(0, i),
        a[i] < b[i],
    ensures
        be_value(a) < be_value(b),
{
    let pre = a.subrange(0, i);
    let head_a = pre.push(a[i]);
    let head_b = pre.push(b[i]);
    let tail_a = a.subrange(i + 1, a.len() as int);
    let tail_b = b.subrange(i + 1, b.len() as int);
    assert(a =~= head_a + tail_a);
    assert(b =~= head_b + tail_b);
    lemma_be_value_concat(head_a, tail_a);
    lemma_be_value_concat(head_b, tail_b);
    lemma_be_value_push(pre, a[i]);
    lemma_be_value_push(pre, b[i]);
    lemma_be_value_bound(tail_a);
    let p = pow256(tail_a.len());
    let x = be_value(head_a);
    let y = be_value(head_b);
    assert(x + 1 <= y);
    assert((x + 1) * p <= y * p) by (nonlinear_arith)
        requires
            x + 1 <= y,
            p >= 0,
    ;
    assert((x + 1) * p == x * p + p) by (nonlinear_arith);
}

/// `256^32` is `2^256`.
pub proof fn lemma_pow256_32()
    ensures
        pow256(32) == u256_limit(),
{
    reveal_with_fuel(pow256, 33);
}

/// `256^16` is `2^128`.
pub proof fn lemma_pow256_16()
    ensures
        pow256(16) == 0x1_0000_0000_0000_0000_0000_0000_0000_0000nat,
{
    reveal_with_fuel(pow256, 17);
}

/// The 16 big-endian bytes of `n`.
fn u128_be_bytes(n: u128) -> (r: [u8; 16])
    ensures
        be_value(r@) == n,
{
    let mut bytes = [0u8; 16];
    let mut rest: u128 = n;
    let mut i: usize = 0;
    proof {
        assert(bytes@.subrange(16, 16) =~= Seq::<u8>::empty());
        assert(pow256(0) == 1);
        assert(rest * 1 == n);
    }
    while i < 16
        invariant
            i <= 16,
            rest * pow256(i as nat) + be_value(bytes@.subrange(16 - i, 16)) == n,
        decreases 16 - i,
    {
        let ghost before = bytes@.subrange(16 - i, 16);
        let low: u8 = (rest % 256) as u8;
        bytes[15 - i] = low;
        proof {
            let after = bytes@.subrange(15 - i, 16);
            assert(after =~= seq![low] + before);
            lemma_be_value_concat(seq![low], before);
            reveal_with_fuel(be_value, 2);
            assert(seq![low].drop_last() =~= Seq::<u8>::empty());
            assert(be_value(seq![low]) == low as nat);
            let p = pow256(i as nat);
            assert((rest / 256) * (256 * p) + (rest % 256) * p == rest * p) by (nonlinear_arith);
        }
        rest = rest / 256;
        i += 1;
    }
    proof {
        lemma_pow256_16();
        let p = pow256(16);
        assert(bytes@.subrange(0, 16) =~= bytes@);
        assert(rest == 0) by (nonlinear_arith)
            requires
                rest * p + be_value(bytes@) == n,
                n < p,
                rest >= 0,
        ;
    }
    bytes
}

/// An unsigned 256-bit integer.
#[derive(Clone, Copy, Debug, PartialEq, Eq)]
pub struct U256 {
    pub(crate) bytes: [u8; 32],
}

/// `cosmwasm_std::Uint256`'s `FromStr`, on a non-empty string of ASCII
/// digits: the number that the digits denote in base 10, or nothing where
/// that number does not fit in 256 bits.
#[verifier::external_body]
fn parse_digits(s: &str) -> (r: Option<U256>)
    requires
        is_decimal(s@),
    ensures
        r is Some <==> decimal_value(s@) < u256_limit(),
        r is Some ==> r.unwrap()@ == decimal_value(s@),
{
    match <cosmwasm_std::Uint256 as std::str::FromStr>::from_str(s) {
        Ok(v) => Some(U256 { bytes: v.to_be_bytes() }),
        Err(_) => None,
    }
}

/// `cosmwasm_std::Uint256`'s `Display`: the base-10 digits of the number,
/// without a leading zero unless the number is zero.
#[verifier::external_body]
fn format_digits(v: &U256) -> (r: String)
    ensures
        is_canonical_decimal(r@),
        decimal_value(r@) == v@,
{
    cosmwasm_std::Uint256::from_be_bytes(v.bytes).to_string()
}

/// The numbers that a sequence of values holds.
pub open spec fn values_of(s: Seq<U256>) -> Seq<nat> {
    s.map_values(|x: U256| x@)
}

impl View for U256 {
    type V = nat;

    open spec fn view(&self) -> nat {
        be_value(self.spec_bytes())
    }
}

impl U256 {
    /// The 32 big-endian bytes of the value.
    pub closed spec fn spec_bytes(&self) -> Seq<u8> {
        self.bytes@
    }

    /// Every value lies below `2^256`.
    pub proof fn lemma_bounded(&self)
        ensures
            self@ < u256_limit(),
    {
        lemma_be_value_bound(self.spec_bytes());
        lemma_pow256_32();
    }

    /// A value is read back from its numeral: the numeral is canonical,
    /// denotes the value, and is below `2^256`, so that `from_decimal` of
    /// `to_decimal` gives the value.
    pub proof fn lemma_numeral_round_trip(&self)
        ensures
            is_canonical_decimal(decimal_digits(self@)),
            decimal_value(decimal_digits(self@)) == self@,
            decimal_value(decimal_digits(self@)) < u256_limit(),
    {
        lemma_value_of_digits(self@);
        self.lemma_bounded();
    }

    /// Two values with one view are the same value.
    pub proof fn lemma_view_injective(a: U256, b: U256)
        requires
            a@ == b@,
        ensures
            a == b,
    {
        lemma_be_value_injective(a.spec_bytes(), b.spec_bytes());
        assert(a.bytes =~= b.bytes);
    }

    /// The value zero.
    pub fn zero() -> (r: U256)
        ensures
            r@ == 0,
    {
        let r = U256 { bytes: [0u8; 32] };
        proof {
            lemma_be_value_zero(r.spec_bytes());
        }
        r
    }

    /// The value `high * 2^128 + low`.
    pub fn from_halves(high: u128, low: u128) -> (r: U256)
        ensures
            r@ == high * 0x1_0000_0000_0000_0000_0000_0000_0000_0000nat + low,
    {
        let top = u128_be_bytes(high);
        let bottom = u128_be_bytes(low);
        let mut bytes = [0u8; 32];
        let mut i: usize = 0;
        while i < 16
            invariant
                i <= 16,
                forall|j: int| 0 <= j < i ==> bytes@[j] == top@[j] && bytes@[16 + j] == bottom@[j],
            decreases 16 - i,
        {
            bytes[i] = top[i];
            bytes[16 + i] = bottom[i];
            i += 1;
        }
        let r = U256 { bytes };
        proof {
            assert(bytes@ =~= top@ + bottom@);
            lemma_be_value_concat(top@, bottom@);
            lemma_pow256_16();
        }
        r
    }

    /// The value `n`.
    pub fn from_u128(n: u128) -> (r: U256)
        ensures
            r@ == n,
    {
        Self::from_halves(0, n)
    }

    /// The value whose big-endian bytes are `bytes`.
    pub fn from_bytes(bytes: [u8; 32]) -> (r: U256)
        ensures
            r.spec_bytes() == bytes@,
            r@ == be_value(bytes@),
    {
        U256 { bytes }
    }

    /// The big-endian bytes of the value.
    pub fn to_bytes(&self) -> (r: [u8; 32])
        ensures
            r@ == self.spec_bytes(),
            be_value(r@) == self@,
    {
        self.bytes
    }

    /// Reads a canonical base-10 numeral. Anything else, and a numeral of
    /// `2^256` or more, gives nothing.
    pub fn from_decimal(s: &str) -> (r: Option<U256>)
        ensures
            r is Some <==> is_canonical_decimal(s@) && decimal_value(s@) < u256_limit(),
            r is Some ==> r.unwrap()@ == decimal_value(s@),
    {
        if !is_canonical_decimal_str(s) {
            return None;
        }
        parse_digits(s)
    }

    /// The canonical base-10 numeral of the value.
    pub fn to_decimal(&self) -> (r: String)
        ensures
            r@ == decimal_digits(self@),
    {
        let r = format_digits(self);
        proof {
            lemma_digits_of_value(r@);
        }
        r
    }

    /// Whether the value is zero.
    pub fn is_zero(&self) -> (r: bool)
        ensures
            r == (self@ == 0),
    {
        let mut i: usize = 0;
        while i < 32
            invariant
                i <= 32,
                forall|j: int| 0 <= j < i ==> self.bytes@[j] == 0,
            decreases 32 - i,
        {
            if self.bytes[i] != 0 {
                proof {
                    lemma_be_value_zero(self.spec_bytes());
                }
                return false;
            }
            i += 1;
        }
        proof {
            lemma_be_value_zero(self.spec_bytes());
        }
        true
    }

    /// Whether this value is the smaller of the two.
    pub fn less_than(&self, other: &U256) -> (r: bool)
        ensures
            r == (self@ < other@),
    {
        let mut i: usize = 0;
        while i < 32
            invariant
                i <= 32,
                forall|j: int| 0 <= j < i ==> self.bytes@[j] == other.bytes@[j],
            decreases 32 - i,
        {
            if self.bytes[i] != other.bytes[i] {
                proof {
                    assert(self.bytes@.subrange(0, i as int) =~= other.bytes@.subrange(0, i as int));
                    if self.bytes[i as int] < other.bytes[i as int] {
                        lemma_be_value_order(self.bytes@, other.bytes@, i as int);
                    } else {
                        lemma_be_value_order(other.bytes@, self.bytes@, i as int);
                    }
                }
                return self.bytes[i] < other.bytes[i];
            }
            i += 1;
        }
        assert(self.bytes@ =~= other.bytes@);
        false
    }

    /// Whether two values are the same number.
    pub fn equals(&self, other: &U256) -> (r: bool)
        ensures
            r == (self@ == other@),
            r == (*self == *other),
    {
        let mut i: usize = 0;
        while i < 32
            invariant
                i <= 32,
                forall|j: int| 0 <= j < i ==> self.bytes@[j] == other.bytes@[j],
            decreases 32 - i,
        {
            if self.bytes[i] != other.bytes[i] {
                proof {
                    if self@ == other@ {
                        Self::lemma_view_injective(*self, *other);
                    }
                }
                return false;
            }
            i += 1;
        }
        assert(self.bytes =~= other.bytes);
        true
    }
}

} // verus!
