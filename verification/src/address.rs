//! Account addresses as field elements. An address is a Bech32 string; the
//! 32 five-bit words of its payload are read as the 32 big-endian bytes of a
//! number.

use crate::codec::str_equal;
use crate::uint256::{be_value, U256};
use vstd::prelude::*;

verus! {

/// What a Bech32 string decodes to: its prefix in lower case, the five-bit
/// words of its payload without the checksum, and whether the checksum is
/// that of the revised format, Bech32m. Nothing where the string is not
/// Bech32.
pub uninterp spec fn bech32_decoded(s: Seq<char>) -> Option<(Seq<char>, Seq<u8>, bool)>;

/// The Bech32 string with the given prefix and payload, with the checksum of
/// the first format or of the revised one.
pub uninterp spec fn bech32_encoded(prefix: Seq<char>, words: Seq<u8>, revised: bool) -> Seq<char>;

/// Whether a string has an upper-case ASCII letter.
pub open spec fn has_upper(s: Seq<char>) -> bool {
    exists|i: int| 0 <= i < s.len() && 'A' <= #[trigger] s[i] && s[i] <= 'Z'
}

/// Whether `s` can be the prefix of an encoded string: up to 83 printable
/// ASCII characters, none in upper case.
pub open spec fn is_prefix(s: Seq<char>) -> bool {
    &&& 1 <= s.len() <= 83
    &&& forall|i: int| 0 <= i < s.len() ==> 33 <= (#[trigger] s[i]) as u32 <= 126
    &&& !has_upper(s)
}

/// Whether each byte is a five-bit word.
pub open spec fn are_words(w: Seq<u8>) -> bool {
    forall|i: int| 0 <= i < w.len() ==> #[trigger] w[i] < 32
}

/// `bech32::decode`: the prefix in lower case, the payload without its
/// checksum, each word as a byte, and the format; nothing where the string
/// is not Bech32. A string without upper-case letters that decodes is the
/// encoding of what it decodes to.
#[verifier::external_body]
fn bech32_decode(s: &str) -> (r: Option<(String, Vec<u8>, bool)>)
    ensures
        match r {
            Some((prefix, words, revised)) => {
                &&& bech32_decoded(s@) == Some((prefix@, words@, revised))
                &&& are_words(words@)
                &&& !has_upper(s@) ==> bech32_encoded(prefix@, words@, revised) == s@
            },
            None => bech32_decoded(s@) is None,
        },
{
    match bech32::decode(s) {
        Ok((prefix, data, variant)) => Some(
            (
                prefix,
                data.iter().map(|w| w.to_u8()).collect(),
                matches!(variant, bech32::Variant::Bech32m),
            ),
        ),
        Err(_) => None,
    }
}

/// `bech32::encode`, which fails on no prefix that `is_prefix` admits: the
/// prefix, the separator "1", one character for each word, and six for the
/// checksum. The string decodes to what it was made of.
#[verifier::external_body]
fn bech32_encode(prefix: &str, words: &Vec<u8>, revised: bool) -> (r: String)
    requires
        is_prefix(prefix@),
        are_words(words@),
    ensures
        r@ == bech32_encoded(prefix@, words@, revised),
        r@.len() == prefix@.len() + words@.len() + 7,
        bech32_decoded(r@) == Some((prefix@, words@, revised)),
{
    let data: Vec<bech32::u5> = words.iter().map(|w| bech32::u5::try_from_u8(*w).unwrap()).collect();
    let variant = if revised {
        bech32::Variant::Bech32m
    } else {
        bech32::Variant::Bech32
    };
    bech32::encode(prefix, data, variant).unwrap()
}

/// Why an address gave no field element.
#[derive(Clone, Copy, Debug, PartialEq, Eq)]
pub enum AddressError {
    /// The address is not a Bech32 string.
    Malformed,
    /// The payload of the address does not have 32 words.
    Length,
}

/// The `len` big-endian bytes of `v`, which is below `256^len`.
pub open spec fn be_bytes_of(v: nat, len: nat) -> Seq<u8>
    decreases len,
{
    if len == 0 {
        Seq::empty()
    } else {
        be_bytes_of(v / 256, (len - 1) as nat).push((v % 256) as u8)
    }
}

/// The bytes of the number that a byte string denotes are that byte string.
pub proof fn lemma_be_bytes_of_value(s: Seq<u8>)
    ensures
        be_bytes_of(be_value(s), s.len()) == s,
    decreases s.len(),
{
    if s.len() > 0 {
        let t = s.drop_last();
        let x = be_value(t);
        let b = s.last();
        lemma_be_bytes_of_value(t);
        assert((x * 256 + b as nat) / 256 == x && (x * 256 + b as nat) % 256 == b as nat)
            by (nonlinear_arith)
            requires
                0 <= b < 256,
                x >= 0,
        ;
        assert(s =~= t.push(b));
    } else {
        assert(be_bytes_of(be_value(s), 0) =~= s);
    }
}

/// The prefix of the addresses that `field_to_address` writes.
pub open spec fn address_prefix() -> Seq<char> {
    "juno"@
}

/// Whether the text stands for no address: it is empty or "0".
pub open spec fn is_no_address(addr: Seq<char>) -> bool {
    addr.len() == 0 || addr == "0"@
}

/// The field element of an address. No address gives zero.
pub open spec fn field_of_address(addr: Seq<char>) -> Result<nat, AddressError> {
    if is_no_address(addr) {
        Ok(0)
    } else {
        match bech32_decoded(addr) {
            None => Err(AddressError::Malformed),
            Some((prefix, words, revised)) => if words.len() != 32 {
                Err(AddressError::Length)
            } else {
                Ok(be_value(words))
            },
        }
    }
}

/// The address of a field element, where each of its 32 bytes is a five-bit
/// word.
pub open spec fn address_of_field(v: nat) -> Option<Seq<char>> {
    if are_words(be_bytes_of(v, 32)) {
        Some(bech32_encoded(address_prefix(), be_bytes_of(v, 32), false))
    } else {
        None
    }
}

/// Whether `addr` is an address as `field_to_address` writes them: in lower
/// case, with the prefix of this chain, the checksum of the first format and
/// a payload of 32 words.
pub open spec fn is_chain_address(addr: Seq<char>) -> bool {
    &&& !has_upper(addr)
    &&& !is_no_address(addr)
    &&& match bech32_decoded(addr) {
        Some((prefix, words, revised)) => prefix == address_prefix() && words.len() == 32
            && !revised,
        None => false,
    }
}

/// Decides whether the text stands for no address.
pub fn names_no_address(addr: &str) -> (r: bool)
    ensures
        r == is_no_address(addr@),
{
    addr.unicode_len() == 0 || str_equal(addr, "0")
}

/// The number whose 32 big-endian bytes are the words of a payload; an
/// error where the payload does not have 32 words.
pub fn payload_to_field(words: &Vec<u8>) -> (r: Result<U256, AddressError>)
    ensures
        words@.len() == 32 ==> r is Ok && r.unwrap()@ == be_value(words@),
        words@.len() != 32 ==> r == Err::<U256, AddressError>(AddressError::Length),
{
    if words.len() != 32 {
        return Err(AddressError::Length);
    }
    let mut bytes = [0u8; 32];
    let mut i: usize = 0;
    while i < 32
        invariant
            i <= 32,
            words@.len() == 32,
            forall|j: int| 0 <= j < i ==> bytes@[j] == words@[j],
        decreases 32 - i,
    {
        bytes[i] = words[i];
        i += 1;
    }
    assert(bytes@ =~= words@);
    Ok(U256::from_bytes(bytes))
}

/// The 32 big-endian bytes of a number as the words of a payload; nothing
/// where one of them is not a five-bit word.
pub fn field_to_payload(v: &U256) -> (r: Option<Vec<u8>>)
    ensures
        r is Some <==> are_words(be_bytes_of(v@, 32)),
        r is Some ==> r.unwrap()@ == be_bytes_of(v@, 32),
        r is Some ==> r.unwrap()@.len() == 32 && be_value(r.unwrap()@) == v@,
{
    let bytes = v.to_bytes();
    proof {
        lemma_be_bytes_of_value(bytes@);
    }
    let mut words: Vec<u8> = Vec::new();
    let mut i: usize = 0;
    while i < 32
        invariant
            i <= 32,
            words@.len() == i,
            be_bytes_of(v@, 32) == bytes@,
            forall|j: int| 0 <= j < i ==> words@[j] == bytes@[j] && bytes@[j] < 32,
        decreases 32 - i,
    {
        if bytes[i] >= 32 {
            assert(!(be_bytes_of(v@, 32)[i as int] < 32));
            return None;
        }
        words.push(bytes[i]);
        i += 1;
    }
    assert(words@ =~= bytes@);
    Some(words)
}

/// Reads an address as a field element. For an address of this chain, the
/// address of the result is the address read.
pub fn address_to_field(addr: &str) -> (r: Result<U256, AddressError>)
    ensures
        match r {
            Ok(v) => field_of_address(addr@) == Ok::<nat, AddressError>(v@),
            Err(e) => field_of_address(addr@) == Err::<nat, AddressError>(e),
        },
        is_chain_address(addr@) ==> r is Ok && address_of_field(r.unwrap()@) == Some(addr@),
{
    if names_no_address(addr) {
        return Ok(U256::zero());
    }
    match bech32_decode(addr) {
        None => Err(AddressError::Malformed),
        Some((prefix, words, revised)) => {
            proof {
                lemma_be_bytes_of_value(words@);
            }
            payload_to_field(&words)
        },
    }
}

/// Writes a field element as an address of this chain; nothing where one of
/// its 32 bytes is not a five-bit word. The address reads back as the field
/// element.
pub fn field_to_address(v: &U256) -> (r: Option<String>)
    ensures
        match r {
            Some(s) => address_of_field(v@) == Some(s@),
            None => address_of_field(v@) is None,
        },
        r is Some ==> field_of_address(r.unwrap()@) == Ok::<nat, AddressError>(v@),
{
    let words = match field_to_payload(v) {
        Some(w) => w,
        None => {
            return None;
        },
    };
    proof {
        reveal_strlit("juno");
        reveal_strlit("0");
        assert(!has_upper("juno"@));
    }
    let s = bech32_encode("juno", &words, false);
    Some(s)
}

} // verus!
