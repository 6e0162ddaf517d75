//! What callers hand to a pool and to a verifier: public signals, proofs as
//! text, and deposit notes.

use crate::address::{address_to_field, field_of_address, AddressError};
use crate::codec::{
    decode_proof, read_affine_g1, read_affine_g2, rows_of, texts_of, DecodeError,
};
use crate::curve::str_to_fr;
use crate::decimal::{
    decimal_digits, decimal_value, is_canonical_decimal, is_digit, lemma_value_of_digits,
};
use crate::field::fr_modulus;
use crate::groth16::{Proof, ProofModel};
use crate::json::{json_document, read_json, Json, JsonValue};
use crate::poseidon::{hash_values, poseidon};
use crate::uint256::{u256_limit, values_of, U256};
use vstd::prelude::*;
use vstd::string::*;

verus! {

/// The public inputs of a circuit, each a base-10 numeral, in the order the
/// circuit declares them.
#[derive(Clone, Debug, PartialEq)]
pub struct PublicSignals(pub Vec<String>);

impl PublicSignals {
    /// The signals as given.
    pub fn from(public_signals: Vec<String>) -> (r: Self)
        ensures
            r.0 == public_signals,
    {
        PublicSignals(public_signals)
    }

    /// The signals of a withdrawal, in the order the circuit declares them:
    /// root, nullifier hash, recipient, relayer, fee. The two addresses are
    /// written as the numerals of their field elements, the fee as its
    /// numeral. An address that gives no field element gives its error, the
    /// recipient's first.
    pub fn from_values(
        root: String,
        nullifier_hash: String,
        recipient: String,
        relayer: String,
        fee: u128,
    ) -> (r: Result<Self, AddressError>)
        ensures
            match r {
                Ok(signals) => withdrawal_signals(
                    root@,
                    nullifier_hash@,
                    recipient@,
                    relayer@,
                    fee as nat,
                ) == Ok::<Seq<Seq<char>>, AddressError>(texts_of(signals.0@)),
                Err(e) => withdrawal_signals(
                    root@,
                    nullifier_hash@,
                    recipient@,
                    relayer@,
                    fee as nat,
                ) == Err::<Seq<Seq<char>>, AddressError>(e),
            },
    {
        let recipient_field = match Self::bech32_to_u256(recipient) {
            Ok(s) => s,
            Err(e) => {
                return Err(e);
            },
        };
        let relayer_field = match Self::bech32_to_u256(relayer) {
            Ok(s) => s,
            Err(e) => {
                return Err(e);
            },
        };
        let mut signals: Vec<String> = Vec::new();
        signals.push(root);
        signals.push(nullifier_hash);
        signals.push(recipient_field);
        signals.push(relayer_field);
        signals.push(U256::from_u128(fee).to_decimal());
        proof {
            assert(texts_of(signals@) =~= seq![
                root@,
                nullifier_hash@,
                recipient_field@,
                relayer_field@,
                decimal_digits(fee as nat),
            ]);
        }
        Ok(PublicSignals(signals))
    }

    /// The numeral of the field element of an address; "0" for the empty
    /// address and for "0".
    pub fn bech32_to_u256(addr: String) -> (r: Result<String, AddressError>)
        ensures
            match r {
                Ok(s) => numeral_of_address(addr@) == Ok::<Seq<char>, AddressError>(s@),
                Err(e) => numeral_of_address(addr@) == Err::<Seq<char>, AddressError>(e),
            },
    {
        match address_to_field(addr.as_str()) {
            Ok(v) => Ok(v.to_decimal()),
            Err(e) => Err(e),
        }
    }

    /// Reads the signals from the JSON text of a list of strings.
    pub fn from_json(public_signals_json: String) -> (r: Result<Self, DecodeError>)
        ensures
            match r {
                Ok(signals) => signals_document(public_signals_json@) == Ok::<
                    Seq<Seq<char>>,
                    DecodeError,
                >(texts_of(signals.0@)),
                Err(e) => signals_document(public_signals_json@) == Err::<
                    Seq<Seq<char>>,
                    DecodeError,
                >(e),
            },
    {
        match read_json(public_signals_json.as_str()) {
            Some(doc) => Self::from_document(&doc),
            None => Err(DecodeError::Syntax),
        }
    }

    /// Reads the signals from a JSON value: a list of strings.
    pub fn from_document(doc: &Json) -> (r: Result<Self, DecodeError>)
        ensures
            match doc@.texts() {
                Some(t) => r is Ok && texts_of(r.unwrap().0@) == t,
                None => r == Err::<PublicSignals, DecodeError>(DecodeError::Shape),
            },
    {
        match doc.texts() {
            Some(v) => Ok(PublicSignals(v)),
            None => Err(DecodeError::Shape),
        }
    }

    /// The signals as elements of the scalar field, each reduced modulo the
    /// field's order; an error where a signal is not a canonical numeral.
    pub fn get(self) -> (r: Result<Vec<U256>, DecodeError>)
        ensures
            r is Ok <==> all_numerals(texts_of(self.0@)),
            r is Err ==> r == Err::<Vec<U256>, DecodeError>(DecodeError::Numeral),
            r is Ok ==> values_of(r.unwrap()@) == scalars_of(texts_of(self.0@)),
    {
        let mut inputs: Vec<U256> = Vec::new();
        let mut i: usize = 0;
        let ghost signals = texts_of(self.0@);
        while i < self.0.len()
            invariant
                i <= self.0@.len(),
                inputs@.len() == i,
                signals == texts_of(self.0@),
                forall|j: int| 0 <= j < i ==> is_canonical_decimal(#[trigger] signals[j]),
                forall|j: int| 0 <= j < i ==> (#[trigger] inputs@[j])@ == fr_of(self.0@[j]@),
            decreases self.0@.len() - i,
        {
            match str_to_fr(self.0[i].as_str()) {
                Some(v) => {
                    inputs.push(v);
                },
                None => {
                    assert(!is_canonical_decimal(signals[i as int]));
                    return Err(DecodeError::Numeral);
                },
            }
            i += 1;
        }
        proof {
            assert(values_of(inputs@) =~= scalars_of(texts_of(self.0@)));
        }
        Ok(inputs)
    }
}

/// Whether each signal is a canonical base-10 numeral.
pub open spec fn all_numerals(signals: Seq<Seq<char>>) -> bool {
    forall|i: int| 0 <= i < signals.len() ==> is_canonical_decimal(#[trigger] signals[i])
}

/// The element of the scalar field that a numeral denotes.
pub open spec fn fr_of(s: Seq<char>) -> nat {
    decimal_value(s) % fr_modulus()
}

/// The elements of the scalar field that numerals denote.
pub open spec fn scalars_of(signals: Seq<Seq<char>>) -> Seq<nat> {
    signals.map_values(|s: Seq<char>| fr_of(s))
}

/// The numeral of the field element of an address.
pub open spec fn numeral_of_address(addr: Seq<char>) -> Result<Seq<char>, AddressError> {
    match field_of_address(addr) {
        Err(e) => Err(e),
        Ok(v) => Ok(decimal_digits(v)),
    }
}

/// The signals of a withdrawal.
pub open spec fn withdrawal_signals(
    root: Seq<char>,
    nullifier_hash: Seq<char>,
    recipient: Seq<char>,
    relayer: Seq<char>,
    fee: nat,
) -> Result<Seq<Seq<char>>, AddressError> {
    match numeral_of_address(recipient) {
        Err(e) => Err(e),
        Ok(to) => match numeral_of_address(relayer) {
            Err(e) => Err(e),
            Ok(via) => Ok(seq![root, nullifier_hash, to, via, decimal_digits(fee)]),
        },
    }
}

/// A Groth16 proof as a prover writes it: each coordinate a base-10 numeral.
#[derive(Clone, Debug, PartialEq)]
pub struct CircomProof {
    pub pi_a: Vec<String>,
    pub pi_b: Vec<Vec<String>>,
    pub pi_c: Vec<String>,
    pub protocol: String,
    pub curve: String,
}

/// What a proof document holds.
pub struct ProofText {
    pub pi_a: Seq<Seq<char>>,
    pub pi_b: Seq<Seq<Seq<char>>>,
    pub pi_c: Seq<Seq<char>>,
    pub protocol: Seq<char>,
    pub curve: Seq<char>,
}

impl View for CircomProof {
    type V = ProofText;

    open spec fn view(&self) -> ProofText {
        ProofText {
            pi_a: texts_of(self.pi_a@),
            pi_b: rows_of(self.pi_b@),
            pi_c: texts_of(self.pi_c@),
            protocol: self.protocol@,
            curve: self.curve@,
        }
    }
}

/// The fields of a proof document: `pi_a` and `pi_c` lists of strings,
/// `pi_b` a list of lists of strings, `protocol` and `curve` strings.
/// Nothing where one of them is missing or of another form.
pub open spec fn proof_fields(v: JsonValue) -> Option<ProofText> {
    if v.field_texts("pi_a"@) is Some && v.field_rows("pi_b"@) is Some && v.field_texts("pi_c"@)
        is Some && v.field_text("protocol"@) is Some && v.field_text("curve"@) is Some {
        Some(
            ProofText {
                pi_a: v.field_texts("pi_a"@).unwrap(),
                pi_b: v.field_rows("pi_b"@).unwrap(),
                pi_c: v.field_texts("pi_c"@).unwrap(),
                protocol: v.field_text("protocol"@).unwrap(),
                curve: v.field_text("curve"@).unwrap(),
            },
        )
    } else {
        None
    }
}

/// The proof document that a text holds.
pub open spec fn proof_document(text: Seq<char>) -> Result<ProofText, DecodeError> {
    match json_document(text) {
        None => Err(DecodeError::Syntax),
        Some(v) => match proof_fields(v) {
            None => Err(DecodeError::Shape),
            Some(t) => Ok(t),
        },
    }
}

/// The list of signals that a text holds: a JSON list of strings.
pub open spec fn signals_document(text: Seq<char>) -> Result<Seq<Seq<char>>, DecodeError> {
    match json_document(text) {
        None => Err(DecodeError::Syntax),
        Some(v) => match v.texts() {
            None => Err(DecodeError::Shape),
            Some(t) => Ok(t),
        },
    }
}

impl CircomProof {
    /// Reads a proof document from its JSON text.
    pub fn from(json_str: String) -> (r: Result<CircomProof, DecodeError>)
        ensures
            match r {
                Ok(p) => proof_document(json_str@) == Ok::<ProofText, DecodeError>(p@),
                Err(e) => proof_document(json_str@) == Err::<ProofText, DecodeError>(e),
            },
    {
        match read_json(json_str.as_str()) {
            Some(doc) => Self::from_document(&doc),
            None => Err(DecodeError::Syntax),
        }
    }

    /// Reads a proof document from a JSON value: an object with the fields
    /// of a proof, each of its form. Other fields are passed over.
    pub fn from_document(doc: &Json) -> (r: Result<CircomProof, DecodeError>)
        ensures
            match proof_fields(doc@) {
                Some(t) => r is Ok && r.unwrap()@ == t,
                None => r == Err::<CircomProof, DecodeError>(DecodeError::Shape),
            },
    {
        let pi_a = doc.field_texts("pi_a");
        let pi_b = doc.field_rows("pi_b");
        let pi_c = doc.field_texts("pi_c");
        let protocol = doc.field_text("protocol");
        let curve = doc.field_text("curve");
        match (pi_a, pi_b, pi_c, protocol, curve) {
            (Some(pi_a), Some(pi_b), Some(pi_c), Some(protocol), Some(curve)) => Ok(
                CircomProof { pi_a, pi_b, pi_c, protocol, curve },
            ),
            _ => Err(DecodeError::Shape),
        }
    }

    /// The proof that the document gives. Each point must be written in
    /// affine form, with "1" (for `pi_b`: "1" and "0") in the third place,
    /// and must be a valid point of its group.
    pub fn to_proof(self) -> (r: Result<Proof, DecodeError>)
        ensures
            match r {
                Ok(proof) => decode_proof(
                    texts_of(self.pi_a@),
                    rows_of(self.pi_b@),
                    texts_of(self.pi_c@),
                ) == Ok::<ProofModel, DecodeError>(proof@) && proof.wf(),
                Err(e) => decode_proof(
                    texts_of(self.pi_a@),
                    rows_of(self.pi_b@),
                    texts_of(self.pi_c@),
                ) == Err::<ProofModel, DecodeError>(e),
            },
    {
        let a = match read_affine_g1(&self.pi_a) {
            Ok(p) => p,
            Err(e) => {
                return Err(e);
            },
        };
        let b = match read_affine_g2(&self.pi_b) {
            Ok(p) => p,
            Err(e) => {
                return Err(e);
            },
        };
        let c = match read_affine_g1(&self.pi_c) {
            Ok(p) => p,
            Err(e) => {
                return Err(e);
            },
        };
        Ok(Proof { a, b, c })
    }
}

/// The commitment of a note: the hash of its nullifier and zero.
pub open spec fn commitment_of(nullifier: nat) -> nat {
    poseidon(seq![nullifier, 0])
}

/// The nullifier hash of a note at a leaf: the hash of its nullifier, one,
/// and the leaf's index.
pub open spec fn nullifier_hash_of(nullifier: nat, leaf_index: nat) -> nat {
    poseidon(seq![nullifier, 1, leaf_index])
}

/// The first 32 characters of `s`, each as a byte.
fn first_digits(s: &str) -> (r: [u8; 32])
    requires
        s@.len() >= 32,
        forall|i: int| 0 <= i < 32 ==> is_digit(#[trigger] s@[i]),
    ensures
        forall|i: int| 0 <= i < 32 ==> r@[i] == s@[i] as u8,
{
    let mut r = [0u8; 32];
    let mut i: usize = 0;
    while i < 32
        invariant
            i <= 32,
            s@.len() >= 32,
            forall|j: int| 0 <= j < 32 ==> is_digit(#[trigger] s@[j]),
            forall|j: int| 0 <= j < i ==> r@[j] == s@[j] as u8,
        decreases 32 - i,
    {
        let c = s.get_char(i);
        r[i] = c as u8;
        i += 1;
    }
    r
}

/// A deposit note: the secret that a depositor keeps.
#[derive(Clone, Debug)]
pub struct Deposit {
    pub nullifier: String,
}

impl Deposit {
    /// Whether the nullifier is a canonical base-10 numeral below `2^256`.
    pub open spec fn valid(&self) -> bool {
        is_canonical_decimal(self.nullifier@) && decimal_value(self.nullifier@) < u256_limit()
    }

    /// The number that the nullifier denotes.
    pub open spec fn nullifier_value(&self) -> nat {
        decimal_value(self.nullifier@)
    }

    /// A note with the given nullifier.
    pub fn new(nullifier: String) -> (r: Deposit)
        ensures
            r.nullifier == nullifier,
    {
        Deposit { nullifier }
    }

    /// Whether the nullifier is a canonical base-10 numeral below `2^256`.
    pub fn is_valid(&self) -> (r: bool)
        ensures
            r == self.valid(),
    {
        U256::from_decimal(self.nullifier.as_str()).is_some()
    }

    /// The commitment that is published for this note, as a base-10 numeral.
    pub fn get_commitment(self) -> (r: String)
        requires
            self.valid(),
        ensures
            r@ == decimal_digits(commitment_of(self.nullifier_value())),
    {
        let nullifier = U256::from_decimal(self.nullifier.as_str()).unwrap();
        let mut inputs: Vec<U256> = Vec::new();
        inputs.push(nullifier);
        inputs.push(U256::zero());
        assert(values_of(inputs@) =~= seq![self.nullifier_value(), 0]);
        hash_values(&inputs).to_decimal()
    }

    /// The first 32 digits of the commitment, as ASCII bytes. The commitment
    /// must have as many.
    pub fn commitment_as_array(self) -> (r: [u8; 32])
        requires
            self.valid(),
            decimal_digits(commitment_of(self.nullifier_value())).len() >= 32,
        ensures
            forall|i: int|
                0 <= i < 32 ==> r@[i] == decimal_digits(commitment_of(self.nullifier_value()))[i] as u8,
    {
        proof {
            lemma_value_of_digits(commitment_of(self.nullifier_value()));
        }
        let commitment = self.get_commitment();
        first_digits(commitment.as_str())
    }

    /// The first 32 digits of the commitment, as ASCII bytes; nothing where
    /// the commitment has fewer.
    pub fn try_commitment_as_array(self) -> (r: Option<[u8; 32]>)
        requires
            self.valid(),
        ensures
            r is Some <==> decimal_digits(commitment_of(self.nullifier_value())).len() >= 32,
            r is Some ==> forall|i: int|
                0 <= i < 32 ==> r.unwrap()@[i] == decimal_digits(
                    commitment_of(self.nullifier_value()),
                )[i] as u8,
    {
        let commitment = self.clone_note().get_commitment();
        if commitment.as_str().unicode_len() >= 32 {
            Some(self.commitment_as_array())
        } else {
            None
        }
    }

    /// A copy of the note.
    pub fn clone_note(&self) -> (r: Deposit)
        ensures
            r.nullifier@ == self.nullifier@,
    {
        Deposit { nullifier: self.nullifier.clone() }
    }

    /// The nullifier hash that is published when this note, at the given
    /// leaf, is spent; as a base-10 numeral.
    pub fn get_nullifier_hash(self, leaf_index: u128) -> (r: String)
        requires
            self.valid(),
        ensures
            r@ == decimal_digits(nullifier_hash_of(self.nullifier_value(), leaf_index as nat)),
    {
        let nullifier = U256::from_decimal(self.nullifier.as_str()).unwrap();
        let mut inputs: Vec<U256> = Vec::new();
        inputs.push(nullifier);
        inputs.push(U256::from_u128(1));
        inputs.push(U256::from_u128(leaf_index));
        assert(values_of(inputs@) =~= seq![
            self.nullifier_value(),
            1,
            leaf_index as nat,
        ]);
        hash_values(&inputs).to_decimal()
    }
}

} // verus!
