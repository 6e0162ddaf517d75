//! A verifier for one circuit, and the document that holds its key.

use crate::codec::{
    decode_key, read_jacobian_g1, read_jacobian_g2, read_jacobian_points, rows_of, texts_of,
    DecodeError,
};
use crate::groth16::{
    verify, verify_outcome, KeyModel, Proof, ProofModel, VerifyError, VerifyingKey,
};
use crate::json::{json_document, read_json, tables_of, Json, JsonValue};
use crate::uint256::{values_of, U256};
use vstd::prelude::*;
use vstd::string::*;

verus! {

/// A verifying key as its circuit's tooling writes it: each coordinate a
/// base-10 numeral.
#[derive(Clone, Debug, PartialEq)]
pub struct VerifyingKeyJson {
    pub ic: Vec<Vec<String>>,
    pub vk_alpha_1: Vec<String>,
    pub vk_beta_2: Vec<Vec<String>>,
    pub vk_gamma_2: Vec<Vec<String>>,
    pub vk_delta_2: Vec<Vec<String>>,
    pub vk_alphabeta_12: Vec<Vec<Vec<String>>>,
}

/// What a key document holds.
pub struct KeyText {
    pub ic: Seq<Seq<Seq<char>>>,
    pub vk_alpha_1: Seq<Seq<char>>,
    pub vk_beta_2: Seq<Seq<Seq<char>>>,
    pub vk_gamma_2: Seq<Seq<Seq<char>>>,
    pub vk_delta_2: Seq<Seq<Seq<char>>>,
    pub vk_alphabeta_12: Seq<Seq<Seq<Seq<char>>>>,
}

impl View for VerifyingKeyJson {
    type V = KeyText;

    open spec fn view(&self) -> KeyText {
        KeyText {
            ic: rows_of(self.ic@),
            vk_alpha_1: texts_of(self.vk_alpha_1@),
            vk_beta_2: rows_of(self.vk_beta_2@),
            vk_gamma_2: rows_of(self.vk_gamma_2@),
            vk_delta_2: rows_of(self.vk_delta_2@),
            vk_alphabeta_12: tables_of(self.vk_alphabeta_12@),
        }
    }
}

/// The fields of a key document: `vk_alpha_1` a list of strings; `IC`,
/// `vk_beta_2`, `vk_gamma_2` and `vk_delta_2` lists of lists of strings.
/// Nothing where one of them is missing or of another form.
/// `vk_alphabeta_12` is kept where it is a list of lists of lists of strings
/// and is empty otherwise.
pub open spec fn key_fields(v: JsonValue) -> Option<KeyText> {
    if v.field_rows("IC"@) is Some && v.field_texts("vk_alpha_1"@) is Some && v.field_rows(
        "vk_beta_2"@,
    ) is Some && v.field_rows("vk_gamma_2"@) is Some && v.field_rows("vk_delta_2"@) is Some {
        Some(
            KeyText {
                ic: v.field_rows("IC"@).unwrap(),
                vk_alpha_1: v.field_texts("vk_alpha_1"@).unwrap(),
                vk_beta_2: v.field_rows("vk_beta_2"@).unwrap(),
                vk_gamma_2: v.field_rows("vk_gamma_2"@).unwrap(),
                vk_delta_2: v.field_rows("vk_delta_2"@).unwrap(),
                vk_alphabeta_12: match v.field_tables("vk_alphabeta_12"@) {
                    Some(t) => t,
                    None => Seq::empty(),
                },
            },
        )
    } else {
        None
    }
}

/// The key document that a text holds.
pub open spec fn key_document(text: Seq<char>) -> Result<KeyText, DecodeError> {
    match json_document(text) {
        None => Err(DecodeError::Syntax),
        Some(v) => match key_fields(v) {
            None => Err(DecodeError::Shape),
            Some(t) => Ok(t),
        },
    }
}

/// The key that a key document gives.
pub open spec fn key_of_text(t: KeyText) -> Result<KeyModel, DecodeError> {
    decode_key(t.vk_alpha_1, t.vk_beta_2, t.vk_gamma_2, t.vk_delta_2, t.ic)
}

impl VerifyingKeyJson {
    /// Reads a key document from its JSON text.
    pub fn from_json(text: &str) -> (r: Result<VerifyingKeyJson, DecodeError>)
        ensures
            match r {
                Ok(k) => key_document(text@) == Ok::<KeyText, DecodeError>(k@),
                Err(e) => key_document(text@) == Err::<KeyText, DecodeError>(e),
            },
    {
        match read_json(text) {
            Some(doc) => Self::from_document(&doc),
            None => Err(DecodeError::Syntax),
        }
    }

    /// Reads a key document from a JSON value: an object with the fields of
    /// a key, each of its form. Other fields are passed over.
    pub fn from_document(doc: &Json) -> (r: Result<VerifyingKeyJson, DecodeError>)
        ensures
            match key_fields(doc@) {
                Some(t) => r is Ok && r.unwrap()@ == t,
                None => r == Err::<VerifyingKeyJson, DecodeError>(DecodeError::Shape),
            },
    {
        let ic = doc.field_rows("IC");
        let vk_alpha_1 = doc.field_texts("vk_alpha_1");
        let vk_beta_2 = doc.field_rows("vk_beta_2");
        let vk_gamma_2 = doc.field_rows("vk_gamma_2");
        let vk_delta_2 = doc.field_rows("vk_delta_2");
        let vk_alphabeta_12 = match doc.field_tables("vk_alphabeta_12") {
            Some(t) => t,
            None => {
                let t: Vec<Vec<Vec<String>>> = Vec::new();
                assert(tables_of(t@) =~= Seq::empty());
                t
            },
        };
        match (ic, vk_alpha_1, vk_beta_2, vk_gamma_2, vk_delta_2) {
            (Some(ic), Some(vk_alpha_1), Some(vk_beta_2), Some(vk_gamma_2), Some(vk_delta_2)) => Ok(
                VerifyingKeyJson {
                    ic,
                    vk_alpha_1,
                    vk_beta_2,
                    vk_gamma_2,
                    vk_delta_2,
                    vk_alphabeta_12,
                },
            ),
            _ => Err(DecodeError::Shape),
        }
    }

    /// The key that the document gives. Each point is written in Jacobian
    /// form and brought to affine form, `(x / z^2, y / z^3)`; it must not be
    /// the point at infinity and must be a valid point of its group.
    /// `vk_alphabeta_12` is not read.
    pub fn to_verifying_key(self) -> (r: Result<VerifyingKey, DecodeError>)
        ensures
            match r {
                Ok(key) => key_of_text(self@) == Ok::<KeyModel, DecodeError>(key@) && key.wf(),
                Err(e) => key_of_text(self@) == Err::<KeyModel, DecodeError>(e),
            },
    {
        let alpha_g1 = match read_jacobian_g1(&self.vk_alpha_1) {
            Ok(p) => p,
            Err(e) => {
                return Err(e);
            },
        };
        let beta_g2 = match read_jacobian_g2(&self.vk_beta_2) {
            Ok(p) => p,
            Err(e) => {
                return Err(e);
            },
        };
        let gamma_g2 = match read_jacobian_g2(&self.vk_gamma_2) {
            Ok(p) => p,
            Err(e) => {
                return Err(e);
            },
        };
        let delta_g2 = match read_jacobian_g2(&self.vk_delta_2) {
            Ok(p) => p,
            Err(e) => {
                return Err(e);
            },
        };
        if self.ic.len() == 0 {
            return Err(DecodeError::Shape);
        }
        let gamma_abc_g1 = match read_jacobian_points(&self.ic) {
            Ok(points) => points,
            Err(e) => {
                return Err(e);
            },
        };
        Ok(VerifyingKey { alpha_g1, beta_g2, gamma_g2, delta_g2, gamma_abc_g1 })
    }
}

/// A verifier for one circuit, which holds the circuit's verifying key as
/// JSON text.
#[derive(Clone, Debug)]
pub struct Verifier {
    vk_json: String,
}

impl Verifier {
    /// The text of the verifying key.
    pub closed spec fn key_text(&self) -> Seq<char> {
        self.vk_json@
    }

    /// A verifier without a key.
    pub fn new() -> (r: Self)
        ensures
            r.key_text() == Seq::<char>::empty(),
    {
        Verifier { vk_json: String::new() }
    }

    /// A verifier for the circuit whose verifying key is `vk_json`.
    pub fn from_vk(vk_json: String) -> (r: Self)
        ensures
            r.key_text() == vk_json@,
    {
        Verifier { vk_json }
    }

    /// The text of the verifying key.
    pub fn vk_json(&self) -> (r: String)
        ensures
            r@ == self.key_text(),
    {
        self.vk_json.clone()
    }

    /// Checks a proof against the key and the public inputs of the
    /// statement. A proof that does not satisfy the pairing equation is
    /// rejected with `Ok(false)`; an error says that no check was made.
    pub fn verify_proof(self, proof: Proof, inputs: &Vec<U256>) -> (r: Result<bool, VerifierError>)
        ensures
            r == verifier_outcome(self.key_text(), proof@, values_of(inputs@)),
    {
        let document = match VerifyingKeyJson::from_json(self.vk_json.as_str()) {
            Ok(d) => d,
            Err(e) => {
                return Err(VerifierError::Key(e));
            },
        };
        let key = match document.to_verifying_key() {
            Ok(k) => k,
            Err(e) => {
                return Err(VerifierError::Key(e));
            },
        };
        match verify(&key, &proof, inputs) {
            Ok(accepted) => Ok(accepted),
            Err(e) => Err(VerifierError::Check(e)),
        }
    }
}

/// Why a verifier did not check a proof.
#[derive(Clone, Copy, Debug, PartialEq, Eq)]
pub enum VerifierError {
    /// The key's text gives no key.
    Key(DecodeError),
    /// The key was read, and the check was not made.
    Check(VerifyError),
}

/// The outcome of a check by a verifier with the given key text.
pub open spec fn verifier_outcome(key_text: Seq<char>, proof: ProofModel, inputs: Seq<nat>)
    -> Result<bool, VerifierError> {
    match key_document(key_text) {
        Err(e) => Err(VerifierError::Key(e)),
        Ok(t) => match key_of_text(t) {
            Err(e) => Err(VerifierError::Key(e)),
            Ok(key) => match verify_outcome(key, proof, inputs) {
                Err(e) => Err(VerifierError::Check(e)),
                Ok(accepted) => Ok(accepted),
            },
        },
    }
}

} // verus!
