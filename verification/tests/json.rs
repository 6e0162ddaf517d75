use whirlwind_core::codec::DecodeError;
use whirlwind_core::json::{read_json, Json};
use whirlwind_core::msg::{CircomProof, PublicSignals};
use whirlwind_core::proof_verifier::VerifyingKeyJson;

#[test]
fn a_text_is_read_as_a_tree() {
    let doc = read_json(r#"{"a": ["x", "y"], "b": {"c": null, "d": true}, "n": 12.5, "s": "t"}"#)
        .unwrap();
    assert_eq!(
        doc.member("a"),
        Some(&Json::List(vec![Json::Text("x".to_string()), Json::Text("y".to_string())]))
    );
    assert_eq!(doc.member("n"), Some(&Json::Number));
    assert_eq!(doc.member("s"), Some(&Json::Text("t".to_string())));
    assert_eq!(doc.member("missing"), None);
    let inner = doc.member("b").unwrap();
    assert_eq!(inner.member("c"), Some(&Json::Null));
    assert_eq!(inner.member("d"), Some(&Json::Bool(true)));
    assert_eq!(Json::Null.member("a"), None);
    assert_eq!(Json::List(vec![]).member("a"), None);
}

#[test]
fn an_object_has_each_key_once() {
    let doc = read_json(r#"{"k": "first", "k": "second"}"#).unwrap();
    assert_eq!(doc, Json::Object(vec![("k".to_string(), Json::Text("second".to_string()))]));
    assert_eq!(doc.field_text("k"), Some("second".to_string()));
}

#[test]
fn what_is_not_json_gives_nothing() {
    for text in ["", "{", "[1,]", "{\"a\":}", "nul", "\"open", "{} {}", "'a'"] {
        assert_eq!(read_json(text), None);
    }
    assert_eq!(read_json(" [ ] "), Some(Json::List(vec![])));
    assert_eq!(read_json("\"\\u00e9\""), Some(Json::Text("\u{e9}".to_string())));
}

#[test]
fn lists_of_strings_are_read_at_each_depth() {
    let doc = read_json(r#"{"t": ["a"], "r": [["a", "b"], []], "g": [[["a"]], []], "x": [["a"], "b"]}"#)
        .unwrap();
    assert_eq!(doc.field_texts("t"), Some(vec!["a".to_string()]));
    assert_eq!(doc.field_rows("r"), Some(vec![vec!["a".to_string(), "b".to_string()], vec![]]));
    assert_eq!(doc.field_tables("g"), Some(vec![vec![vec!["a".to_string()]], vec![]]));
    assert_eq!(doc.field_rows("x"), None);
    assert_eq!(doc.field_texts("r"), None);
    assert_eq!(doc.field_text("t"), None);
    assert_eq!(doc.field_tables("r"), None);
    assert_eq!(doc.field_rows("none"), None);
    assert_eq!(Json::Text("a".to_string()).text(), Some("a".to_string()));
    assert_eq!(Json::Number.text(), None);
    assert_eq!(Json::Bool(false).texts(), None);
    assert_eq!(Json::List(vec![]).texts(), Some(vec![]));
    assert_eq!(Json::List(vec![]).rows(), Some(vec![]));
    assert_eq!(Json::List(vec![]).tables(), Some(vec![]));
}

fn text(s: &str) -> Json {
    Json::Text(s.to_string())
}

fn list(items: &[&str]) -> Json {
    Json::List(items.iter().map(|s| text(s)).collect())
}

fn rows(items: &[&[&str]]) -> Json {
    Json::List(items.iter().map(|r| list(r)).collect())
}

fn object(members: Vec<(&str, Json)>) -> Json {
    Json::Object(members.into_iter().map(|(k, v)| (k.to_string(), v)).collect())
}

#[test]
fn a_proof_document_is_read_from_a_tree() {
    let doc = object(vec![
        ("curve", text("bn128")),
        ("extra", Json::Number),
        ("pi_a", list(&["1", "2", "1"])),
        ("pi_b", rows(&[&["3", "4"], &["5", "6"], &["1", "0"]])),
        ("pi_c", list(&["7", "8", "1"])),
        ("protocol", text("groth16")),
    ]);
    let proof = CircomProof::from_document(&doc).unwrap();
    assert_eq!(
        proof,
        CircomProof {
            pi_a: vec!["1".to_string(), "2".to_string(), "1".to_string()],
            pi_b: vec![
                vec!["3".to_string(), "4".to_string()],
                vec!["5".to_string(), "6".to_string()],
                vec!["1".to_string(), "0".to_string()],
            ],
            pi_c: vec!["7".to_string(), "8".to_string(), "1".to_string()],
            protocol: "groth16".to_string(),
            curve: "bn128".to_string(),
        }
    );
    // The form of a field is looked at, not its length.
    let short = object(vec![
        ("curve", text("")),
        ("pi_a", list(&[])),
        ("pi_b", rows(&[])),
        ("pi_c", list(&["x"])),
        ("protocol", text("")),
    ]);
    assert_eq!(CircomProof::from_document(&short).unwrap().pi_c, vec!["x".to_string()]);

    let no_curve = object(vec![
        ("pi_a", list(&["1", "2", "1"])),
        ("pi_b", rows(&[&["3", "4"], &["5", "6"], &["1", "0"]])),
        ("pi_c", list(&["7", "8", "1"])),
        ("protocol", text("groth16")),
    ]);
    assert_eq!(CircomProof::from_document(&no_curve), Err(DecodeError::Shape));
    let flat_b = object(vec![
        ("curve", text("bn128")),
        ("pi_a", list(&["1", "2", "1"])),
        ("pi_b", list(&["3", "4"])),
        ("pi_c", list(&["7", "8", "1"])),
        ("protocol", text("groth16")),
    ]);
    assert_eq!(CircomProof::from_document(&flat_b), Err(DecodeError::Shape));
    assert_eq!(CircomProof::from_document(&Json::Null), Err(DecodeError::Shape));
    assert_eq!(CircomProof::from_document(&list(&["pi_a"])), Err(DecodeError::Shape));
}

#[test]
fn a_key_document_is_read_from_a_tree() {
    let g2 = rows(&[&["1", "2"], &["3", "4"], &["1", "0"]]);
    let members = |with_pairing: Option<Json>| {
        let mut m = vec![
            ("IC", rows(&[&["1", "2", "1"], &["3", "4", "1"]])),
            ("nPublic", Json::Number),
            ("vk_alpha_1", list(&["5", "6", "1"])),
            ("vk_beta_2", rows(&[&["1", "2"], &["3", "4"], &["1", "0"]])),
            ("vk_delta_2", rows(&[&["1", "2"], &["3", "4"], &["1", "0"]])),
            ("vk_gamma_2", rows(&[&["1", "2"], &["3", "4"], &["1", "0"]])),
        ];
        if let Some(p) = with_pairing {
            m.push(("vk_alphabeta_12", p));
        }
        object(m)
    };
    let plain = VerifyingKeyJson::from_document(&members(None)).unwrap();
    assert_eq!(plain.ic, vec![vec!["1", "2", "1"], vec!["3", "4", "1"]]);
    assert_eq!(plain.vk_alpha_1, vec!["5", "6", "1"]);
    assert_eq!(plain.vk_beta_2, vec![vec!["1", "2"], vec!["3", "4"], vec!["1", "0"]]);
    assert_eq!(plain.vk_gamma_2, plain.vk_beta_2);
    assert_eq!(plain.vk_delta_2, plain.vk_beta_2);
    assert!(plain.vk_alphabeta_12.is_empty());

    let pairing = Json::List(vec![rows(&[&["9", "8"]]), rows(&[])]);
    let full = VerifyingKeyJson::from_document(&members(Some(pairing))).unwrap();
    assert_eq!(full.vk_alphabeta_12, vec![vec![vec!["9".to_string(), "8".to_string()]], vec![]]);

    // What is not a table in its place is passed over.
    let odd = VerifyingKeyJson::from_document(&members(Some(text("none")))).unwrap();
    assert_eq!(odd, plain);

    let missing = object(vec![("IC", rows(&[])), ("vk_alpha_1", list(&[])), ("vk_beta_2", g2)]);
    assert_eq!(VerifyingKeyJson::from_document(&missing), Err(DecodeError::Shape));
    assert_eq!(VerifyingKeyJson::from_document(&Json::Bool(true)), Err(DecodeError::Shape));
}

#[test]
fn signals_are_read_from_a_tree() {
    assert_eq!(
        PublicSignals::from_document(&list(&["1", "two"])),
        Ok(PublicSignals(vec!["1".to_string(), "two".to_string()]))
    );
    assert_eq!(PublicSignals::from_document(&list(&[])), Ok(PublicSignals(vec![])));
    assert_eq!(
        PublicSignals::from_document(&Json::List(vec![text("1"), Json::Number])),
        Err(DecodeError::Shape)
    );
    assert_eq!(PublicSignals::from_document(&text("1")), Err(DecodeError::Shape));
}
