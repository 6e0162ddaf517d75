use whirlwind_core::address::{
    address_to_field, field_to_address, field_to_payload, payload_to_field, AddressError,
};
use whirlwind_core::codec::DecodeError;
use whirlwind_core::msg::{CircomProof, Deposit, PublicSignals};
use whirlwind_core::poseidon::{hash_pair, hash_values};
use whirlwind_core::uint256::U256;

#[test]
fn test_bignum() {
    assert_eq!(U256::from_u128(5), U256::from_decimal("5").unwrap());
    assert_ne!(U256::from_u128(6), U256::from_decimal("5").unwrap());

    let n = "21888242871839275222246405745257275088548364400416034343698204186575808495617";

    let b = U256::from_decimal(
        "21888242871839275222246405745257275088548364400416034343698204186575808495617",
    )
    .unwrap();

    assert_eq!(n, b.to_decimal());
}

#[test]
fn test_generate_deposit() {
    let d = Deposit {
        nullifier: "276277773929387392791096474084808108569850403587654342680891529007770412737"
            .to_string(),
    };

    let commitment = d.clone().get_commitment();

    assert_eq!(
        commitment,
        "6236796047772841813667132166633849358445729975292785870973181152954966652594".to_string()
    );
    assert_eq!(
        d.get_nullifier_hash(0),
        "10174783302134252183272028399003089320089964203118066360883858790559353379370".to_string()
    )
}

#[test]
fn test_parse_juno_addr() {
    // 9526846490934353717899961266123756195211556155320547954451400665347450669575
    let recipient = "juno14spgzl9ps5tyev32ny74fa6m0s9q9828v0vrga";

    // from juno1 bech32 address to U256
    {
        let n = address_to_field(recipient).unwrap();
        let words = n.to_bytes();
        assert_eq!(words.len(), 32);
        assert_eq!(
            n.to_decimal(),
            "9526846490934353717899961266123756195211556155320547954451400665347450669575"
        );
    }

    // from U256 to bech32
    {
        let addr = field_to_address(
            &U256::from_decimal(
                "9526846490934353717899961266123756195211556155320547954451400665347450669575",
            )
            .unwrap(),
        )
        .unwrap();

        assert_eq!(recipient, addr);
    }
}

#[test]
fn an_address_survives_the_round_trip() {
    for addr in [
        "juno14spgzl9ps5tyev32ny74fa6m0s9q9828v0vrga",
        "juno1am5sw4geda8xfvmn4pkzruhv8ah0l3jx5hgchh",
    ] {
        let field = address_to_field(addr).unwrap();
        assert_eq!(field_to_address(&field).unwrap(), addr);
        assert_eq!(address_to_field(&field_to_address(&field).unwrap()).unwrap(), field);
    }
}

#[test]
fn an_address_in_upper_case_comes_back_in_lower_case() {
    let lower = "juno14spgzl9ps5tyev32ny74fa6m0s9q9828v0vrga";
    let upper = lower.to_uppercase();
    let field = address_to_field(&upper).unwrap();
    assert_eq!(field, address_to_field(lower).unwrap());
    assert_eq!(field_to_address(&field).unwrap(), lower);
    assert_eq!(
        address_to_field("Juno14spgzl9ps5tyev32ny74fa6m0s9q9828v0vrga"),
        Err(AddressError::Malformed)
    );
}

#[test]
fn no_address_is_zero() {
    assert_eq!(address_to_field("").unwrap(), U256::zero());
    assert_eq!(address_to_field("0").unwrap(), U256::zero());
    assert!(whirlwind_core::address::names_no_address(""));
    assert!(whirlwind_core::address::names_no_address("0"));
    assert!(!whirlwind_core::address::names_no_address("00"));
    assert!(!whirlwind_core::address::names_no_address("juno1"));
    assert_eq!(address_to_field("00"), Err(AddressError::Malformed));
}

#[test]
fn a_broken_address_is_refused() {
    assert_eq!(
        address_to_field("juno14spgzl9ps5tyev32ny74fa6m0s9q9828v0vrgb"),
        Err(AddressError::Malformed)
    );
    assert_eq!(address_to_field("junk"), Err(AddressError::Malformed));
    // A contract address has a payload of 52 words.
    assert_eq!(
        address_to_field("juno10ve2n3n97sxzpykfu2g5hys04fmyl8lwxq6e0hemdn0xhestzcaq5lzua0"),
        Err(AddressError::Length)
    );
}

#[test]
fn a_field_with_a_large_byte_has_no_address() {
    assert_eq!(field_to_address(&U256::from_u128(32)), None);
    assert!(field_to_address(&U256::from_u128(31)).is_some());
    assert_eq!(
        address_to_field(&field_to_address(&U256::from_u128(31)).unwrap()).unwrap(),
        U256::from_u128(31)
    );
}

#[test]
fn withdrawal_signals_come_in_order() {
    let signals = PublicSignals::from_values(
        "7867364560627547019086598689541673085228895175200585554350937642876639323043".to_string(),
        "123".to_string(),
        "juno14spgzl9ps5tyev32ny74fa6m0s9q9828v0vrga".to_string(),
        "0".to_string(),
        17,
    )
    .unwrap();
    assert_eq!(
        signals.0,
        vec![
            "7867364560627547019086598689541673085228895175200585554350937642876639323043"
                .to_string(),
            "123".to_string(),
            "9526846490934353717899961266123756195211556155320547954451400665347450669575"
                .to_string(),
            "0".to_string(),
            "17".to_string(),
        ]
    );
    assert_eq!(
        PublicSignals::from_values(
            "1".to_string(),
            "2".to_string(),
            "not an address".to_string(),
            "".to_string(),
            0
        ),
        Err(AddressError::Malformed)
    );
}

#[test]
fn signals_are_read_as_scalars() {
    let signals = PublicSignals::from_json("[\"1337\", \"0\"]".to_string()).unwrap();
    assert_eq!(signals, PublicSignals::from(vec!["1337".to_string(), "0".to_string()]));
    assert_eq!(signals.get().unwrap(), vec![U256::from_u128(1337), U256::zero()]);

    // The order of the scalar field, and the order plus five.
    let wrapped = PublicSignals::from(vec![
        "21888242871839275222246405745257275088548364400416034343698204186575808495617"
            .to_string(),
        "21888242871839275222246405745257275088548364400416034343698204186575808495622"
            .to_string(),
    ]);
    assert_eq!(wrapped.get().unwrap(), vec![U256::zero(), U256::from_u128(5)]);

    for bad in ["", "01", "+1", "1a", "juno14spgzl9ps5tyev32ny74fa6m0s9q9828v0vrga"] {
        assert_eq!(
            PublicSignals::from(vec!["1".to_string(), bad.to_string()]).get(),
            Err(DecodeError::Numeral)
        );
    }
    assert_eq!(PublicSignals::from_json("[1337]".to_string()), Err(DecodeError::Shape));
    assert_eq!(PublicSignals::from_json("[\"1\"".to_string()), Err(DecodeError::Syntax));
}

#[test]
fn numerals_are_canonical() {
    assert_eq!(U256::from_decimal("0").unwrap(), U256::zero());
    for bad in ["", "00", "007", "+5", "-1", " 1", "1 ", "0x10", "١"] {
        assert_eq!(U256::from_decimal(bad), None);
    }
    let max = "115792089237316195423570985008687907853269984665640564039457584007913129639935";
    assert_eq!(U256::from_decimal(max).unwrap().to_decimal(), max);
    assert_eq!(U256::from_decimal(max).unwrap().to_bytes(), [255u8; 32]);
    assert_eq!(
        U256::from_decimal(
            "115792089237316195423570985008687907853269984665640564039457584007913129639936"
        ),
        None
    );
    assert_eq!(U256::zero().to_decimal(), "0");
    assert_eq!(U256::from_u128(u128::MAX).to_decimal(), u128::MAX.to_string());
    assert_eq!(
        U256::from_halves(1, 2).to_decimal(),
        "340282366920938463463374607431768211458"
    );
    assert!(U256::from_u128(3).less_than(&U256::from_halves(1, 0)));
    assert!(!U256::from_halves(1, 0).less_than(&U256::from_u128(3)));
    assert!(!U256::from_u128(3).less_than(&U256::from_u128(3)));
}

#[test]
fn the_hash_reduces_its_inputs() {
    let r = U256::from_decimal(
        "21888242871839275222246405745257275088548364400416034343698204186575808495617",
    )
    .unwrap();
    let r_plus_two = U256::from_decimal(
        "21888242871839275222246405745257275088548364400416034343698204186575808495619",
    )
    .unwrap();
    let one = U256::from_u128(1);
    let two = U256::from_u128(2);
    assert_eq!(hash_pair(&one, &r_plus_two), hash_pair(&one, &two));
    assert_eq!(hash_pair(&r, &one), hash_pair(&U256::zero(), &one));
    assert_ne!(hash_pair(&one, &two), hash_pair(&two, &one));
    assert_eq!(hash_values(&vec![one, two]), hash_pair(&one, &two));
    // Poseidon of (1, 2) with the parameters of circom.
    assert_eq!(
        hash_pair(&one, &two).to_decimal(),
        "7853200120776062878684798364095072458815029376092732009249414926327459813530"
    );
    assert!(hash_pair(&one, &two).less_than(&r));
}

#[test]
fn the_commitment_gives_its_first_digits() {
    let d = Deposit::new(
        "276277773929387392791096474084808108569850403587654342680891529007770412737".to_string(),
    );
    assert!(d.is_valid());
    let bytes = d.clone().try_commitment_as_array().unwrap();
    assert_eq!(&bytes, b"62367960477728418136671321666338");
    assert_eq!(d.commitment_as_array(), bytes);
    assert!(!Deposit::new("1x".to_string()).is_valid());
}

#[test]
fn a_proof_document_is_read_field_by_field() {
    let text = r#"{"pi_a":["1","2","1"],"pi_b":[["1","2"],["3","4"],["1","0"]],"pi_c":["5","6","1"],"protocol":"groth16","curve":"bn128","extra":[1,{"a":null}]}"#;
    let proof = CircomProof::from(text.to_string()).unwrap();
    assert_eq!(proof.pi_a, vec!["1", "2", "1"]);
    assert_eq!(proof.pi_b, vec![vec!["1", "2"], vec!["3", "4"], vec!["1", "0"]]);
    assert_eq!(proof.pi_c, vec!["5", "6", "1"]);
    assert_eq!(proof.protocol, "groth16");
    assert_eq!(proof.curve, "bn128");

    assert_eq!(CircomProof::from("{".to_string()), Err(DecodeError::Syntax));
    assert_eq!(CircomProof::from("[]".to_string()), Err(DecodeError::Shape));
    assert_eq!(
        CircomProof::from(
            r#"{"pi_a":["1","2","1"],"pi_b":[["1","2"],["3","4"],["1","0"]],"pi_c":["5","6","1"],"protocol":"groth16"}"#
                .to_string()
        ),
        Err(DecodeError::Shape)
    );
    assert_eq!(
        CircomProof::from(
            r#"{"pi_a":["1",2,"1"],"pi_b":[["1","2"],["3","4"],["1","0"]],"pi_c":["5","6","1"],"protocol":"groth16","curve":"bn128"}"#
                .to_string()
        ),
        Err(DecodeError::Shape)
    );
}

#[test]
fn a_payload_is_read_as_big_endian_bytes() {
    let mut words = vec![0u8; 32];
    words[31] = 7;
    words[30] = 1;
    assert_eq!(payload_to_field(&words), Ok(U256::from_u128(263)));
    assert_eq!(field_to_payload(&U256::from_u128(263)), Some(words.clone()));
    // 32 * 256: the byte before the last is 32.
    assert_eq!(field_to_payload(&U256::from_u128(8192)), None);
    words[30] = 0;
    assert_eq!(field_to_payload(&U256::from_u128(7)), Some(words.clone()));
    words[0] = 31;
    let top = payload_to_field(&words).unwrap();
    assert_eq!(top.to_bytes().to_vec(), words);
    assert_eq!(field_to_payload(&top), Some(words.clone()));
    words.push(0);
    assert_eq!(payload_to_field(&words), Err(AddressError::Length));
    assert_eq!(payload_to_field(&vec![]), Err(AddressError::Length));
    // A word of a payload is not asked to be below 32 here.
    assert_eq!(payload_to_field(&vec![255u8; 32]).unwrap().to_bytes(), [255u8; 32]);
}
