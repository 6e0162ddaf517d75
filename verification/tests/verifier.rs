use whirlwind_core::codec::DecodeError;
use whirlwind_core::curve::{str_to_fq, Fq2Element, G1Point, G2Point};
use whirlwind_core::groth16::{verify, Proof, VerifyError};
use whirlwind_core::msg::{CircomProof, PublicSignals};
use whirlwind_core::proof_verifier::{Verifier, VerifierError, VerifyingKeyJson};
use whirlwind_core::uint256::U256;

const VK: &str = r#"{
            "protocol": "groth16",
            "curve": "bn128",
            "nPublic": 2,
            "vk_alpha_1": [
             "20491192805390485299153009773594534940189261866228447918068658471970481763042",
             "9383485363053290200918347156157836566562967994039712273449902621266178545958",
             "1"
            ],
            "vk_beta_2": [
             [
              "6375614351688725206403948262868962793625744043794305715222011528459656738731",
              "4252822878758300859123897981450591353533073413197771768651442665752259397132"
             ],
             [
              "10505242626370262277552901082094356697409835680220590971873171140371331206856",
              "21847035105528745403288232691147584728191162732299865338377159692350059136679"
             ],
             [
              "1",
              "0"
             ]
            ],
            "vk_gamma_2": [
             [
              "10857046999023057135944570762232829481370756359578518086990519993285655852781",
              "11559732032986387107991004021392285783925812861821192530917403151452391805634"
             ],
             [
              "8495653923123431417604973247489272438418190587263600148770280649306958101930",
              "4082367875863433681332203403145435568316851327593401208105741076214120093531"
             ],
             [
              "1",
              "0"
             ]
            ],
            "vk_delta_2": [
             [
              "10857046999023057135944570762232829481370756359578518086990519993285655852781",
              "11559732032986387107991004021392285783925812861821192530917403151452391805634"
             ],
             [
              "8495653923123431417604973247489272438418190587263600148770280649306958101930",
              "4082367875863433681332203403145435568316851327593401208105741076214120093531"
             ],
             [
              "1",
              "0"
             ]
            ],
            "vk_alphabeta_12": [
             [
              [
               "2029413683389138792403550203267699914886160938906632433982220835551125967885",
               "21072700047562757817161031222997517981543347628379360635925549008442030252106"
              ],
              [
               "5940354580057074848093997050200682056184807770593307860589430076672439820312",
               "12156638873931618554171829126792193045421052652279363021382169897324752428276"
              ],
              [
               "7898200236362823042373859371574133993780991612861777490112507062703164551277",
               "7074218545237549455313236346927434013100842096812539264420499035217050630853"
              ]
             ],
             [
              [
               "7077479683546002997211712695946002074877511277312570035766170199895071832130",
               "10093483419865920389913245021038182291233451549023025229112148274109565435465"
              ],
              [
               "4595479056700221319381530156280926371456704509942304414423590385166031118820",
               "19831328484489333784475432780421641293929726139240675179672856274388269393268"
              ],
              [
               "11934129596455521040620786944827826205713621633706285934057045369193958244500",
               "8037395052364110730298837004334506829870972346962140206007064471173334027475"
              ]
             ]
            ],
            "IC": [
             [
              "18063672049530750858029462763326906032839990382122586121488003785381547683675",
              "759609395653719992266251714863437073282774200097442679432081675620145396703",
              "1"
             ],
             [
              "20521766568357207416086813883296574432447456817495332350690931304634989234256",
              "884475057409272585121087416286688027516162190905496611825612051902017581895",
              "1"
             ],
             [
              "4708974210337050848907406067935772376483646117790992143188804094263795451636",
              "1641349259651647782104224499950665741519430186966263769111437651584415528307",
              "1"
             ]
            ]
           }
"#;

const PROOF: &str = r#"{
            "pi_a": [
              "19051854307920317904879077542198307586873302738907730626712683511875369534379",
              "7526972877723952318838057114682458392583355109667074627519913556121434801741",
              "1"
            ],
            "pi_b": [
              [
                "7713303041286554795405471441081486166824672806560637660845281568279489749838",
                "19107866636676591509729227901326692072156041217829998937398887169205765443059"
              ],
              [
                "5393766924274999875467344277382601067886208352046450008024913526116911668877",
                "19157991937111202103608755287157993120221664100991863114045575977817839047985"
              ],
              [
                "1",
                "0"
              ]
            ],
            "pi_c": [
              "15961344810639486177464044177317247290093379916616760335374135791579706230261",
              "21284641939028737967642489932465507698628017397882092494175127135703653076787",
              "1"
            ],
            "protocol": "groth16",
            "curve": "bn128"
          }
"#;

const SIGNALS: &str = r#"[
            "1337",
            "2880600617345714039494384748645461738150340256226005947162982605579534386469"
          ]
"#;

#[test]
fn test_verifier() {
    let v: Verifier = Verifier::from_vk(VK.to_string());

    let proof = CircomProof::from(PROOF.to_string()).unwrap().to_proof().unwrap();
    let public_signals = PublicSignals::from_json(SIGNALS.to_string()).unwrap();

    let res = v.verify_proof(proof, &public_signals.get().unwrap()).unwrap();

    println!("res: {}", res);
    assert!(res);
}

fn sample_key() -> whirlwind_core::groth16::VerifyingKey {
    VerifyingKeyJson::from_json(VK).unwrap().to_verifying_key().unwrap()
}

fn sample_proof() -> Proof {
    CircomProof::from(PROOF.to_string()).unwrap().to_proof().unwrap()
}

fn sample_inputs() -> Vec<U256> {
    PublicSignals::from_json(SIGNALS.to_string()).unwrap().get().unwrap()
}

#[test]
fn a_good_proof_is_accepted() {
    assert_eq!(verify(&sample_key(), &sample_proof(), &sample_inputs()), Ok(true));
}

#[test]
fn an_altered_input_is_rejected() {
    for i in 0..2 {
        let mut xs = sample_inputs();
        xs[i] = U256::from_u128(432);
        assert_eq!(verify(&sample_key(), &sample_proof(), &xs), Ok(false));
    }
    let mut swapped = sample_inputs();
    swapped.swap(0, 1);
    assert_eq!(verify(&sample_key(), &sample_proof(), &swapped), Ok(false));
}

#[test]
fn an_input_is_taken_modulo_the_order() {
    let mut xs = sample_inputs();
    // 1337 plus the order of the scalar field.
    xs[0] = U256::from_decimal(
        "21888242871839275222246405745257275088548364400416034343698204186575808496954",
    )
    .unwrap();
    assert_eq!(verify(&sample_key(), &sample_proof(), &xs), Ok(true));
}

#[test]
fn a_wrong_number_of_inputs_is_an_error() {
    let mut xs = sample_inputs();
    xs.pop();
    assert_eq!(verify(&sample_key(), &sample_proof(), &xs), Err(VerifyError::InputCount));
    let mut ys = sample_inputs();
    ys.push(U256::zero());
    assert_eq!(verify(&sample_key(), &sample_proof(), &ys), Err(VerifyError::InputCount));
    assert_eq!(
        Verifier::from_vk(VK.to_string()).verify_proof(sample_proof(), &xs),
        Err(VerifierError::Check(VerifyError::InputCount))
    );
}

#[test]
fn a_perturbed_proof_is_not_accepted() {
    let good = sample_proof();
    let one = U256::from_u128(1);

    let mut p = good;
    p.a.x = one;
    assert_eq!(verify(&sample_key(), &p, &sample_inputs()), Err(VerifyError::MalformedProof));

    let mut p = good;
    p.b.y.c1 = one;
    assert_eq!(verify(&sample_key(), &p, &sample_inputs()), Err(VerifyError::MalformedProof));

    let mut p = good;
    p.c.y = one;
    assert_eq!(verify(&sample_key(), &p, &sample_inputs()), Err(VerifyError::MalformedProof));

    // The generator of the curve is a valid point, and not the proof's.
    let mut p = good;
    p.a = G1Point::new(U256::from_u128(1), U256::from_u128(2)).unwrap();
    assert_eq!(verify(&sample_key(), &p, &sample_inputs()), Ok(false));

    let mut p = good;
    p.c = good.a;
    assert_eq!(verify(&sample_key(), &p, &sample_inputs()), Ok(false));

    let mut p = good;
    p.b = sample_key().beta_g2;
    assert_eq!(verify(&sample_key(), &p, &sample_inputs()), Ok(false));
}

#[test]
fn another_key_rejects_the_proof() {
    let mut other = sample_key();
    other.alpha_g1 = other.gamma_abc_g1[0];
    assert_eq!(verify(&other, &sample_proof(), &sample_inputs()), Ok(false));

    let mut other = sample_key();
    other.gamma_abc_g1.swap(1, 2);
    assert_eq!(verify(&other, &sample_proof(), &sample_inputs()), Ok(false));

    let mut broken = sample_key();
    broken.delta_g2.x.c0 = U256::from_u128(5);
    assert_eq!(verify(&broken, &sample_proof(), &sample_inputs()), Err(VerifyError::MalformedKey));
}

#[test]
fn a_verifier_without_a_key_checks_nothing() {
    assert_eq!(
        Verifier::new().verify_proof(sample_proof(), &sample_inputs()),
        Err(VerifierError::Key(DecodeError::Syntax))
    );
    assert_eq!(
        Verifier::from_vk("{}".to_string()).verify_proof(sample_proof(), &sample_inputs()),
        Err(VerifierError::Key(DecodeError::Shape))
    );
}

fn proof_text(a: [&str; 3], b: [[&str; 2]; 3], c: [&str; 3]) -> CircomProof {
    CircomProof {
        pi_a: a.iter().map(|s| s.to_string()).collect(),
        pi_b: b.iter().map(|r| r.iter().map(|s| s.to_string()).collect()).collect(),
        pi_c: c.iter().map(|s| s.to_string()).collect(),
        protocol: "groth16".to_string(),
        curve: "bn128".to_string(),
    }
}

const G2X0: &str = "10857046999023057135944570762232829481370756359578518086990519993285655852781";
const G2X1: &str = "11559732032986387107991004021392285783925812861821192530917403151452391805634";
const G2Y0: &str = "8495653923123431417604973247489272438418190587263600148770280649306958101930";
const G2Y1: &str = "4082367875863433681332203403145435568316851327593401208105741076214120093531";

#[test]
fn a_proof_is_decoded_from_affine_coordinates() {
    let g2 = [[G2X0, G2X1], [G2Y0, G2Y1], ["1", "0"]];
    let p = proof_text(["1", "2", "1"], g2, ["1", "2", "1"]).to_proof().unwrap();
    assert_eq!(p.a, G1Point { x: U256::from_u128(1), y: U256::from_u128(2) });
    assert_eq!(p.c, p.a);
    assert_eq!(p.b.x.c0.to_decimal(), G2X0);
    assert_eq!(p.b.x.c1.to_decimal(), G2X1);
    assert_eq!(p.b.y.c0.to_decimal(), G2Y0);
    assert_eq!(p.b.y.c1.to_decimal(), G2Y1);
    assert!(G2Point::new(p.b.x, p.b.y).is_some());

    // The order of the base field plus one is one.
    let q1 = "21888242871839275222246405745257275088696311157297823662689037894645226208584";
    assert_eq!(proof_text([q1, "2", "1"], g2, ["1", "2", "1"]).to_proof().unwrap().a, p.a);

    let cases = [
        (proof_text(["1", "2", "2"], g2, ["1", "2", "1"]), DecodeError::NotAffine),
        (proof_text(["1", "2", "1"], g2, ["1", "2", "0"]), DecodeError::NotAffine),
        (
            proof_text(["1", "2", "1"], [[G2X0, G2X1], [G2Y0, G2Y1], ["1", "1"]], ["1", "2", "1"]),
            DecodeError::NotAffine,
        ),
        (proof_text(["1", "x", "1"], g2, ["1", "2", "1"]), DecodeError::Numeral),
        (proof_text(["1", "02", "1"], g2, ["1", "2", "1"]), DecodeError::Numeral),
        (proof_text(["1", "3", "1"], g2, ["1", "2", "1"]), DecodeError::NotOnCurve),
        (
            proof_text(["1", "2", "1"], [[G2X0, G2X1], [G2Y0, "5"], ["1", "0"]], ["1", "2", "1"]),
            DecodeError::NotOnCurve,
        ),
    ];
    for (text, error) in cases {
        assert_eq!(text.to_proof(), Err(error));
    }
    let mut short = proof_text(["1", "2", "1"], g2, ["1", "2", "1"]);
    short.pi_c.pop();
    assert_eq!(short.to_proof(), Err(DecodeError::Shape));
    let mut ragged = proof_text(["1", "2", "1"], g2, ["1", "2", "1"]);
    ragged.pi_b[1].push("0".to_string());
    assert_eq!(ragged.to_proof(), Err(DecodeError::Shape));
}

#[test]
fn a_key_is_brought_to_affine_form() {
    let mut doc = VerifyingKeyJson::from_json(VK).unwrap();
    let plain = doc.clone().to_verifying_key().unwrap();
    assert_eq!(plain.gamma_abc_g1.len(), 3);
    assert_eq!(plain.alpha_g1.x.to_decimal(), doc.vk_alpha_1[0]);
    assert_eq!(plain.alpha_g1.y.to_decimal(), doc.vk_alpha_1[1]);
    assert_eq!(doc.vk_alphabeta_12.len(), 2);

    // The generator (1, 2) with z = 2: (1 * 4, 2 * 8, 2).
    doc.vk_alpha_1 = vec!["4".to_string(), "16".to_string(), "2".to_string()];
    let scaled = doc.clone().to_verifying_key().unwrap();
    assert_eq!(scaled.alpha_g1, G1Point { x: U256::from_u128(1), y: U256::from_u128(2) });

    doc.vk_alpha_1 = vec!["4".to_string(), "16".to_string(), "0".to_string()];
    assert_eq!(doc.clone().to_verifying_key(), Err(DecodeError::Infinity));
    doc.vk_alpha_1 = vec!["4".to_string(), "17".to_string(), "2".to_string()];
    assert_eq!(doc.clone().to_verifying_key(), Err(DecodeError::NotOnCurve));
    doc.vk_alpha_1 = vec!["4".to_string(), "16".to_string()];
    assert_eq!(doc.clone().to_verifying_key(), Err(DecodeError::Shape));
    doc.vk_alpha_1 = vec!["4".to_string(), "16".to_string(), "z".to_string()];
    assert_eq!(doc.clone().to_verifying_key(), Err(DecodeError::Numeral));

    let mut doc = VerifyingKeyJson::from_json(VK).unwrap();
    doc.ic.clear();
    assert_eq!(doc.clone().to_verifying_key(), Err(DecodeError::Shape));
    let mut doc = VerifyingKeyJson::from_json(VK).unwrap();
    doc.ic[2][2] = "0".to_string();
    assert_eq!(doc.clone().to_verifying_key(), Err(DecodeError::Infinity));
    let mut doc = VerifyingKeyJson::from_json(VK).unwrap();
    doc.vk_gamma_2[2] = vec!["0".to_string(), "0".to_string()];
    assert_eq!(doc.clone().to_verifying_key(), Err(DecodeError::Infinity));
    let mut doc = VerifyingKeyJson::from_json(VK).unwrap();
    doc.vk_delta_2[0][0] = "1".to_string();
    assert_eq!(doc.to_verifying_key(), Err(DecodeError::NotOnCurve));
}

fn fq2(c0: &str, c1: &str) -> Fq2Element {
    Fq2Element { c0: str_to_fq(c0).unwrap(), c1: str_to_fq(c1).unwrap() }
}

#[test]
fn a_point_of_the_twist_must_have_prime_order() {
    assert!(G2Point::new(fq2(G2X0, G2X1), fq2(G2Y0, G2Y1)).is_some());
    // This point satisfies the twist's equation and lies outside the
    // subgroup of prime order.
    let x = fq2("1", "0");
    let y = fq2(
        "18278151005453108793778860132295291098363647455926340152056652516292830556603",
        "5912654199736721486680175016176231956195085055698687135131307249486702594212",
    );
    assert_eq!(G2Point::new(x, y), None);
    assert!(!G2Point { x, y }.is_valid());
    // Off the twist altogether.
    assert_eq!(G2Point::new(fq2("1", "0"), fq2("1", "0")), None);
    // Not reduced: the order of the base field itself.
    let q = whirlwind_core::uint256::U256::from_decimal(
        "21888242871839275222246405745257275088696311157297823662689037894645226208583",
    )
    .unwrap();
    let mut unreduced = G2Point::new(fq2(G2X0, G2X1), fq2(G2Y0, G2Y1)).unwrap();
    unreduced.x.c0 = q;
    assert!(!unreduced.is_valid());
    assert!(!G1Point { x: q, y: U256::from_u128(2) }.is_valid());
    assert_eq!(G1Point::new(U256::from_u128(1), U256::from_u128(2)).map(|p| p.is_valid()), Some(true));
    assert_eq!(G1Point::new(U256::from_u128(1), U256::from_u128(3)), None);
    assert!(fq2("0", "0").is_zero());
    assert!(!fq2("0", "1").is_zero());
    assert!(fq2("1", "0").is_one());
    assert!(!fq2("1", "1").is_one());
}

#[test]
fn a_key_point_of_the_twist_is_brought_to_affine_form() {
    let mut doc = VerifyingKeyJson::from_json(VK).unwrap();
    // The generator of the twist, scaled by z = 3 + 5u: (x * z^2, y * z^3, z).
    doc.vk_gamma_2 = vec![
        vec![
            "4813115950182077919070485048680756909004980167255702585166495035343181192476"
                .to_string(),
            "9426240211873869017002624053164661366131818054429520138902922007460049441788"
                .to_string(),
        ],
        vec![
            "6208031338228985058359316840994433517038331872401227814861014352053965360607"
                .to_string(),
            "20847957452809802828651253990843834873119922357268566814193361820611493591984"
                .to_string(),
        ],
        vec!["3".to_string(), "5".to_string()],
    ];
    let scaled = doc.to_verifying_key().unwrap();
    assert_eq!(scaled.gamma_g2, G2Point { x: fq2(G2X0, G2X1), y: fq2(G2Y0, G2Y1) });
    assert_eq!(scaled, sample_key());
    assert_eq!(verify(&scaled, &sample_proof(), &sample_inputs()), Ok(true));
}

#[test]
fn field_elements_are_read_from_numerals() {
    assert_eq!(str_to_fq("0"), Some(U256::zero()));
    assert_eq!(str_to_fq("12"), Some(U256::from_u128(12)));
    assert_eq!(
        str_to_fq("21888242871839275222246405745257275088696311157297823662689037894645226208583"),
        Some(U256::zero())
    );
    // 2^256 is 6350874878119819312338956282401532409788428879151445726012394534686998597021
    // more than five times the order.
    assert_eq!(
        str_to_fq("115792089237316195423570985008687907853269984665640564039457584007913129639936")
            .map(|v| v.to_decimal()),
        Some(
            "6350874878119819312338956282401532409788428879151445726012394534686998597021"
                .to_string()
        )
    );
    for bad in ["", "00", "01", "+1", "1.0", "1e3", "abc", " 1"] {
        assert_eq!(str_to_fq(bad), None);
        assert_eq!(whirlwind_core::curve::str_to_fr(bad), None);
    }
    assert_eq!(
        whirlwind_core::curve::str_to_fr(
            "21888242871839275222246405745257275088548364400416034343698204186575808495618"
        ),
        Some(U256::from_u128(1))
    );
}
