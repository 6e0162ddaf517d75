use whirlwind_core::codec::DecodeError;
use whirlwind_core::merkle_tree::MerkleTreeWithHistory;
use whirlwind_core::msg::{CircomProof, PublicSignals};
use whirlwind_core::pool::Coin;
use whirlwind_core::proof_verifier::{Verifier, VerifierError};
use whirlwind_core::swap::{
    accept_deposit, add_amount_denom_to_locked_balance, authorize_migration, authorize_withdrawal,
    check_proof, check_routes, deposit_signals, get_osmosis_swap_msg, migration_signals,
    poseidon_hash, remove_amount_denom_to_locked_balance, swap_output, withdrawal_signals,
    AmountDenom, Denom, OsmosisRoute, SwapError, SwapRequest,
};
use whirlwind_core::uint256::U256;

fn native(name: &str, amount: u128) -> AmountDenom {
    AmountDenom { amount, denom: Denom::Native(name.to_string()) }
}

fn token(address: &str, amount: u128) -> AmountDenom {
    AmountDenom { amount, denom: Denom::Cw20(address.to_string()) }
}

fn route(pool_id: &str, out: &str) -> OsmosisRoute {
    OsmosisRoute { pool_id: pool_id.to_string(), token_out_denom: out.to_string() }
}

fn pools(ids: &[&str]) -> Vec<String> {
    ids.iter().map(|s| s.to_string()).collect()
}

#[test]
fn an_amount_is_added_to_the_balance_of_its_denomination() {
    let mut balances = vec![];
    assert_eq!(add_amount_denom_to_locked_balance(&mut balances, native("ujuno", 5)), Ok(()));
    assert_eq!(balances, vec![native("ujuno", 5)]);
    assert_eq!(add_amount_denom_to_locked_balance(&mut balances, token("ujuno", 7)), Ok(()));
    assert_eq!(balances, vec![native("ujuno", 5), token("ujuno", 7)]);
    assert_eq!(add_amount_denom_to_locked_balance(&mut balances, native("ujuno", 6)), Ok(()));
    assert_eq!(balances, vec![native("ujuno", 11), token("ujuno", 7)]);
    assert_eq!(
        add_amount_denom_to_locked_balance(&mut balances, token("ujuno", u128::MAX - 6)),
        Err(SwapError::Overflow)
    );
    assert_eq!(balances, vec![native("ujuno", 11), token("ujuno", 7)]);
    assert_eq!(
        add_amount_denom_to_locked_balance(&mut balances, token("ujuno", u128::MAX - 7)),
        Ok(())
    );
    assert_eq!(balances, vec![native("ujuno", 11), token("ujuno", u128::MAX)]);
}

#[test]
fn an_amount_is_taken_from_the_balance_of_its_denomination() {
    let mut balances = vec![native("ujuno", 5), native("uosmo", 9), native("ujuno", 100)];
    assert_eq!(remove_amount_denom_to_locked_balance(&mut balances, native("uosmo", 4)), Ok(()));
    assert_eq!(balances, vec![native("ujuno", 5), native("uosmo", 5), native("ujuno", 100)]);
    assert_eq!(
        remove_amount_denom_to_locked_balance(&mut balances, native("ujuno", 6)),
        Err(SwapError::InsufficientLockedBalance)
    );
    assert_eq!(
        remove_amount_denom_to_locked_balance(&mut balances, token("uosmo", 1)),
        Err(SwapError::InsufficientLockedBalance)
    );
    assert_eq!(balances, vec![native("ujuno", 5), native("uosmo", 5), native("ujuno", 100)]);
    assert_eq!(remove_amount_denom_to_locked_balance(&mut balances, native("ujuno", 5)), Ok(()));
    assert_eq!(balances, vec![native("ujuno", 0), native("uosmo", 5), native("ujuno", 100)]);
    assert_eq!(
        remove_amount_denom_to_locked_balance(&mut vec![], native("ujuno", 0)),
        Err(SwapError::InsufficientLockedBalance)
    );
}

#[test]
fn routes_go_through_allowed_pools_to_the_output() {
    let allowed = pools(&["1", "7"]);
    assert_eq!(check_routes(&allowed, &vec![], "uosmo"), Ok(()));
    assert_eq!(
        check_routes(&allowed, &vec![route("7", "uatom"), route("1", "uosmo")], "uosmo"),
        Ok(())
    );
    assert_eq!(
        check_routes(&allowed, &vec![route("7", "uosmo"), route("1", "uatom")], "uosmo"),
        Err(SwapError::OutputDenomMismatch)
    );
    assert_eq!(
        check_routes(&allowed, &vec![route("7", "uatom"), route("2", "uosmo")], "uosmo"),
        Err(SwapError::InvalidPoolId { id: "2".to_string() })
    );
    assert_eq!(
        check_routes(&allowed, &vec![route("3", "uatom"), route("2", "x")], "uosmo"),
        Err(SwapError::InvalidPoolId { id: "3".to_string() })
    );
    assert_eq!(
        check_routes(&allowed, &vec![route("2", "uatom")], "uosmo"),
        Err(SwapError::InvalidPoolId { id: "2".to_string() })
    );
    assert_eq!(
        check_routes(&vec![], &vec![route("1", "uosmo")], "uosmo"),
        Err(SwapError::InvalidPoolId { id: "1".to_string() })
    );
}

#[test]
fn a_swap_request_names_native_coins() {
    let allowed = pools(&["1"]);
    let routes = vec![route("1", "uosmo")];
    let made = get_osmosis_swap_msg(
        allowed.clone(),
        "contract".to_string(),
        routes.clone(),
        50,
        Denom::Native("ujuno".to_string()),
        40,
        Denom::Native("uosmo".to_string()),
    );
    assert_eq!(
        made,
        Ok(SwapRequest {
            routes: routes.clone(),
            sender: "contract".to_string(),
            token_in_denom: "ujuno".to_string(),
            token_in_amount: 50,
            token_out_min_amount: 40,
        })
    );
    assert_eq!(
        get_osmosis_swap_msg(
            allowed.clone(),
            "contract".to_string(),
            routes.clone(),
            50,
            Denom::Cw20("token".to_string()),
            40,
            Denom::Native("uosmo".to_string()),
        ),
        Err(SwapError::NotYetSupported)
    );
    assert_eq!(
        get_osmosis_swap_msg(
            allowed.clone(),
            "contract".to_string(),
            vec![route("9", "uosmo")],
            50,
            Denom::Native("ujuno".to_string()),
            40,
            Denom::Cw20("token".to_string()),
        ),
        Err(SwapError::NotYetSupported)
    );
    assert_eq!(
        get_osmosis_swap_msg(
            allowed,
            "contract".to_string(),
            routes,
            50,
            Denom::Native("ujuno".to_string()),
            40,
            Denom::Native("uatom".to_string()),
        ),
        Err(SwapError::OutputDenomMismatch)
    );
}

#[test]
fn a_swap_brings_the_difference_of_the_balances() {
    assert_eq!(swap_output(10, 25), Some(15));
    assert_eq!(swap_output(10, 10), Some(0));
    assert_eq!(swap_output(10, 9), None);
    assert_eq!(swap_output(0, u128::MAX), Some(u128::MAX));
}

#[test]
fn an_address_stands_for_itself() {
    assert_eq!(poseidon_hash("juno1abc"), "juno1abc");
    assert_eq!(poseidon_hash(""), "");
}

#[test]
fn signals_are_listed_in_the_order_of_the_circuit() {
    assert_eq!(
        deposit_signals("1337", "99"),
        PublicSignals(vec!["1337".to_string(), "99".to_string()])
    );
    assert_eq!(
        migration_signals("1", "2", &U256::from_u128(3)),
        PublicSignals(vec!["1".to_string(), "2".to_string(), "3".to_string()])
    );
    assert_eq!(
        withdrawal_signals("1337", &U256::zero()),
        PublicSignals(vec!["1337".to_string(), "0".to_string()])
    );
}

const VK: &str = r#"{"vk_alpha_1":["20491192805390485299153009773594534940189261866228447918068658471970481763042","9383485363053290200918347156157836566562967994039712273449902621266178545958","1"],"vk_beta_2":[["6375614351688725206403948262868962793625744043794305715222011528459656738731","4252822878758300859123897981450591353533073413197771768651442665752259397132"],["10505242626370262277552901082094356697409835680220590971873171140371331206856","21847035105528745403288232691147584728191162732299865338377159692350059136679"],["1","0"]],"vk_gamma_2":[["10857046999023057135944570762232829481370756359578518086990519993285655852781","11559732032986387107991004021392285783925812861821192530917403151452391805634"],["8495653923123431417604973247489272438418190587263600148770280649306958101930","4082367875863433681332203403145435568316851327593401208105741076214120093531"],["1","0"]],"vk_delta_2":[["10857046999023057135944570762232829481370756359578518086990519993285655852781","11559732032986387107991004021392285783925812861821192530917403151452391805634"],["8495653923123431417604973247489272438418190587263600148770280649306958101930","4082367875863433681332203403145435568316851327593401208105741076214120093531"],["1","0"]],"IC":[["18063672049530750858029462763326906032839990382122586121488003785381547683675","759609395653719992266251714863437073282774200097442679432081675620145396703","1"],["20521766568357207416086813883296574432447456817495332350690931304634989234256","884475057409272585121087416286688027516162190905496611825612051902017581895","1"],["4708974210337050848907406067935772376483646117790992143188804094263795451636","1641349259651647782104224499950665741519430186966263769111437651584415528307","1"]]}"#;

const PROOF: &str = r#"{"pi_a":["19051854307920317904879077542198307586873302738907730626712683511875369534379","7526972877723952318838057114682458392583355109667074627519913556121434801741","1"],"pi_b":[["7713303041286554795405471441081486166824672806560637660845281568279489749838","19107866636676591509729227901326692072156041217829998937398887169205765443059"],["5393766924274999875467344277382601067886208352046450008024913526116911668877","19157991937111202103608755287157993120221664100991863114045575977817839047985"],["1","0"]],"pi_c":["15961344810639486177464044177317247290093379916616760335374135791579706230261","21284641939028737967642489932465507698628017397882092494175127135703653076787","1"],"protocol":"groth16","curve":"bn128"}"#;

const CREDENTIAL: &str =
    "2880600617345714039494384748645461738150340256226005947162982605579534386469";

fn good_proof() -> whirlwind_core::groth16::Proof {
    CircomProof::from(PROOF.to_string()).unwrap().to_proof().unwrap()
}

#[test]
fn a_deposit_with_a_good_proof_becomes_a_leaf() {
    let verifier = Verifier::from_vk(VK.to_string());
    let mut tree = MerkleTreeWithHistory::new(20);
    let denom = Denom::Native("ujuno".to_string());
    let funds = vec![Coin { denom: "ujuno".to_string(), amount: 10 }];
    let fresh = tree.clone();

    assert_eq!(
        accept_deposit(&mut tree, verifier.clone(), &denom, 11, &funds, good_proof(), CREDENTIAL, "1337"),
        Err(SwapError::InvalidDeposit)
    );
    assert_eq!(
        accept_deposit(&mut tree, verifier.clone(), &denom, 10, &funds, good_proof(), CREDENTIAL, "432"),
        Err(SwapError::InvalidProof)
    );
    assert_eq!(
        accept_deposit(&mut tree, verifier.clone(), &denom, 10, &funds, good_proof(), CREDENTIAL, "juno1abc"),
        Err(SwapError::Numeral)
    );
    assert_eq!(
        accept_deposit(&mut tree, Verifier::new(), &denom, 10, &funds, good_proof(), CREDENTIAL, "1337"),
        Err(SwapError::Verifier(VerifierError::Key(DecodeError::Syntax)))
    );
    assert_eq!(tree, fresh);

    assert_eq!(
        accept_deposit(&mut tree, verifier.clone(), &denom, 10, &funds, good_proof(), CREDENTIAL, "1337"),
        Ok(0)
    );
    let mut expected = fresh.clone();
    expected.insert(&U256::from_decimal(CREDENTIAL).unwrap());
    assert_eq!(tree, expected);

    // A full tree takes no further credential.
    let mut small = MerkleTreeWithHistory::new(1);
    small.insert(&U256::from_u128(1));
    small.insert(&U256::from_u128(2));
    let full = small.clone();
    assert_eq!(
        accept_deposit(&mut small, verifier.clone(), &denom, 10, &funds, good_proof(), CREDENTIAL, "1337"),
        Err(SwapError::InvalidCommitment)
    );
    assert_eq!(small, full);

    // A token brings no coins with the message.
    let token = Denom::Cw20("juno1token".to_string());
    assert_eq!(
        accept_deposit(&mut tree, verifier, &token, 10, &vec![], good_proof(), CREDENTIAL, "1337"),
        Ok(1)
    );
}

#[test]
fn a_proof_is_checked_against_its_signals() {
    let verifier = Verifier::from_vk(VK.to_string());
    assert_eq!(
        check_proof(verifier.clone(), good_proof(), deposit_signals("1337", CREDENTIAL)),
        Ok(())
    );
    assert_eq!(
        check_proof(verifier.clone(), good_proof(), deposit_signals(CREDENTIAL, "1337")),
        Err(SwapError::InvalidProof)
    );
    assert_eq!(
        authorize_withdrawal(
            verifier.clone(),
            good_proof(),
            "1337",
            &U256::from_decimal(CREDENTIAL).unwrap()
        ),
        Ok(())
    );
    assert_eq!(
        authorize_withdrawal(verifier, good_proof(), "1337", &U256::zero()),
        Err(SwapError::InvalidProof)
    );
}

#[test]
fn a_migration_is_refused_for_the_first_reason_found() {
    let verifier = Verifier::from_vk(VK.to_string());
    let mut tree = MerkleTreeWithHistory::new(20);
    tree.insert(&U256::from_u128(1));
    let root = tree.get_last_root().to_decimal();
    let previous = U256::zero();

    assert_eq!(
        authorize_migration(&tree, verifier.clone(), true, good_proof(), &root, "5", &previous),
        Err(SwapError::DuplicateCommitment)
    );
    assert_eq!(
        authorize_migration(&tree, verifier.clone(), false, good_proof(), "root", "5", &previous),
        Err(SwapError::Numeral)
    );
    assert_eq!(
        authorize_migration(&tree, verifier.clone(), false, good_proof(), "123", "5", &previous),
        Err(SwapError::UnknownRoot)
    );
    let empty = MerkleTreeWithHistory::new(20);
    let empty_root = empty.get_last_root().to_decimal();
    assert_eq!(
        authorize_migration(
            &empty,
            Verifier::from_vk(VK.to_string()),
            false,
            good_proof(),
            &empty_root,
            "5",
            &previous
        ),
        Err(SwapError::NoDeposit)
    );
    // The key is for two signals; a migration has three.
    assert_eq!(
        authorize_migration(&tree, verifier, false, good_proof(), &root, "5", &previous),
        Err(SwapError::Verifier(VerifierError::Check(
            whirlwind_core::groth16::VerifyError::InputCount
        )))
    );
}
