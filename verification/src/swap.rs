//! The rules of the pool that swaps: the balances it holds locked for its
//! depositors, and the routes a swap may take.

use crate::codec::{str_equal, texts_of};
use crate::decimal::decimal_digits;
use crate::groth16::{Proof, ProofModel};
use crate::merkle_tree::{MerkleTreeWithHistory, TreeModel};
use crate::msg::{all_numerals, scalars_of, PublicSignals};
use crate::pool::{numeral_value, sent_single_coin, Coin};
use crate::proof_verifier::{verifier_outcome, Verifier, VerifierError};
use crate::uint256::U256;
use vstd::prelude::*;

verus! {

/// A denomination as a message names it, before its address is checked.
#[derive(Clone, Debug, PartialEq)]
pub enum DenomUnvalidated {
    Native(String),
    Cw20(String),
}

/// A denomination: a native coin by its name, or a token by the address of
/// its contract.
#[derive(Clone, Debug, PartialEq)]
pub enum Denom {
    Native(String),
    Cw20(String),
}

/// What a denomination holds.
pub enum DenomModel {
    Native(Seq<char>),
    Cw20(Seq<char>),
}

impl View for Denom {
    type V = DenomModel;

    open spec fn view(&self) -> DenomModel {
        match self {
            Denom::Native(name) => DenomModel::Native(name@),
            Denom::Cw20(address) => DenomModel::Cw20(address@),
        }
    }
}

impl Denom {
    /// Whether two denominations are the same.
    pub fn same(&self, other: &Denom) -> (r: bool)
        ensures
            r == (self@ == other@),
    {
        match (self, other) {
            (Denom::Native(a), Denom::Native(b)) => str_equal(a.as_str(), b.as_str()),
            (Denom::Cw20(a), Denom::Cw20(b)) => str_equal(a.as_str(), b.as_str()),
            _ => false,
        }
    }
}

/// An amount of one denomination.
#[derive(Clone, Debug, PartialEq)]
pub struct AmountDenom {
    pub amount: u128,
    pub denom: Denom,
}

impl View for AmountDenom {
    type V = (DenomModel, nat);

    open spec fn view(&self) -> (DenomModel, nat) {
        (self.denom@, self.amount as nat)
    }
}

/// What a list of balances holds.
pub open spec fn balances_of(v: Seq<AmountDenom>) -> Seq<(DenomModel, nat)> {
    v.map_values(|a: AmountDenom| a@)
}

/// The place of the first balance of the given denomination, or the length
/// of the list where there is none.
pub open spec fn place_of(balances: Seq<(DenomModel, nat)>, denom: DenomModel) -> int
    decreases balances.len(),
{
    if balances.len() == 0 {
        0
    } else if balances[0].0 == denom {
        0
    } else {
        1 + place_of(balances.drop_first(), denom)
    }
}

/// The balances after an amount was added: to the first balance of its
/// denomination, or as a new balance at the end.
pub open spec fn credited(balances: Seq<(DenomModel, nat)>, denom: DenomModel, amount: nat) -> Seq<
    (DenomModel, nat),
> {
    let i = place_of(balances, denom);
    if i < balances.len() {
        balances.update(i, (denom, balances[i].1 + amount))
    } else {
        balances.push((denom, amount))
    }
}

/// The balances after an amount was taken from the first balance of its
/// denomination; nothing where there is no such balance or it is too small.
pub open spec fn debited(balances: Seq<(DenomModel, nat)>, denom: DenomModel, amount: nat) -> Option<
    Seq<(DenomModel, nat)>,
> {
    let i = place_of(balances, denom);
    if i < balances.len() && balances[i].1 >= amount {
        Some(balances.update(i, (denom, (balances[i].1 - amount) as nat)))
    } else {
        None
    }
}

/// The place is within the list or at its end; no balance before it has the
/// denomination, and the balance at it has.
pub proof fn lemma_place_of(balances: Seq<(DenomModel, nat)>, denom: DenomModel)
    ensures
        0 <= place_of(balances, denom) <= balances.len(),
        forall|j: int| 0 <= j < place_of(balances, denom) ==> (#[trigger] balances[j]).0 != denom,
        place_of(balances, denom) < balances.len() ==> balances[place_of(balances, denom)].0
            == denom,
    decreases balances.len(),
{
    if balances.len() > 0 && balances[0].0 != denom {
        let rest = balances.drop_first();
        lemma_place_of(rest, denom);
        assert forall|j: int| 0 <= j < place_of(balances, denom) implies (#[trigger] balances[j]).0
            != denom by {
            if j > 0 {
                assert(balances[j] == rest[j - 1]);
            }
        }
    }
}

/// A place that no balance of the denomination precedes, and that has one or
/// is the end of the list, is the place of the denomination.
pub proof fn lemma_place_found(balances: Seq<(DenomModel, nat)>, denom: DenomModel, i: int)
    requires
        0 <= i <= balances.len(),
        forall|j: int| 0 <= j < i ==> (#[trigger] balances[j]).0 != denom,
        i < balances.len() ==> balances[i].0 == denom,
    ensures
        place_of(balances, denom) == i,
    decreases balances.len(),
{
    if balances.len() > 0 && i > 0 {
        let rest = balances.drop_first();
        assert(balances[0].0 != denom);
        assert forall|j: int| 0 <= j < i - 1 implies (#[trigger] rest[j]).0 != denom by {
            assert(rest[j] == balances[j + 1]);
        }
        lemma_place_found(rest, denom, i - 1);
    }
}

/// Why a balance was not changed or a swap not made.
#[derive(Clone, Debug, PartialEq)]
pub enum SwapError {
    /// The balance is missing or smaller than the amount to take.
    InsufficientLockedBalance,
    /// The balance would exceed what an amount can hold.
    Overflow,
    /// A token is named where only a native coin can stand.
    NotYetSupported,
    /// A route goes through a pool that is not allowed.
    InvalidPoolId { id: String },
    /// The last route does not end in the denomination asked for.
    OutputDenomMismatch,
    /// The deposit does not bring the one coin that it must.
    InvalidDeposit,
    /// The tree is full.
    InvalidCommitment,
    /// The nullifier was used before.
    DuplicateCommitment,
    /// The ring of roots stands at its first slot: the tree has taken no
    /// deposit, or the ring has just come round.
    NoDeposit,
    /// The root is not one of the roots that the tree remembers.
    UnknownRoot,
    /// The proof does not hold of the public signals.
    InvalidProof,
    /// A number is not a canonical base-10 numeral below `2^256`.
    Numeral,
    /// The proof was not checked.
    Verifier(VerifierError),
}

/// The place of the first balance of the denomination.
fn find_denom(balances: &Vec<AmountDenom>, denom: &Denom) -> (i: usize)
    ensures
        i as int == place_of(balances_of(balances@), denom@),
        i <= balances@.len(),
{
    let mut i: usize = 0;
    while i < balances.len()
        invariant
            i <= balances@.len(),
            forall|j: int| 0 <= j < i ==> (#[trigger] balances_of(balances@)[j]).0 != denom@,
        decreases balances@.len() - i,
    {
        if balances[i].denom.same(denom) {
            proof {
                lemma_place_found(balances_of(balances@), denom@, i as int);
            }
            return i;
        }
        i += 1;
    }
    proof {
        lemma_place_found(balances_of(balances@), denom@, i as int);
    }
    i
}

/// Adds an amount to the locked balances of a depositor. Nothing changes
/// where the balance would exceed what an amount can hold.
pub fn add_amount_denom_to_locked_balance(
    locked_balances: &mut Vec<AmountDenom>,
    amount_denom: AmountDenom,
) -> (r: Result<(), SwapError>)
    ensures
        r is Ok ==> balances_of(final(locked_balances)@) == credited(
            balances_of(old(locked_balances)@),
            amount_denom.denom@,
            amount_denom.amount as nat,
        ),
        r is Err ==> r == Err::<(), SwapError>(SwapError::Overflow) && *final(locked_balances)
            == *old(locked_balances),
        r is Err <==> ({
            let i = place_of(balances_of(old(locked_balances)@), amount_denom.denom@);
            i < old(locked_balances)@.len() && old(locked_balances)@[i].amount
                + amount_denom.amount > u128::MAX
        }),
{
    let i = find_denom(locked_balances, &amount_denom.denom);
    let ghost before = balances_of(locked_balances@);
    if i < locked_balances.len() {
        let held: u128 = locked_balances[i].amount;
        if held > u128::MAX - amount_denom.amount {
            return Err(SwapError::Overflow);
        }
        proof {
            lemma_place_of(before, amount_denom.denom@);
        }
        let sum: u128 = held + amount_denom.amount;
        locked_balances[i] = AmountDenom { amount: sum, denom: amount_denom.denom };
        proof {
            assert(balances_of(locked_balances@) =~= before.update(
                i as int,
                (amount_denom.denom@, sum as nat),
            ));
        }
    } else {
        let ghost added = amount_denom@;
        locked_balances.push(amount_denom);
        proof {
            assert(balances_of(locked_balances@) =~= before.push(added));
        }
    }
    Ok(())
}

/// Takes an amount from the locked balances of a depositor. Nothing changes
/// where the balance is missing or too small.
pub fn remove_amount_denom_to_locked_balance(
    locked_balances: &mut Vec<AmountDenom>,
    amount_denom: AmountDenom,
) -> (r: Result<(), SwapError>)
    ensures
        match debited(
            balances_of(old(locked_balances)@),
            amount_denom.denom@,
            amount_denom.amount as nat,
        ) {
            Some(after) => r is Ok && balances_of(final(locked_balances)@) == after,
            None => r == Err::<(), SwapError>(SwapError::InsufficientLockedBalance)
                && *final(locked_balances) == *old(locked_balances),
        },
{
    let i = find_denom(locked_balances, &amount_denom.denom);
    let ghost before = balances_of(locked_balances@);
    if i >= locked_balances.len() {
        return Err(SwapError::InsufficientLockedBalance);
    }
    let held: u128 = locked_balances[i].amount;
    if held < amount_denom.amount {
        return Err(SwapError::InsufficientLockedBalance);
    }
    proof {
        lemma_place_of(before, amount_denom.denom@);
    }
    let rest: u128 = held - amount_denom.amount;
    locked_balances[i] = AmountDenom { amount: rest, denom: amount_denom.denom };
    proof {
        assert(balances_of(locked_balances@) =~= before.update(
            i as int,
            (amount_denom.denom@, rest as nat),
        ));
    }
    Ok(())
}

/// One step of a swap: the pool to go through and the denomination that
/// comes out of it.
#[derive(Clone, Debug, PartialEq)]
pub struct OsmosisRoute {
    pub pool_id: String,
    pub token_out_denom: String,
}

/// Whether the list holds the string.
pub open spec fn lists(allowed: Seq<String>, id: Seq<char>) -> bool {
    exists|k: int| 0 <= k < allowed.len() && (#[trigger] allowed[k])@ == id
}

/// Whether the route at `i` may be taken: its pool is allowed and, where it
/// is the last route, it ends in the denomination asked for.
pub open spec fn route_ok(
    allowed: Seq<String>,
    routes: Seq<OsmosisRoute>,
    output_denom: Seq<char>,
    i: int,
) -> bool {
    lists(allowed, routes[i].pool_id@) && (i == routes.len() - 1 ==> routes[i].token_out_denom@
        == output_denom)
}

/// Decides whether the list holds the string.
fn is_listed(allowed: &Vec<String>, id: &str) -> (r: bool)
    ensures
        r == lists(allowed@, id@),
{
    let mut k: usize = 0;
    while k < allowed.len()
        invariant
            k <= allowed@.len(),
            forall|j: int| 0 <= j < k ==> (#[trigger] allowed@[j])@ != id@,
        decreases allowed@.len() - k,
    {
        if str_equal(allowed[k].as_str(), id) {
            return true;
        }
        k += 1;
    }
    false
}

/// The place of the first route, from `from` on, that may not be taken, or
/// the number of routes where each may.
pub open spec fn first_bad_route(
    allowed: Seq<String>,
    routes: Seq<OsmosisRoute>,
    output_denom: Seq<char>,
    from: int,
) -> int
    decreases routes.len() - from,
{
    if from < 0 || from >= routes.len() {
        routes.len() as int
    } else if !route_ok(allowed, routes, output_denom, from) {
        from
    } else {
        first_bad_route(allowed, routes, output_denom, from + 1)
    }
}

/// What becomes of a check of routes: the error of the first route that may
/// not be taken, which is its pool where that is not allowed, else the
/// mismatch of its denomination. An error that names a pool is given here
/// by the place of the route.
pub open spec fn routes_verdict(
    allowed: Seq<String>,
    routes: Seq<OsmosisRoute>,
    output_denom: Seq<char>,
) -> RoutesVerdict {
    let i = first_bad_route(allowed, routes, output_denom, 0);
    if i >= routes.len() {
        RoutesVerdict::Allowed
    } else if !lists(allowed, routes[i].pool_id@) {
        RoutesVerdict::InvalidPool(routes[i].pool_id@)
    } else {
        RoutesVerdict::OutputDenomMismatch
    }
}

/// What a check of routes finds.
pub enum RoutesVerdict {
    Allowed,
    InvalidPool(Seq<char>),
    OutputDenomMismatch,
}

/// Whether a result says what the verdict says.
pub open spec fn tells(r: Result<(), SwapError>, verdict: RoutesVerdict) -> bool {
    match verdict {
        RoutesVerdict::Allowed => r is Ok,
        RoutesVerdict::InvalidPool(pool) => match r {
            Err(SwapError::InvalidPoolId { id }) => id@ == pool,
            _ => false,
        },
        RoutesVerdict::OutputDenomMismatch => r == Err::<(), SwapError>(
            SwapError::OutputDenomMismatch,
        ),
    }
}

/// Checks the routes of a swap, the first one first. Each must go through
/// an allowed pool, and the last must end in the denomination asked for.
pub fn check_routes(allowed_pool_ids: &Vec<String>, routes: &Vec<OsmosisRoute>, output_denom: &str)
    -> (r: Result<(), SwapError>)
    ensures
        tells(r, routes_verdict(allowed_pool_ids@, routes@, output_denom@)),
        r is Ok <==> forall|i: int|
            0 <= i < routes@.len() ==> route_ok(allowed_pool_ids@, routes@, output_denom@, i),
{
    let mut i: usize = 0;
    while i < routes.len()
        invariant
            i <= routes@.len(),
            first_bad_route(allowed_pool_ids@, routes@, output_denom@, 0) == first_bad_route(
                allowed_pool_ids@,
                routes@,
                output_denom@,
                i as int,
            ),
            forall|j: int| 0 <= j < i ==> route_ok(allowed_pool_ids@, routes@, output_denom@, j),
        decreases routes@.len() - i,
    {
        if !is_listed(allowed_pool_ids, routes[i].pool_id.as_str()) {
            assert(!route_ok(allowed_pool_ids@, routes@, output_denom@, i as int));
            return Err(SwapError::InvalidPoolId { id: routes[i].pool_id.clone() });
        }
        if i == routes.len() - 1 && !str_equal(routes[i].token_out_denom.as_str(), output_denom) {
            assert(!route_ok(allowed_pool_ids@, routes@, output_denom@, i as int));
            return Err(SwapError::OutputDenomMismatch);
        }
        i += 1;
    }
    Ok(())
}

/// The request that a swap sends to the exchange.
#[derive(Clone, Debug, PartialEq)]
pub struct SwapRequest {
    pub routes: Vec<OsmosisRoute>,
    pub sender: String,
    pub token_in_denom: String,
    pub token_in_amount: u128,
    pub token_out_min_amount: u128,
}

/// The name of a native coin; a token has none.
fn native_name(denom: Denom) -> (r: Result<String, SwapError>)
    ensures
        match denom {
            Denom::Native(name) => r == Ok::<String, SwapError>(name),
            Denom::Cw20(_) => r == Err::<String, SwapError>(SwapError::NotYetSupported),
        },
{
    match denom {
        Denom::Native(name) => Ok(name),
        Denom::Cw20(_) => Err(SwapError::NotYetSupported),
    }
}

/// The request for a swap of an amount of one native coin into another,
/// along routes that `check_routes` admits. A token on either side is not
/// supported, the side that goes in being looked at first.
pub fn get_osmosis_swap_msg(
    allowed_pool_ids: Vec<String>,
    contract_addr: String,
    routes: Vec<OsmosisRoute>,
    input_amount: u128,
    input_denom: Denom,
    min_output: u128,
    output_denom: Denom,
) -> (r: Result<SwapRequest, SwapError>)
    ensures
        !(input_denom is Native && output_denom is Native) ==> r == Err::<SwapRequest, SwapError>(
            SwapError::NotYetSupported,
        ),
        input_denom is Native && output_denom is Native ==> match routes_verdict(
            allowed_pool_ids@,
            routes@,
            output_denom->Native_0@,
        ) {
            RoutesVerdict::Allowed => r is Ok,
            RoutesVerdict::InvalidPool(pool) => match r {
                Err(SwapError::InvalidPoolId { id }) => id@ == pool,
                _ => false,
            },
            RoutesVerdict::OutputDenomMismatch => r == Err::<SwapRequest, SwapError>(
                SwapError::OutputDenomMismatch,
            ),
        },
        r is Ok ==> r.unwrap() == (SwapRequest {
            routes,
            sender: contract_addr,
            token_in_denom: input_denom->Native_0,
            token_in_amount: input_amount,
            token_out_min_amount: min_output,
        }),
{
    let token_in_denom = match native_name(input_denom) {
        Ok(name) => name,
        Err(e) => {
            return Err(e);
        },
    };
    let token_out_denom = match native_name(output_denom) {
        Ok(name) => name,
        Err(e) => {
            return Err(e);
        },
    };
    match check_routes(&allowed_pool_ids, &routes, token_out_denom.as_str()) {
        Ok(()) => {},
        Err(e) => {
            return Err(e);
        },
    }
    Ok(
        SwapRequest {
            routes,
            sender: contract_addr,
            token_in_denom,
            token_in_amount: input_amount,
            token_out_min_amount: min_output,
        },
    )
}

/// What a swap brought in: the balance after it less the balance before it;
/// nothing where the balance went down.
pub fn swap_output(balance_before: u128, balance_after: u128) -> (r: Option<u128>)
    ensures
        r is Some <==> balance_after >= balance_before,
        r is Some ==> r.unwrap() == balance_after - balance_before,
{
    if balance_after >= balance_before {
        Some(balance_after - balance_before)
    } else {
        None
    }
}

/// The signal that stands for an address in a proof: the address as it is.
pub fn poseidon_hash(input: &str) -> (r: String)
    ensures
        r@ == input@,
{
    input.to_owned()
}

/// Whether a proof holds of the signals: an error where a signal is no
/// numeral, where no check was made, or where the proof was rejected.
pub open spec fn proof_outcome(key_text: Seq<char>, proof: ProofModel, signals: Seq<Seq<char>>)
    -> Result<(), SwapError> {
    if !all_numerals(signals) {
        Err(SwapError::Numeral)
    } else {
        match verifier_outcome(key_text, proof, scalars_of(signals)) {
            Err(e) => Err(SwapError::Verifier(e)),
            Ok(accepted) => if accepted {
                Ok(())
            } else {
                Err(SwapError::InvalidProof)
            },
        }
    }
}

/// Checks a proof against the signals of its statement.
pub fn check_proof(verifier: Verifier, proof: Proof, signals: PublicSignals) -> (r: Result<
    (),
    SwapError,
>)
    ensures
        r == proof_outcome(verifier.key_text(), proof@, texts_of(signals.0@)),
{
    let inputs = match signals.get() {
        Ok(v) => v,
        Err(_) => {
            return Err(SwapError::Numeral);
        },
    };
    match verifier.verify_proof(proof, &inputs) {
        Err(e) => Err(SwapError::Verifier(e)),
        Ok(accepted) => if accepted {
            Ok(())
        } else {
            Err(SwapError::InvalidProof)
        },
    }
}

/// The signals of a deposit: the address that may withdraw, and the
/// credential.
pub fn deposit_signals(withdraw_addr: &str, credential: &str) -> (r: PublicSignals)
    ensures
        texts_of(r.0@) == seq![withdraw_addr@, credential@],
{
    let mut signals: Vec<String> = Vec::new();
    signals.push(poseidon_hash(withdraw_addr));
    signals.push(credential.to_owned());
    assert(texts_of(signals@) =~= seq![withdraw_addr@, credential@]);
    PublicSignals(signals)
}

/// The signals of a migration: the root, the nullifier, and the nullifier
/// that the depositor used last.
pub fn migration_signals(root: &str, nullifier: &str, previous_nullifier: &U256) -> (r:
    PublicSignals)
    ensures
        texts_of(r.0@) == seq![root@, nullifier@, decimal_digits(previous_nullifier@)],
{
    let mut signals: Vec<String> = Vec::new();
    signals.push(root.to_owned());
    signals.push(nullifier.to_owned());
    signals.push(previous_nullifier.to_decimal());
    assert(texts_of(signals@) =~= seq![root@, nullifier@, decimal_digits(previous_nullifier@)]);
    PublicSignals(signals)
}

/// The signals of a withdrawal: the address that withdraws, and the
/// nullifier that the depositor used last.
pub fn withdrawal_signals(withdraw_addr: &str, previous_nullifier: &U256) -> (r: PublicSignals)
    ensures
        texts_of(r.0@) == seq![withdraw_addr@, decimal_digits(previous_nullifier@)],
{
    let mut signals: Vec<String> = Vec::new();
    signals.push(poseidon_hash(withdraw_addr));
    signals.push(previous_nullifier.to_decimal());
    assert(texts_of(signals@) =~= seq![withdraw_addr@, decimal_digits(previous_nullifier@)]);
    PublicSignals(signals)
}

/// What becomes of a deposit: the index of its leaf, or why it was refused.
/// A deposit of a native coin must bring that coin alone, in the amount of a
/// deposit.
pub open spec fn deposit_outcome(
    tree: TreeModel,
    key_text: Seq<char>,
    deposit_denom: DenomModel,
    deposit_amount: nat,
    funds: Seq<Coin>,
    proof: ProofModel,
    credential: Seq<char>,
    withdraw_addr: Seq<char>,
) -> Result<nat, SwapError> {
    if deposit_denom is Native && !(funds.len() == 1 && funds[0].amount == deposit_amount
        && funds[0].denom@ == deposit_denom->Native_0) {
        Err(SwapError::InvalidDeposit)
    } else {
        match proof_outcome(key_text, proof, seq![withdraw_addr, credential]) {
            Err(e) => Err(e),
            Ok(_) => match numeral_value(credential) {
                None => Err(SwapError::Numeral),
                Some(leaf) => match tree.insert(leaf).1 {
                    None => Err(SwapError::InvalidCommitment),
                    Some(index) => Ok(index),
                },
            },
        }
    }
}

/// Takes a deposit: the funds must be right, the proof must hold of the
/// address that may withdraw and of the credential, and the credential
/// becomes the next leaf of the tree. A deposit that is refused leaves the
/// tree as it is.
pub fn accept_deposit(
    tree: &mut MerkleTreeWithHistory,
    verifier: Verifier,
    deposit_denom: &Denom,
    deposit_amount: u128,
    funds: &Vec<Coin>,
    proof: Proof,
    credential: &str,
    withdraw_addr: &str,
) -> (r: Result<u32, SwapError>)
    requires
        old(tree).wf(),
    ensures
        final(tree).wf(),
        match r {
            Ok(index) => deposit_outcome(
                old(tree)@,
                verifier.key_text(),
                deposit_denom@,
                deposit_amount as nat,
                funds@,
                proof@,
                credential@,
                withdraw_addr@,
            ) == Ok::<nat, SwapError>(index as nat) && final(tree)@ == old(tree)@.insert(
                numeral_value(credential@).unwrap(),
            ).0,
            Err(e) => deposit_outcome(
                old(tree)@,
                verifier.key_text(),
                deposit_denom@,
                deposit_amount as nat,
                funds@,
                proof@,
                credential@,
                withdraw_addr@,
            ) == Err::<nat, SwapError>(e) && *final(tree) == *old(tree),
        },
{
    match deposit_denom {
        Denom::Native(name) => {
            if !sent_single_coin(funds, deposit_amount, name.as_str()) {
                return Err(SwapError::InvalidDeposit);
            }
        },
        Denom::Cw20(_) => {},
    }
    match check_proof(verifier, proof, deposit_signals(withdraw_addr, credential)) {
        Ok(()) => {},
        Err(e) => {
            return Err(e);
        },
    }
    let leaf = match U256::from_decimal(credential) {
        Some(v) => v,
        None => {
            return Err(SwapError::Numeral);
        },
    };
    match tree.insert(&leaf) {
        Some(index) => Ok(index),
        None => Err(SwapError::InvalidCommitment),
    }
}

/// What becomes of a migration: the nullifier, which the depositor has then
/// used last, or why it was refused.
pub open spec fn migration_outcome(
    tree: TreeModel,
    key_text: Seq<char>,
    nullifier_seen: bool,
    proof: ProofModel,
    root: Seq<char>,
    nullifier: Seq<char>,
    previous_nullifier: nat,
) -> Result<nat, SwapError> {
    if nullifier_seen {
        Err(SwapError::DuplicateCommitment)
    } else if tree.cursor == 0 {
        Err(SwapError::NoDeposit)
    } else {
        match numeral_value(root) {
            None => Err(SwapError::Numeral),
            Some(root_number) => if !tree.knows_root(root_number) {
                Err(SwapError::UnknownRoot)
            } else {
                match proof_outcome(
                    key_text,
                    proof,
                    seq![root, nullifier, decimal_digits(previous_nullifier)],
                ) {
                    Err(e) => Err(e),
                    Ok(_) => match numeral_value(nullifier) {
                        None => Err(SwapError::Numeral),
                        Some(n) => Ok(n),
                    },
                }
            },
        }
    }
}

/// Decides a migration of a deposit into the depositor's locked balance.
/// `nullifier_seen` says whether the nullifier was used before.
pub fn authorize_migration(
    tree: &MerkleTreeWithHistory,
    verifier: Verifier,
    nullifier_seen: bool,
    proof: Proof,
    root: &str,
    nullifier: &str,
    previous_nullifier: &U256,
) -> (r: Result<U256, SwapError>)
    requires
        tree.wf(),
    ensures
        match r {
            Ok(n) => migration_outcome(
                tree@,
                verifier.key_text(),
                nullifier_seen,
                proof@,
                root@,
                nullifier@,
                previous_nullifier@,
            ) == Ok::<nat, SwapError>(n@),
            Err(e) => migration_outcome(
                tree@,
                verifier.key_text(),
                nullifier_seen,
                proof@,
                root@,
                nullifier@,
                previous_nullifier@,
            ) == Err::<nat, SwapError>(e),
        },
{
    if nullifier_seen {
        return Err(SwapError::DuplicateCommitment);
    }
    if tree.current_root_index == 0 {
        return Err(SwapError::NoDeposit);
    }
    let root_number = match U256::from_decimal(root) {
        Some(v) => v,
        None => {
            return Err(SwapError::Numeral);
        },
    };
    if !tree.is_known_root(&root_number) {
        return Err(SwapError::UnknownRoot);
    }
    match check_proof(verifier, proof, migration_signals(root, nullifier, previous_nullifier)) {
        Ok(()) => {},
        Err(e) => {
            return Err(e);
        },
    }
    match U256::from_decimal(nullifier) {
        Some(n) => Ok(n),
        None => Err(SwapError::Numeral),
    }
}

/// Decides a withdrawal of all that a depositor holds locked: the proof must
/// hold of the address that withdraws and of the nullifier that the
/// depositor used last.
pub fn authorize_withdrawal(
    verifier: Verifier,
    proof: Proof,
    withdraw_addr: &str,
    previous_nullifier: &U256,
) -> (r: Result<(), SwapError>)
    ensures
        r == proof_outcome(
            verifier.key_text(),
            proof@,
            seq![withdraw_addr@, decimal_digits(previous_nullifier@)],
        ),
{
    check_proof(verifier, proof, withdrawal_signals(withdraw_addr, previous_nullifier))
}

} // verus!
