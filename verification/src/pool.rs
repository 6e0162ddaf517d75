//! The rules of the pool of fixed deposits: what a deposit must bring, when
//! a withdrawal is paid, and what it pays.

use crate::address::AddressError;
use crate::codec::{decode_proof, str_equal, DecodeError};
use crate::decimal::{decimal_value, is_canonical_decimal};
use crate::merkle_tree::{MerkleTreeWithHistory, TreeModel};
use crate::msg::{
    all_numerals, scalars_of, withdrawal_signals, CircomProof, ProofText, PublicSignals,
};
use crate::proof_verifier::{verifier_outcome, Verifier, VerifierError};
use crate::uint256::{u256_limit, U256};
use vstd::prelude::*;

verus! {

/// What a deposit brings, in the smallest unit of the coin.
pub const DEPOSIT_AMOUNT: u128 = 10_000_000_000;

/// What a withdrawal pays out, the relayer's fee included.
pub const PAYOUT: u128 = 9_900_000_000;

/// What the pool must hold more than for a withdrawal to be paid.
pub const RESERVE: u128 = 9_960_000_000;

/// What the pool keeps for its administrator of each withdrawal.
pub const ADMIN_SHARE: u128 = 100_000_000;

/// An amount of a native coin.
#[derive(Clone, Debug, PartialEq)]
pub struct Coin {
    pub denom: String,
    pub amount: u128,
}

/// The message that sets up a pool.
#[derive(Clone, Debug, PartialEq)]
pub struct InstantiateMsg {}

/// The message of a deposit.
#[derive(Clone, Debug, PartialEq)]
pub struct DepositMsg {
    pub commitment: String,
}

/// The message of a withdrawal.
#[derive(Clone, Debug, PartialEq)]
pub struct WithdrawMsg {
    pub proof: CircomProof,
    pub root: String,
    pub nullifier_hash: String,
    pub recipient: String,
    pub relayer: String,
    pub fee: u128,
}

/// The message by which the administrator takes the pool's share.
#[derive(Clone, Debug, PartialEq)]
pub struct AdminMsg {}

/// The messages that change the pool.
#[derive(Clone, Debug, PartialEq)]
pub enum ExecuteMsg {
    Deposit(DepositMsg),
    Withdraw(WithdrawMsg),
    AdminWithdraw(AdminMsg),
}

/// The question whether a root is known.
#[derive(Clone, Debug, PartialEq)]
pub struct IsKnownRootMsg {
    pub root: String,
}

/// The questions that the pool answers.
#[derive(Clone, Debug, PartialEq)]
pub enum QueryMsg {
    IsKnownRoot(IsKnownRootMsg),
}

/// Why the pool refused.
#[derive(Clone, Copy, Debug, PartialEq, Eq)]
pub enum PoolError {
    /// The deposit does not bring the coin that it must.
    InvalidAmount,
    /// A number is not a canonical base-10 numeral below `2^256`.
    Numeral,
    /// The tree is full.
    InsertFailed,
    /// The pool holds too little.
    ContractBalanceEmpty { amount: u128 },
    /// The ring of roots stands at its first slot: the tree has taken no
    /// deposit, or the ring has just come round.
    NoDeposit,
    /// The nullifier was used before.
    DuplicatedCommitment,
    /// The root is not one of the roots that the tree remembers.
    UnknownRoot,
    /// The proof does not hold of the public signals.
    InvalidProof,
    /// The fee is more than the pool pays out.
    FeesTooHigh,
    /// An address gives no field element.
    Address(AddressError),
    /// The proof cannot be read.
    Proof(DecodeError),
    /// The proof was not checked.
    Verifier(VerifierError),
}

/// What a withdrawal pays, and to whom.
#[derive(Clone, Copy, Debug, PartialEq, Eq)]
pub struct Payout {
    pub to_recipient: u128,
    pub to_relayer: u128,
}

/// Whether the funds hold a coin of the given amount and denomination.
pub open spec fn brings(funds: Seq<Coin>, amount: nat, denom: Seq<char>) -> bool {
    exists|i: int|
        0 <= i < funds.len() && (#[trigger] funds[i]).denom@ == denom && funds[i].amount == amount
}

/// Whether nothing is asked for, or one of the coins sent has the amount and
/// the denomination asked for.
pub fn sent_exact_coin(sent: &Vec<Coin>, amount: u128, denom: &str) -> (r: bool)
    ensures
        r == (amount == 0 || brings(sent@, amount as nat, denom@)),
{
    if amount == 0 {
        return true;
    }
    let mut i: usize = 0;
    while i < sent.len()
        invariant
            i <= sent@.len(),
            forall|j: int|
                0 <= j < i ==> !((#[trigger] sent@[j]).denom@ == denom@ && sent@[j].amount
                    == amount),
        decreases sent@.len() - i,
    {
        if str_equal(sent[i].denom.as_str(), denom) && sent[i].amount == amount {
            return true;
        }
        i += 1;
    }
    false
}

/// Whether the funds are one coin, of the given amount and denomination.
pub fn sent_single_coin(sent: &Vec<Coin>, amount: u128, denom: &str) -> (r: bool)
    ensures
        r == (sent@.len() == 1 && sent@[0].amount == amount && sent@[0].denom@ == denom@),
{
    sent.len() == 1 && sent[0].amount == amount && str_equal(sent[0].denom.as_str(), denom)
}

/// The number that a numeral denotes, where it is canonical and below
/// `2^256`.
pub open spec fn numeral_value(s: Seq<char>) -> Option<nat> {
    if is_canonical_decimal(s) && decimal_value(s) < u256_limit() {
        Some(decimal_value(s))
    } else {
        None
    }
}

/// What becomes of a deposit: the index of its leaf, or why it was refused.
pub open spec fn deposit_outcome(tree: TreeModel, funds: Seq<Coin>, commitment: Seq<char>) -> Result<
    nat,
    PoolError,
> {
    if !brings(funds, DEPOSIT_AMOUNT as nat, "ujuno"@) {
        Err(PoolError::InvalidAmount)
    } else {
        match numeral_value(commitment) {
            None => Err(PoolError::Numeral),
            Some(leaf) => match tree.insert(leaf).1 {
                None => Err(PoolError::InsertFailed),
                Some(index) => Ok(index),
            },
        }
    }
}

/// Takes a deposit: the funds must bring the fixed amount, and the
/// commitment becomes the next leaf of the tree. A deposit that is refused
/// leaves the tree as it is.
pub fn accept_deposit(tree: &mut MerkleTreeWithHistory, funds: &Vec<Coin>, msg: &DepositMsg) -> (r:
    Result<u32, PoolError>)
    requires
        old(tree).wf(),
    ensures
        final(tree).wf(),
        match r {
            Ok(index) => deposit_outcome(old(tree)@, funds@, msg.commitment@) == Ok::<
                nat,
                PoolError,
            >(index as nat) && final(tree)@ == old(tree)@.insert(
                numeral_value(msg.commitment@).unwrap(),
            ).0,
            Err(e) => deposit_outcome(old(tree)@, funds@, msg.commitment@) == Err::<
                nat,
                PoolError,
            >(e) && *final(tree) == *old(tree),
        },
{
    if !sent_exact_coin(funds, DEPOSIT_AMOUNT, "ujuno") {
        return Err(PoolError::InvalidAmount);
    }
    let leaf = match U256::from_decimal(msg.commitment.as_str()) {
        Some(v) => v,
        None => {
            return Err(PoolError::Numeral);
        },
    };
    match tree.insert(&leaf) {
        Some(index) => Ok(index),
        None => Err(PoolError::InsertFailed),
    }
}

/// What a withdrawal pays with the given fee for the relayer: the fee to the
/// relayer and the rest of the fixed amount to the recipient. A fee above
/// that amount is refused.
pub open spec fn payout_of(fee: nat) -> Result<Payout, PoolError> {
    if fee > PAYOUT {
        Err(PoolError::FeesTooHigh)
    } else {
        Ok(Payout { to_recipient: (PAYOUT - fee) as u128, to_relayer: fee as u128 })
    }
}

/// What a withdrawal pays with the given fee for the relayer. The two
/// parts of a payout make up the fixed amount.
pub fn payout(fee: u128) -> (r: Result<Payout, PoolError>)
    ensures
        r == payout_of(fee as nat),
        r is Ok ==> r.unwrap().to_recipient + r.unwrap().to_relayer == PAYOUT,
{
    if fee > PAYOUT {
        return Err(PoolError::FeesTooHigh);
    }
    Ok(Payout { to_recipient: PAYOUT - fee, to_relayer: fee })
}

/// What becomes of a withdrawal: what it pays, or why it was refused. The
/// reasons are looked for in this order: the pool's balance, the two
/// addresses, the ring of roots, the nullifier, the root, the proof's form,
/// the signals' form, the proof itself, the fee.
pub open spec fn withdrawal_outcome(
    tree: TreeModel,
    key_text: Seq<char>,
    balance: nat,
    nullifier_seen: bool,
    proof: ProofText,
    root: Seq<char>,
    nullifier_hash: Seq<char>,
    recipient: Seq<char>,
    relayer: Seq<char>,
    fee: nat,
) -> Result<Payout, PoolError> {
    if balance <= RESERVE {
        Err(PoolError::ContractBalanceEmpty { amount: balance as u128 })
    } else {
        match withdrawal_signals(root, nullifier_hash, recipient, relayer, fee) {
            Err(e) => Err(PoolError::Address(e)),
            Ok(signals) => if tree.cursor == 0 {
                Err(PoolError::NoDeposit)
            } else if nullifier_seen {
                Err(PoolError::DuplicatedCommitment)
            } else {
                match numeral_value(root) {
                    None => Err(PoolError::Numeral),
                    Some(root_number) => if !tree.knows_root(root_number) {
                        Err(PoolError::UnknownRoot)
                    } else {
                        match decode_proof(proof.pi_a, proof.pi_b, proof.pi_c) {
                            Err(e) => Err(PoolError::Proof(e)),
                            Ok(points) => if !all_numerals(signals) {
                                Err(PoolError::Numeral)
                            } else {
                                match verifier_outcome(key_text, points, scalars_of(signals)) {
                                    Err(e) => Err(PoolError::Verifier(e)),
                                    Ok(accepted) => if !accepted {
                                        Err(PoolError::InvalidProof)
                                    } else {
                                        payout_of(fee)
                                    },
                                }
                            },
                        }
                    },
                }
            },
        }
    }
}

/// Decides a withdrawal. `balance` is what the pool holds, and
/// `nullifier_seen` says whether the nullifier hash of the message was used
/// before.
pub fn authorize_withdrawal(
    tree: &MerkleTreeWithHistory,
    verifier: Verifier,
    balance: u128,
    nullifier_seen: bool,
    msg: WithdrawMsg,
) -> (r: Result<Payout, PoolError>)
    requires
        tree.wf(),
    ensures
        r == withdrawal_outcome(
            tree@,
            verifier.key_text(),
            balance as nat,
            nullifier_seen,
            msg.proof@,
            msg.root@,
            msg.nullifier_hash@,
            msg.recipient@,
            msg.relayer@,
            msg.fee as nat,
        ),
{
    if balance <= RESERVE {
        return Err(PoolError::ContractBalanceEmpty { amount: balance });
    }
    let root_text = msg.root.clone();
    let public_signals = match PublicSignals::from_values(
        msg.root,
        msg.nullifier_hash,
        msg.recipient,
        msg.relayer,
        msg.fee,
    ) {
        Ok(s) => s,
        Err(e) => {
            return Err(PoolError::Address(e));
        },
    };
    if tree.current_root_index == 0 {
        return Err(PoolError::NoDeposit);
    }
    if nullifier_seen {
        return Err(PoolError::DuplicatedCommitment);
    }
    let root = match U256::from_decimal(root_text.as_str()) {
        Some(v) => v,
        None => {
            return Err(PoolError::Numeral);
        },
    };
    if !tree.is_known_root(&root) {
        return Err(PoolError::UnknownRoot);
    }
    let proof = match msg.proof.to_proof() {
        Ok(p) => p,
        Err(e) => {
            return Err(PoolError::Proof(e));
        },
    };
    let inputs = match public_signals.get() {
        Ok(v) => v,
        Err(_) => {
            return Err(PoolError::Numeral);
        },
    };
    match verifier.verify_proof(proof, &inputs) {
        Err(e) => {
            return Err(PoolError::Verifier(e));
        },
        Ok(accepted) => {
            if !accepted {
                return Err(PoolError::InvalidProof);
            }
        },
    }
    payout(msg.fee)
}

/// What the administrator may take after the given number of withdrawals:
/// the pool's share of each, where the pool holds as much.
pub fn admin_withdrawal(counter: u64, balance: u128) -> (r: Result<u128, PoolError>)
    ensures
        r is Ok <==> counter * ADMIN_SHARE <= balance,
        r is Ok ==> r.unwrap() == counter * ADMIN_SHARE,
        r is Err ==> r == Err::<u128, PoolError>(
            PoolError::ContractBalanceEmpty { amount: balance },
        ),
{
    assert(counter * ADMIN_SHARE <= 0xffff_ffff_ffff_ffff * 100_000_000) by (nonlinear_arith)
        requires
            counter <= 0xffff_ffff_ffff_ffff,
            ADMIN_SHARE == 100_000_000,
    ;
    let withdrawal_amount: u128 = (counter as u128) * ADMIN_SHARE;
    if withdrawal_amount > balance {
        return Err(PoolError::ContractBalanceEmpty { amount: balance });
    }
    Ok(withdrawal_amount)
}

/// Whether a root, given as a numeral, is one of the roots that the tree
/// remembers.
pub fn query_is_known_root(tree: &MerkleTreeWithHistory, msg: &IsKnownRootMsg) -> (r: Result<
    bool,
    PoolError,
>)
    requires
        tree.wf(),
    ensures
        match numeral_value(msg.root@) {
            None => r == Err::<bool, PoolError>(PoolError::Numeral),
            Some(root) => r == Ok::<bool, PoolError>(tree@.knows_root(root)),
        },
{
    match U256::from_decimal(msg.root.as_str()) {
        Some(root) => Ok(tree.is_known_root(&root)),
        None => Err(PoolError::Numeral),
    }
}

} // verus!
