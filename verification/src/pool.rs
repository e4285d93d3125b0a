//! The pool ledger: custody balance, the mirror of the accumulator root,
//! and the two value-moving operations. Deposits append a commitment to the
//! accumulator and add to custody; withdrawals subtract from custody and
//! are open only to the registered settlement path.

use vstd::prelude::*;
use vstd::arithmetic::power2::{lemma2_to64, pow2};
use crate::errors::ErrorCode;
use crate::hash::bytes32_eq;
use crate::merkle::{merkle_root_of, MerkleTree};

verus! {

/// The accumulator height a pool is created with.
pub const POOL_TREE_HEIGHT: u8 = 20;

/// The pool ledger. `merkle_root`, `tree_height`, and `next_index` mirror
/// the accumulator; `spend_verifier` is the one caller identity allowed to
/// trigger a value transfer out of custody.
pub struct ShieldedPool {
    pub authority: [u8; 32],
    pub merkle_root: [u8; 32],
    pub tree_height: u8,
    pub next_index: u64,
    pub total_deposits: u64,
    pub spend_verifier: [u8; 32],
}

/// The ledger's mirror invariant: it reports the accumulator's own height,
/// next free slot, and current root.
pub open spec fn pool_matches_tree(pool: ShieldedPool, tree: MerkleTree) -> bool {
    &&& tree.wf()
    &&& pool.tree_height == tree.height
    &&& pool.next_index == tree.next_index
    &&& pool.merkle_root@ == tree.root@
}

/// What a deposit reports: the commitment, its assigned leaf slot, the
/// amount, and the root after insertion.
#[derive(Clone, Copy, Debug)]
pub struct DepositEvent {
    pub commitment: [u8; 32],
    pub leaf_index: u64,
    pub amount: u64,
    pub root: [u8; 32],
}

/// What a withdrawal reports: the recipient, the amount, and the custody
/// balance that remains.
#[derive(Clone, Copy, Debug)]
pub struct WithdrawalEvent {
    pub recipient: [u8; 32],
    pub amount: u64,
    pub remaining_balance: u64,
}

/// Creates the pool ledger with an empty accumulator of the default height,
/// the root mirrored from the start.
pub fn initialize(authority: [u8; 32], spend_verifier: [u8; 32]) -> (result: Result<
    (ShieldedPool, MerkleTree),
    ErrorCode,
>)
    ensures
        result is Ok,
        (result matches Ok(pair) ==> {
            &&& pool_matches_tree(pair.0, pair.1)
            &&& pair.0.authority == authority
            &&& pair.0.spend_verifier == spend_verifier
            &&& pair.0.tree_height == POOL_TREE_HEIGHT
            &&& pair.0.next_index == 0
            &&& pair.0.total_deposits == 0
            &&& pair.1.leaves@ == Seq::<Seq<u8>>::empty()
        }),
{
    let tree = MerkleTree::initialize(POOL_TREE_HEIGHT)?;
    let root = tree.get_root();
    let pool = ShieldedPool {
        authority,
        merkle_root: root,
        tree_height: POOL_TREE_HEIGHT,
        next_index: 0,
        total_deposits: 0,
        spend_verifier,
    };
    Ok((pool, tree))
}

/// Commits value into the pool: validates the amount, appends the
/// commitment to the accumulator, and updates the mirrored root, the next
/// free slot, and the custody total. A zero amount and a full tree are
/// rejected with nothing changed.
pub fn deposit(
    pool: &mut ShieldedPool,
    merkle_tree: &mut MerkleTree,
    commitment: [u8; 32],
    amount: u64,
) -> (result: Result<DepositEvent, ErrorCode>)
    requires
        pool_matches_tree(*old(pool), *old(merkle_tree)),
        old(pool).total_deposits + amount <= u64::MAX,
    ensures
        pool_matches_tree(*final(pool), *final(merkle_tree)),
        final(pool).authority == old(pool).authority,
        final(pool).spend_verifier == old(pool).spend_verifier,
        final(pool).tree_height == old(pool).tree_height,
        final(merkle_tree).height == old(merkle_tree).height,
        final(merkle_tree).zeros@ == old(merkle_tree).zeros@,
        (result is Ok) <==> (amount > 0 && old(pool).next_index < pow2(
            old(pool).tree_height as nat,
        )),
        match result {
            Ok(event) => {
                &&& final(merkle_tree).leaves@ == old(merkle_tree).leaves@.push(commitment@)
                &&& final(pool).next_index == old(pool).next_index + 1
                &&& final(pool).total_deposits == old(pool).total_deposits + amount
                &&& final(pool).merkle_root@ == merkle_root_of(
                    old(merkle_tree).leaves@.push(commitment@),
                    old(merkle_tree).height as nat,
                )
                &&& event.commitment == commitment
                &&& event.leaf_index == old(pool).next_index
                &&& event.amount == amount
                &&& event.root == final(pool).merkle_root
            },
            Err(e) => {
                &&& *final(pool) == *old(pool)
                &&& *final(merkle_tree) == *old(merkle_tree)
                &&& (e == ErrorCode::InvalidAmount <==> amount == 0)
                &&& (e == ErrorCode::IndexOutOfBounds <==> amount > 0 && old(pool).next_index
                    >= pow2(old(pool).tree_height as nat))
                &&& (e == ErrorCode::InvalidAmount || e == ErrorCode::IndexOutOfBounds)
            },
        },
{
    if amount == 0 {
        return Err(ErrorCode::InvalidAmount);
    }
    let leaf_index = pool.next_index;
    merkle_tree.insert_leaf(leaf_index, commitment)?;
    pool.merkle_root = merkle_tree.compute_root();
    proof {
        lemma2_to64();
        if (old(pool).tree_height as nat) < 20 {
            vstd::arithmetic::power2::lemma_pow2_strictly_increases(
                old(pool).tree_height as nat,
                20,
            );
        }
    }
    pool.next_index = pool.next_index + 1;
    pool.total_deposits = pool.total_deposits + amount;
    Ok(DepositEvent { commitment, leaf_index, amount, root: pool.merkle_root })
}

/// Releases value from pool custody to a recipient. Open only to the
/// registered settlement path; a zero amount, a custody balance below the
/// amount, and any other caller are rejected with nothing changed.
pub fn withdraw(
    pool: &mut ShieldedPool,
    amount: u64,
    recipient: [u8; 32],
    caller: &[u8; 32],
) -> (result: Result<WithdrawalEvent, ErrorCode>)
    ensures
        (result is Ok) <==> (amount > 0 && old(pool).total_deposits >= amount && caller@ == old(
            pool,
        ).spend_verifier@),
        match result {
            Ok(event) => {
                &&& *final(pool) == (ShieldedPool {
                    total_deposits: (old(pool).total_deposits - amount) as u64,
                    ..*old(pool)
                })
                &&& event.recipient == recipient
                &&& event.amount == amount
                &&& event.remaining_balance == final(pool).total_deposits
            },
            Err(e) => {
                &&& *final(pool) == *old(pool)
                &&& (e == ErrorCode::InvalidAmount <==> amount == 0)
                &&& (e == ErrorCode::InsufficientFunds <==> amount > 0 && old(
                    pool,
                ).total_deposits < amount)
                &&& (e == ErrorCode::UnauthorizedWithdrawal <==> amount > 0 && old(
                    pool,
                ).total_deposits >= amount && caller@ != old(pool).spend_verifier@)
                &&& (e == ErrorCode::InvalidAmount || e == ErrorCode::InsufficientFunds || e
                    == ErrorCode::UnauthorizedWithdrawal)
            },
        },
{
    if amount == 0 {
        return Err(ErrorCode::InvalidAmount);
    }
    if pool.total_deposits < amount {
        return Err(ErrorCode::InsufficientFunds);
    }
    if !bytes32_eq(caller, &pool.spend_verifier) {
        return Err(ErrorCode::UnauthorizedWithdrawal);
    }
    pool.total_deposits = pool.total_deposits - amount;
    Ok(WithdrawalEvent { recipient, amount, remaining_balance: pool.total_deposits })
}

} // verus!
