//! The spend settlement controller: one all-or-nothing transition that
//! checks a proof, binds it to the pool's current root, registers the
//! nullifier, and releases value — in that order, every check before any
//! mutation, so a rejected settlement leaves every record untouched.

use vstd::prelude::*;
use vstd::bytes::{spec_u64_from_le_bytes, u64_from_le_bytes};
use vstd::slice::slice_subrange;
use crate::errors::ErrorCode;
use crate::groth16::{groth16_verdict, groth16_verify, structure_ok, Groth16Proof, VerificationKey};
use crate::hash::bytes32_eq;
use crate::nullifier::NullifierSet;
use crate::pool::{withdraw, ShieldedPool};

verus! {

/// The settlement verifier's own record: its authority, the installed
/// verification key, running totals, and the administrative pause flag.
pub struct SpendVerifier {
    pub authority: [u8; 32],
    pub verification_key: VerificationKey,
    pub nullifier_count: u64,
    pub total_verified_amount: u64,
    pub is_paused: bool,
}

/// What a settlement reports: the registered nullifier, the recipient and
/// amount released, the external binder forwarded for auditing, and the
/// root the proof was bound to.
#[derive(Clone, Copy, Debug)]
pub struct SpendVerificationEvent {
    pub nullifier_hash: [u8; 32],
    pub recipient: [u8; 32],
    pub amount: u64,
    pub external_nullifier: [u8; 32],
    pub merkle_root: [u8; 32],
}

/// A well-formed amount signal: an 8-byte little-endian integer embedded in
/// a 32-byte field, the upper 24 bytes zero.
pub open spec fn amount_signal_ok(sig: Seq<u8>) -> bool {
    forall|i: int| 8 <= i < 32 ==> sig[i] == 0
}

/// The amount carried by the amount signal.
pub open spec fn amount_of(sig: Seq<u8>) -> u64 {
    spec_u64_from_le_bytes(sig.subrange(0, 8))
}

/// The settlement decision: the first failing check names the error, and a
/// settlement is owed exactly when every check passes. Checks run in the
/// order: pause, signal count, amount encoding, key structure, proof
/// structure, pairing verdict, root binding, replay, registry room, amount,
/// custody balance, caller identity.
pub open spec fn settle_check(
    verifier: SpendVerifier,
    registered: Seq<Seq<u8>>,
    registry_capacity: nat,
    pool: ShieldedPool,
    proof: Groth16Proof,
    signals: Seq<[u8; 32]>,
    caller: Seq<u8>,
) -> Result<(), ErrorCode> {
    if verifier.is_paused {
        Err(ErrorCode::VerifierPaused)
    } else if signals.len() != 5 {
        Err(ErrorCode::InvalidPublicInputCount)
    } else if !amount_signal_ok(signals[3]@) {
        Err(ErrorCode::InvalidPublicSignal)
    } else if verifier.verification_key.ic@.len() != 6 {
        Err(ErrorCode::InvalidVerificationKey)
    } else if !structure_ok(verifier.verification_key, proof) {
        Err(ErrorCode::InvalidProof)
    } else if !groth16_verdict(verifier.verification_key, proof, signals) {
        Err(ErrorCode::InvalidProof)
    } else if signals[0]@ != pool.merkle_root@ {
        Err(ErrorCode::InvalidMerkleRoot)
    } else if registered.contains(signals[1]@) {
        Err(ErrorCode::DoubleSpend)
    } else if registered.len() >= registry_capacity {
        Err(ErrorCode::RegistryFull)
    } else if amount_of(signals[3]@) == 0 {
        Err(ErrorCode::InvalidAmount)
    } else if pool.total_deposits < amount_of(signals[3]@) {
        Err(ErrorCode::InsufficientFunds)
    } else if caller != pool.spend_verifier@ {
        Err(ErrorCode::UnauthorizedWithdrawal)
    } else {
        Ok(())
    }
}

/// Law: a settlement is owed whenever its proof verifies against the
/// installed key, the five signals are well formed, the root signal is the
/// pool's current root, the nullifier is fresh and the registry has room,
/// and the positive amount is covered by custody under the registered
/// caller — so a deposit followed by a withdrawal whose proof references
/// the resulting root succeeds.
pub proof fn lemma_round_trip_settles(
    verifier: SpendVerifier,
    registered: Seq<Seq<u8>>,
    registry_capacity: nat,
    pool: ShieldedPool,
    proof: Groth16Proof,
    signals: Seq<[u8; 32]>,
    caller: Seq<u8>,
)
    requires
        !verifier.is_paused,
        signals.len() == 5,
        amount_signal_ok(signals[3]@),
        verifier.verification_key.ic@.len() == 6,
        structure_ok(verifier.verification_key, proof),
        groth16_verdict(verifier.verification_key, proof, signals),
        signals[0]@ == pool.merkle_root@,
        !registered.contains(signals[1]@),
        registered.len() < registry_capacity,
        amount_of(signals[3]@) > 0,
        amount_of(signals[3]@) <= pool.total_deposits,
        caller == pool.spend_verifier@,
    ensures
        settle_check(
            verifier,
            registered,
            registry_capacity,
            pool,
            proof,
            signals,
            caller,
        ) is Ok,
{
}

/// Law: a proof resubmitted after its settlement succeeded is rejected as a
/// double spend, whatever else changed: once the nullifier is registered,
/// any later settlement naming it fails at the replay check, provided the
/// verifier is still unpaused with the same key and the earlier checks
/// still pass on the later state.
pub proof fn lemma_resubmission_double_spend(
    verifier: SpendVerifier,
    registered: Seq<Seq<u8>>,
    registry_capacity: nat,
    pool: ShieldedPool,
    later_verifier: SpendVerifier,
    later_pool: ShieldedPool,
    proof: Groth16Proof,
    signals: Seq<[u8; 32]>,
    caller: Seq<u8>,
)
    requires
        settle_check(
            verifier,
            registered,
            registry_capacity,
            pool,
            proof,
            signals,
            caller,
        ) is Ok,
        later_verifier.is_paused == verifier.is_paused,
        later_verifier.verification_key == verifier.verification_key,
        later_pool.merkle_root@ == pool.merkle_root@,
    ensures
        settle_check(
            later_verifier,
            registered.push(signals[1]@),
            registry_capacity,
            later_pool,
            proof,
            signals,
            caller,
        ) == Result::<(), ErrorCode>::Err(ErrorCode::DoubleSpend),
{
    assert(registered.push(signals[1]@)[registered.len() as int] == signals[1]@);
    assert(registered.push(signals[1]@).contains(signals[1]@));
}

/// Creates the settlement verifier with the given authority and
/// verification key, unpaused and with zeroed totals.
pub fn initialize(authority: [u8; 32], verification_key: VerificationKey) -> (verifier:
    SpendVerifier)
    ensures
        verifier.authority == authority,
        verifier.verification_key == verification_key,
        verifier.nullifier_count == 0,
        verifier.total_verified_amount == 0,
        !verifier.is_paused,
{
    SpendVerifier {
        authority,
        verification_key,
        nullifier_count: 0,
        total_verified_amount: 0,
        is_paused: false,
    }
}

/// Pauses new settlements. Authority-gated; state is untouched on a
/// rejection, and nothing but the pause flag changes on success.
pub fn pause_verifier(verifier: &mut SpendVerifier, caller: &[u8; 32]) -> (result: Result<
    (),
    ErrorCode,
>)
    ensures
        (result is Ok) <==> caller@ == old(verifier).authority@,
        match result {
            Ok(()) => *final(verifier) == (SpendVerifier { is_paused: true, ..*old(verifier) }),
            Err(e) => e == ErrorCode::Unauthorized && *final(verifier) == *old(verifier),
        },
{
    if !bytes32_eq(caller, &verifier.authority) {
        return Err(ErrorCode::Unauthorized);
    }
    verifier.is_paused = true;
    Ok(())
}

/// Resumes settlements. Authority-gated; state is untouched on a rejection,
/// and nothing but the pause flag changes on success.
pub fn unpause_verifier(verifier: &mut SpendVerifier, caller: &[u8; 32]) -> (result: Result<
    (),
    ErrorCode,
>)
    ensures
        (result is Ok) <==> caller@ == old(verifier).authority@,
        match result {
            Ok(()) => *final(verifier) == (SpendVerifier { is_paused: false, ..*old(verifier) }),
            Err(e) => e == ErrorCode::Unauthorized && *final(verifier) == *old(verifier),
        },
{
    if !bytes32_eq(caller, &verifier.authority) {
        return Err(ErrorCode::Unauthorized);
    }
    verifier.is_paused = false;
    Ok(())
}

/// Settles one spend: validates the proof against the installed key and the
/// five public signals, binds it to the pool's current root, registers the
/// nullifier, releases the amount to the recipient, and updates the running
/// totals — or fails with the first failing check's error and changes
/// nothing.
pub fn verify_spend_proof(
    verifier: &mut SpendVerifier,
    nullifier_set: &mut NullifierSet,
    pool: &mut ShieldedPool,
    proof: &Groth16Proof,
    public_signals: &Vec<[u8; 32]>,
    caller: &[u8; 32],
) -> (result: Result<SpendVerificationEvent, ErrorCode>)
    requires
        old(nullifier_set).wf(),
        public_signals@.len() == 5 ==> old(verifier).total_verified_amount + amount_of(
            public_signals@[3]@,
        ) <= u64::MAX,
    ensures
        final(nullifier_set).wf(),
        final(nullifier_set).capacity == old(nullifier_set).capacity,
        final(verifier).authority == old(verifier).authority,
        final(verifier).verification_key == old(verifier).verification_key,
        final(verifier).is_paused == old(verifier).is_paused,
        final(pool).authority == old(pool).authority,
        final(pool).merkle_root == old(pool).merkle_root,
        final(pool).tree_height == old(pool).tree_height,
        final(pool).next_index == old(pool).next_index,
        final(pool).spend_verifier == old(pool).spend_verifier,
        (result is Ok) <==> (settle_check(
            *old(verifier),
            old(nullifier_set)@,
            old(nullifier_set).capacity as nat,
            *old(pool),
            *proof,
            public_signals@,
            caller@,
        ) is Ok),
        match result {
            Ok(event) => {
                &&& final(nullifier_set)@ == old(nullifier_set)@.push(public_signals@[1]@)
                &&& final(pool).total_deposits == old(pool).total_deposits - amount_of(
                    public_signals@[3]@,
                )
                &&& final(verifier).nullifier_count == final(nullifier_set)@.len()
                &&& final(verifier).nullifier_count == old(nullifier_set)@.len() + 1
                &&& final(verifier).total_verified_amount == old(verifier).total_verified_amount
                    + amount_of(public_signals@[3]@)
                &&& event.nullifier_hash == public_signals@[1]
                &&& event.recipient == public_signals@[2]
                &&& event.amount == amount_of(public_signals@[3]@)
                &&& event.external_nullifier == public_signals@[4]
                &&& event.merkle_root == public_signals@[0]
            },
            Err(e) => {
                &&& settle_check(
                    *old(verifier),
                    old(nullifier_set)@,
                    old(nullifier_set).capacity as nat,
                    *old(pool),
                    *proof,
                    public_signals@,
                    caller@,
                ) == Result::<(), ErrorCode>::Err(e)
                &&& *final(verifier) == *old(verifier)
                &&& *final(nullifier_set) == *old(nullifier_set)
                &&& *final(pool) == *old(pool)
            },
        },
{
    if verifier.is_paused {
        return Err(ErrorCode::VerifierPaused);
    }
    if public_signals.len() != 5 {
        return Err(ErrorCode::InvalidPublicInputCount);
    }
    let amount_sig = public_signals[3];
    let mut i: usize = 8;
    while i < 32
        invariant
            8 <= i <= 32,
            public_signals@.len() == 5,
            amount_sig == public_signals@[3],
            !old(verifier).is_paused,
            *verifier == *old(verifier),
            *nullifier_set == *old(nullifier_set),
            *pool == *old(pool),
            old(nullifier_set).wf(),
            forall|j: int| 8 <= j < i ==> amount_sig@[j] == 0,
        decreases 32 - i,
    {
        if amount_sig[i] != 0 {
            assert(!amount_signal_ok(public_signals@[3]@));
            return Err(ErrorCode::InvalidPublicSignal);
        }
        i = i + 1;
    }
    assert(amount_signal_ok(public_signals@[3]@));
    let valid = match groth16_verify(&verifier.verification_key, proof, public_signals) {
        Ok(v) => v,
        Err(e) => {
            return Err(e);
        },
    };
    if !valid {
        return Err(ErrorCode::InvalidProof);
    }
    let merkle_root = public_signals[0];
    if !bytes32_eq(&merkle_root, &pool.merkle_root) {
        return Err(ErrorCode::InvalidMerkleRoot);
    }
    let nullifier_hash = public_signals[1];
    if nullifier_set.contains(&nullifier_hash) {
        return Err(ErrorCode::DoubleSpend);
    }
    if nullifier_set.nullifiers.len() as u64 >= nullifier_set.capacity {
        return Err(ErrorCode::RegistryFull);
    }
    let recipient = public_signals[2];
    let amount = u64_from_le_bytes(slice_subrange(amount_sig.as_slice(), 0, 8));
    match withdraw(pool, amount, recipient, caller) {
        Ok(_transfer) => {},
        Err(e) => {
            return Err(e);
        },
    }
    match nullifier_set.insert(nullifier_hash) {
        Ok(()) => {},
        Err(_) => {
            proof {
                assert(false);
            }
            return Err(ErrorCode::DoubleSpend);
        },
    }
    verifier.nullifier_count = nullifier_set.nullifiers.len() as u64;
    verifier.total_verified_amount = verifier.total_verified_amount + amount;
    let external_nullifier = public_signals[4];
    Ok(
        SpendVerificationEvent {
            nullifier_hash,
            recipient,
            amount,
            external_nullifier,
            merkle_root,
        },
    )
}

} // verus!
