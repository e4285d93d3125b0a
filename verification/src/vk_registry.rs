//! The verification-key registry: named, versioned, serialized circuit
//! keys. A key is registered once per circuit name by the authority, may be
//! superseded by a new version, and may be deactivated but never deleted.
//! Each entry carries a SHA-256 digest of its key bytes for integrity.

use vstd::prelude::*;
use crate::errors::ErrorCode;
use crate::hash::{bytes_eq, sha256, sha256_of};

verus! {

/// One registered circuit key: name and version as UTF-8 bytes, the
/// serialized key, its integrity digest, when it was registered, and
/// whether new proofs may still reference it.
pub struct VerificationKeyEntry {
    pub circuit_name: Vec<u8>,
    pub circuit_version: Vec<u8>,
    pub verification_key: Vec<u8>,
    pub verification_key_hash: [u8; 32],
    pub registered_at: i64,
    pub is_active: bool,
}

/// The registry record: its authority, the number of circuits, and the
/// entries keyed by circuit name.
pub struct ZkMetaRegistry {
    pub authority: [u8; 32],
    pub circuit_count: u64,
    pub entries: Vec<VerificationKeyEntry>,
}

/// A well-formed entry: name and version within their ceilings, the key
/// within 8 KiB, and the stored digest the SHA-256 of the stored key.
pub open spec fn entry_wf(e: VerificationKeyEntry) -> bool {
    &&& e.circuit_name@.len() <= 32
    &&& e.circuit_version@.len() <= 16
    &&& e.verification_key@.len() <= 8192
    &&& e.verification_key_hash@ == sha256_of(e.verification_key@)
}

/// Whether some entry carries the given circuit name.
pub open spec fn has_circuit(entries: Seq<VerificationKeyEntry>, name: Seq<u8>) -> bool {
    exists|i: int| 0 <= i < entries.len() && entries[i].circuit_name@ == name
}

/// The index of the entry carrying the given circuit name; meaningful only
/// where `has_circuit` holds, and then unique.
pub open spec fn circuit_index(entries: Seq<VerificationKeyEntry>, name: Seq<u8>) -> int {
    choose|i: int| 0 <= i < entries.len() && entries[i].circuit_name@ == name
}

/// With unique names, the index of a name an entry is known to carry is
/// that entry's position.
proof fn lemma_circuit_index_unique(entries: Seq<VerificationKeyEntry>, name: Seq<u8>, idx: int)
    requires
        forall|i: int, j: int|
            0 <= i < j < entries.len() ==> entries[i].circuit_name@ != entries[j].circuit_name@,
        0 <= idx < entries.len(),
        entries[idx].circuit_name@ == name,
    ensures
        has_circuit(entries, name),
        circuit_index(entries, name) == idx,
{
    assert(has_circuit(entries, name));
    let j = circuit_index(entries, name);
    if j != idx {
        if j < idx {
            assert(entries[j].circuit_name@ != entries[idx].circuit_name@);
        } else {
            assert(entries[idx].circuit_name@ != entries[j].circuit_name@);
        }
    }
}

impl ZkMetaRegistry {
    /// The registry invariant: the count matches the entries, every entry
    /// is well formed, and no circuit name appears twice.
    pub open spec fn wf(&self) -> bool {
        &&& self.circuit_count == self.entries@.len()
        &&& forall|i: int| 0 <= i < self.entries@.len() ==> entry_wf(#[trigger] self.entries@[i])
        &&& forall|i: int, j: int|
            0 <= i < j < self.entries@.len() ==> self.entries@[i].circuit_name@
                != self.entries@[j].circuit_name@
    }
}

/// Creates an empty registry owned by the given authority.
pub fn initialize(authority: [u8; 32]) -> (registry: ZkMetaRegistry)
    ensures
        registry.wf(),
        registry.authority == authority,
        registry.circuit_count == 0,
        registry.entries@ == Seq::<VerificationKeyEntry>::empty(),
{
    ZkMetaRegistry { authority, circuit_count: 0, entries: Vec::new() }
}

/// Whether every byte of the key data is zero: such a key is structurally
/// degenerate and is rejected.
pub open spec fn all_zero(data: Seq<u8>) -> bool {
    forall|i: int| 0 <= i < data.len() ==> data[i] == 0
}

/// The registration decision: the first failing check names the error, and
/// registration is owed exactly when every check passes.
pub open spec fn register_check(
    registry: ZkMetaRegistry,
    caller: Seq<u8>,
    name: Seq<u8>,
    version: Seq<u8>,
    data: Seq<u8>,
) -> Result<(), ErrorCode> {
    if caller != registry.authority@ {
        Err(ErrorCode::Unauthorized)
    } else if name.len() > 32 {
        Err(ErrorCode::CircuitNameTooLong)
    } else if version.len() > 16 {
        Err(ErrorCode::VersionTooLong)
    } else if data.len() > 8192 {
        Err(ErrorCode::VerificationKeyTooLarge)
    } else if data.len() == 0 {
        Err(ErrorCode::EmptyVerificationKey)
    } else if data.len() < 32 || all_zero(data) {
        Err(ErrorCode::InvalidVerificationKey)
    } else if has_circuit(registry.entries@, name) {
        Err(ErrorCode::CircuitAlreadyRegistered)
    } else {
        Ok(())
    }
}

/// Registers a verification key for a new circuit name. Authority-gated;
/// validates the name, version, and key data, stores the key with its
/// SHA-256 digest, and marks the entry active. Nothing changes on a
/// rejection.
pub fn register_verification_key(
    registry: &mut ZkMetaRegistry,
    caller: &[u8; 32],
    circuit_name: Vec<u8>,
    circuit_version: Vec<u8>,
    verification_key_data: Vec<u8>,
    now: i64,
) -> (result: Result<(), ErrorCode>)
    requires
        old(registry).wf(),
    ensures
        final(registry).wf(),
        final(registry).authority == old(registry).authority,
        (result is Ok) <==> (register_check(
            *old(registry),
            caller@,
            circuit_name@,
            circuit_version@,
            verification_key_data@,
        ) is Ok),
        match result {
            Ok(()) => {
                &&& final(registry).entries@.len() == old(registry).entries@.len() + 1
                &&& forall|j: int|
                    0 <= j < old(registry).entries@.len() ==> final(registry).entries@[j] == old(
                        registry,
                    ).entries@[j]
                &&& {
                    let e = final(registry).entries@.last();
                    &&& e.circuit_name@ == circuit_name@
                    &&& e.circuit_version@ == circuit_version@
                    &&& e.verification_key@ == verification_key_data@
                    &&& e.verification_key_hash@ == sha256_of(verification_key_data@)
                    &&& e.registered_at == now
                    &&& e.is_active
                }
            },
            Err(e) => {
                &&& register_check(
                    *old(registry),
                    caller@,
                    circuit_name@,
                    circuit_version@,
                    verification_key_data@,
                ) == Result::<(), ErrorCode>::Err(e)
                &&& *final(registry) == *old(registry)
            },
        },
{
    if !crate::hash::bytes32_eq(caller, &registry.authority) {
        return Err(ErrorCode::Unauthorized);
    }
    if circuit_name.len() > 32 {
        return Err(ErrorCode::CircuitNameTooLong);
    }
    if circuit_version.len() > 16 {
        return Err(ErrorCode::VersionTooLong);
    }
    if verification_key_data.len() > 8192 {
        return Err(ErrorCode::VerificationKeyTooLarge);
    }
    if verification_key_data.len() == 0 {
        return Err(ErrorCode::EmptyVerificationKey);
    }
    if verification_key_data.len() < 32 {
        return Err(ErrorCode::InvalidVerificationKey);
    }
    let dn = verification_key_data.len();
    let mut i: usize = 0;
    let mut seen_nonzero = false;
    while i < dn
        invariant
            i <= dn,
            dn == verification_key_data@.len(),
            seen_nonzero <==> exists|j: int| 0 <= j < i && verification_key_data@[j] != 0,
        decreases dn - i,
    {
        if verification_key_data[i] != 0 {
            seen_nonzero = true;
        }
        i = i + 1;
    }
    if !seen_nonzero {
        assert(all_zero(verification_key_data@));
        return Err(ErrorCode::InvalidVerificationKey);
    }
    assert(!all_zero(verification_key_data@)) by {
        let j = choose|j: int| 0 <= j < dn && verification_key_data@[j] != 0;
        assert(verification_key_data@[j] != 0);
    }
    let en = registry.entries.len();
    let mut k: usize = 0;
    while k < en
        invariant
            k <= en,
            en == registry.entries@.len(),
            *registry == *old(registry),
            old(registry).wf(),
            caller@ == old(registry).authority@,
            circuit_name@.len() <= 32,
            circuit_version@.len() <= 16,
            32 <= verification_key_data@.len() <= 8192,
            !all_zero(verification_key_data@),
            forall|j: int| 0 <= j < k ==> (#[trigger] registry.entries@[j]).circuit_name@
                != circuit_name@,
        decreases en - k,
    {
        if bytes_eq(&registry.entries[k].circuit_name, &circuit_name) {
            assert(has_circuit(registry.entries@, circuit_name@));
            return Err(ErrorCode::CircuitAlreadyRegistered);
        }
        k = k + 1;
    }
    assert(!has_circuit(registry.entries@, circuit_name@));
    let vk_hash = sha256(verification_key_data.as_slice());
    let entry = VerificationKeyEntry {
        circuit_name,
        circuit_version,
        verification_key: verification_key_data,
        verification_key_hash: vk_hash,
        registered_at: now,
        is_active: true,
    };
    let ghost before = registry.entries@;
    registry.entries.push(entry);
    registry.circuit_count = registry.entries.len() as u64;
    proof {
        assert forall|i2: int, j2: int|
            0 <= i2 < j2 < registry.entries@.len() implies registry.entries@[i2].circuit_name@
            != registry.entries@[j2].circuit_name@ by {
            if j2 == registry.entries@.len() - 1 {
                assert(registry.entries@[i2] == before[i2]);
            }
        }
    }
    Ok(())
}

/// The update decision for an existing circuit's key.
pub open spec fn update_check(
    registry: ZkMetaRegistry,
    caller: Seq<u8>,
    name: Seq<u8>,
    version: Seq<u8>,
    data: Seq<u8>,
) -> Result<(), ErrorCode> {
    if caller != registry.authority@ {
        Err(ErrorCode::Unauthorized)
    } else if version.len() > 16 {
        Err(ErrorCode::VersionTooLong)
    } else if data.len() > 8192 {
        Err(ErrorCode::VerificationKeyTooLarge)
    } else if !has_circuit(registry.entries@, name) {
        Err(ErrorCode::CircuitNotFound)
    } else {
        Ok(())
    }
}

/// Supersedes the key of a registered circuit with a new version,
/// refreshing the stored data, its digest, and the registration time; the
/// name and active flag are untouched. Authority-gated; nothing changes on
/// a rejection.
pub fn update_verification_key(
    registry: &mut ZkMetaRegistry,
    caller: &[u8; 32],
    circuit_name: &Vec<u8>,
    new_version: Vec<u8>,
    verification_key_data: Vec<u8>,
    now: i64,
) -> (result: Result<(), ErrorCode>)
    requires
        old(registry).wf(),
    ensures
        final(registry).wf(),
        final(registry).authority == old(registry).authority,
        (result is Ok) <==> (update_check(
            *old(registry),
            caller@,
            circuit_name@,
            new_version@,
            verification_key_data@,
        ) is Ok),
        match result {
            Ok(()) => {
                let idx = circuit_index(old(registry).entries@, circuit_name@);
                &&& final(registry).entries@.len() == old(registry).entries@.len()
                &&& forall|j: int|
                    0 <= j < old(registry).entries@.len() && j != idx
                        ==> final(registry).entries@[j] == old(registry).entries@[j]
                &&& {
                    let e = final(registry).entries@[idx];
                    &&& e.circuit_name@ == circuit_name@
                    &&& e.circuit_version@ == new_version@
                    &&& e.verification_key@ == verification_key_data@
                    &&& e.verification_key_hash@ == sha256_of(verification_key_data@)
                    &&& e.registered_at == now
                    &&& e.is_active == old(registry).entries@[idx].is_active
                }
            },
            Err(e) => {
                &&& update_check(
                    *old(registry),
                    caller@,
                    circuit_name@,
                    new_version@,
                    verification_key_data@,
                ) == Result::<(), ErrorCode>::Err(e)
                &&& *final(registry) == *old(registry)
            },
        },
{
    if !crate::hash::bytes32_eq(caller, &registry.authority) {
        return Err(ErrorCode::Unauthorized);
    }
    if new_version.len() > 16 {
        return Err(ErrorCode::VersionTooLong);
    }
    if verification_key_data.len() > 8192 {
        return Err(ErrorCode::VerificationKeyTooLarge);
    }
    let en = registry.entries.len();
    let mut k: usize = 0;
    while k < en
        invariant
            k <= en,
            old(registry).wf(),
            *registry == *old(registry),
            caller@ == old(registry).authority@,
            new_version@.len() <= 16,
            verification_key_data@.len() <= 8192,
            en == registry.entries@.len(),
            forall|j: int| 0 <= j < k ==> (#[trigger] registry.entries@[j]).circuit_name@
                != circuit_name@,
        decreases en - k,
    {
        if bytes_eq(&registry.entries[k].circuit_name, circuit_name) {
            proof {
                lemma_circuit_index_unique(registry.entries@, circuit_name@, k as int);
                assert(entry_wf(registry.entries@[k as int]));
            }
            let vk_hash = sha256(verification_key_data.as_slice());
            let ghost before = registry.entries@;
            let mut entry = registry.entries.remove(k);
            entry.circuit_version = new_version;
            entry.verification_key = verification_key_data;
            entry.verification_key_hash = vk_hash;
            entry.registered_at = now;
            registry.entries.insert(k, entry);
            proof {
                assert(registry.entries@ =~= before.update(
                    k as int,
                    registry.entries@[k as int],
                ));
                assert forall|m: int| 0 <= m < registry.entries@.len() implies (
                #[trigger] registry.entries@[m]).circuit_name@ == before[m].circuit_name@ by {}
                assert forall|i2: int, j2: int|
                    0 <= i2 < j2 < registry.entries@.len() implies registry.entries@[
                    i2].circuit_name@ != registry.entries@[j2].circuit_name@ by {
                    assert(before[i2].circuit_name@ != before[j2].circuit_name@);
                }
                assert forall|m: int| 0 <= m < registry.entries@.len() implies entry_wf(
                    #[trigger] registry.entries@[m],
                ) by {
                    assert(entry_wf(before[m]));
                }
            }
            return Ok(());
        }
        k = k + 1;
    }
    assert(!has_circuit(registry.entries@, circuit_name@));
    Err(ErrorCode::CircuitNotFound)
}

/// The deactivation decision for a registered circuit.
pub open spec fn deactivate_check(
    registry: ZkMetaRegistry,
    caller: Seq<u8>,
    name: Seq<u8>,
) -> Result<(), ErrorCode> {
    if caller != registry.authority@ {
        Err(ErrorCode::Unauthorized)
    } else if !has_circuit(registry.entries@, name) {
        Err(ErrorCode::CircuitNotFound)
    } else {
        Ok(())
    }
}

/// Blocks new proofs against a registered circuit's key. The entry is kept
/// for auditability: only its active flag changes. Authority-gated; nothing
/// changes on a rejection.
pub fn deactivate_verification_key(
    registry: &mut ZkMetaRegistry,
    caller: &[u8; 32],
    circuit_name: &Vec<u8>,
) -> (result: Result<(), ErrorCode>)
    requires
        old(registry).wf(),
    ensures
        final(registry).wf(),
        final(registry).authority == old(registry).authority,
        (result is Ok) <==> (deactivate_check(*old(registry), caller@, circuit_name@) is Ok),
        match result {
            Ok(()) => {
                let idx = circuit_index(old(registry).entries@, circuit_name@);
                &&& final(registry).entries@.len() == old(registry).entries@.len()
                &&& forall|j: int|
                    0 <= j < old(registry).entries@.len() && j != idx
                        ==> final(registry).entries@[j] == old(registry).entries@[j]
                &&& {
                    let e = final(registry).entries@[idx];
                    let before = old(registry).entries@[idx];
                    &&& e.circuit_name@ == before.circuit_name@
                    &&& e.circuit_version@ == before.circuit_version@
                    &&& e.verification_key@ == before.verification_key@
                    &&& e.verification_key_hash == before.verification_key_hash
                    &&& e.registered_at == before.registered_at
                    &&& !e.is_active
                }
            },
            Err(e) => {
                &&& deactivate_check(*old(registry), caller@, circuit_name@) == Result::<
                    (),
                    ErrorCode,
                >::Err(e)
                &&& *final(registry) == *old(registry)
            },
        },
{
    if !crate::hash::bytes32_eq(caller, &registry.authority) {
        return Err(ErrorCode::Unauthorized);
    }
    let en = registry.entries.len();
    let mut k: usize = 0;
    while k < en
        invariant
            k <= en,
            old(registry).wf(),
            *registry == *old(registry),
            caller@ == old(registry).authority@,
            en == registry.entries@.len(),
            forall|j: int| 0 <= j < k ==> (#[trigger] registry.entries@[j]).circuit_name@
                != circuit_name@,
        decreases en - k,
    {
        if bytes_eq(&registry.entries[k].circuit_name, circuit_name) {
            proof {
                lemma_circuit_index_unique(registry.entries@, circuit_name@, k as int);
                assert(entry_wf(registry.entries@[k as int]));
            }
            let ghost before = registry.entries@;
            let mut entry = registry.entries.remove(k);
            entry.is_active = false;
            registry.entries.insert(k, entry);
            proof {
                assert(registry.entries@ =~= before.update(
                    k as int,
                    registry.entries@[k as int],
                ));
                assert forall|i2: int, j2: int|
                    0 <= i2 < j2 < registry.entries@.len() implies registry.entries@[
                    i2].circuit_name@ != registry.entries@[j2].circuit_name@ by {
                    assert(before[i2].circuit_name@ != before[j2].circuit_name@);
                }
                assert forall|m: int| 0 <= m < registry.entries@.len() implies entry_wf(
                    #[trigger] registry.entries@[m],
                ) by {
                    assert(entry_wf(before[m]));
                }
            }
            return Ok(());
        }
        k = k + 1;
    }
    assert(!has_circuit(registry.entries@, circuit_name@));
    Err(ErrorCode::CircuitNotFound)
}

} // verus!
