use shielded_pool::errors::ErrorCode;
use shielded_pool::nullifier::NullifierSet;
use shielded_pool::vk_registry::{
    deactivate_verification_key, initialize, register_verification_key, update_verification_key,
};
use sha2::Digest;

fn bytes32(b: u8) -> [u8; 32] {
    let mut out = [0u8; 32];
    out[0] = b;
    out
}

fn sha(data: &[u8]) -> [u8; 32] {
    let d = sha2::Sha256::digest(data);
    let mut out = [0u8; 32];
    out.copy_from_slice(&d);
    out
}

fn key_data(fill: u8, len: usize) -> Vec<u8> {
    vec![fill; len]
}

#[test]
fn nullifier_insert_then_contains() {
    let mut registry = NullifierSet::new(10);
    let n = bytes32(1);
    assert!(!registry.contains(&n));
    assert_eq!(registry.insert(n), Ok(()));
    assert!(registry.contains(&n));
    assert!(!registry.contains(&bytes32(2)));
}

#[test]
fn nullifier_double_insert_is_double_spend() {
    // two inserts of the same value: exactly one success, one double spend
    let mut registry = NullifierSet::new(10);
    let n = bytes32(7);
    assert_eq!(registry.insert(n), Ok(()));
    assert_eq!(registry.insert(n), Err(ErrorCode::DoubleSpend));
    assert_eq!(registry.nullifiers.len(), 1);
}

#[test]
fn nullifier_capacity_is_enforced() {
    let mut registry = NullifierSet::new(2);
    assert_eq!(registry.insert(bytes32(1)), Ok(()));
    assert_eq!(registry.insert(bytes32(2)), Ok(()));
    assert_eq!(registry.insert(bytes32(3)), Err(ErrorCode::RegistryFull));
    // a duplicate is still reported as a double spend, not as full
    assert_eq!(registry.insert(bytes32(1)), Err(ErrorCode::DoubleSpend));
}

#[test]
fn register_stores_entry_with_integrity_digest() {
    let authority = bytes32(9);
    let mut registry = initialize(authority);
    let data = key_data(5, 64);
    let res = register_verification_key(
        &mut registry,
        &authority,
        b"spend".to_vec(),
        b"v2.0".to_vec(),
        data.clone(),
        1700000000,
    );
    assert_eq!(res, Ok(()));
    assert_eq!(registry.circuit_count, 1);
    let entry = &registry.entries[0];
    assert_eq!(entry.circuit_name, b"spend".to_vec());
    assert_eq!(entry.circuit_version, b"v2.0".to_vec());
    assert_eq!(entry.verification_key, data);
    assert_eq!(entry.verification_key_hash, sha(&data));
    assert_eq!(entry.registered_at, 1700000000);
    assert!(entry.is_active);
}

#[test]
fn register_rejects_each_malformed_input() {
    let authority = bytes32(9);
    let stranger = bytes32(8);
    let mut registry = initialize(authority);
    let good = key_data(5, 64);
    let name = b"spend".to_vec();
    let version = b"v1".to_vec();
    assert_eq!(
        register_verification_key(&mut registry, &stranger, name.clone(), version.clone(), good.clone(), 0),
        Err(ErrorCode::Unauthorized)
    );
    assert_eq!(
        register_verification_key(&mut registry, &authority, vec![b'x'; 33], version.clone(), good.clone(), 0),
        Err(ErrorCode::CircuitNameTooLong)
    );
    assert_eq!(
        register_verification_key(&mut registry, &authority, name.clone(), vec![b'v'; 17], good.clone(), 0),
        Err(ErrorCode::VersionTooLong)
    );
    assert_eq!(
        register_verification_key(&mut registry, &authority, name.clone(), version.clone(), key_data(5, 8193), 0),
        Err(ErrorCode::VerificationKeyTooLarge)
    );
    assert_eq!(
        register_verification_key(&mut registry, &authority, name.clone(), version.clone(), Vec::new(), 0),
        Err(ErrorCode::EmptyVerificationKey)
    );
    assert_eq!(
        register_verification_key(&mut registry, &authority, name.clone(), version.clone(), key_data(5, 31), 0),
        Err(ErrorCode::InvalidVerificationKey)
    );
    assert_eq!(
        register_verification_key(&mut registry, &authority, name.clone(), version.clone(), key_data(0, 64), 0),
        Err(ErrorCode::InvalidVerificationKey)
    );
    assert_eq!(registry.circuit_count, 0);
    assert_eq!(
        register_verification_key(&mut registry, &authority, name.clone(), version.clone(), good.clone(), 0),
        Ok(())
    );
    assert_eq!(
        register_verification_key(&mut registry, &authority, name.clone(), version.clone(), good.clone(), 0),
        Err(ErrorCode::CircuitAlreadyRegistered)
    );
}

#[test]
fn register_accepts_boundary_sizes() {
    let authority = bytes32(9);
    let mut registry = initialize(authority);
    // the largest accepted name, version, and key data
    let res = register_verification_key(
        &mut registry,
        &authority,
        vec![b'n'; 32],
        vec![b'v'; 16],
        key_data(5, 8192),
        0,
    );
    assert_eq!(res, Ok(()));
    // and the smallest accepted key data
    let res2 = register_verification_key(
        &mut registry,
        &authority,
        b"tiny".to_vec(),
        b"v1".to_vec(),
        key_data(5, 32),
        0,
    );
    assert_eq!(res2, Ok(()));
    assert_eq!(registry.circuit_count, 2);
}

#[test]
fn update_supersedes_key_and_keeps_name() {
    let authority = bytes32(9);
    let mut registry = initialize(authority);
    let name = b"spend".to_vec();
    register_verification_key(
        &mut registry,
        &authority,
        name.clone(),
        b"v1".to_vec(),
        key_data(5, 64),
        100,
    )
    .unwrap();
    let new_data = key_data(6, 128);
    let res = update_verification_key(
        &mut registry,
        &authority,
        &name,
        b"v2".to_vec(),
        new_data.clone(),
        200,
    );
    assert_eq!(res, Ok(()));
    let entry = &registry.entries[0];
    assert_eq!(entry.circuit_name, name);
    assert_eq!(entry.circuit_version, b"v2".to_vec());
    assert_eq!(entry.verification_key, new_data);
    assert_eq!(entry.verification_key_hash, sha(&new_data));
    assert_eq!(entry.registered_at, 200);
    assert!(entry.is_active);
}

#[test]
fn update_rejections() {
    let authority = bytes32(9);
    let stranger = bytes32(8);
    let mut registry = initialize(authority);
    let name = b"spend".to_vec();
    register_verification_key(
        &mut registry,
        &authority,
        name.clone(),
        b"v1".to_vec(),
        key_data(5, 64),
        100,
    )
    .unwrap();
    assert_eq!(
        update_verification_key(&mut registry, &stranger, &name, b"v2".to_vec(), key_data(6, 64), 0),
        Err(ErrorCode::Unauthorized)
    );
    assert_eq!(
        update_verification_key(&mut registry, &authority, &name, vec![b'v'; 17], key_data(6, 64), 0),
        Err(ErrorCode::VersionTooLong)
    );
    assert_eq!(
        update_verification_key(&mut registry, &authority, &name, b"v2".to_vec(), key_data(6, 8193), 0),
        Err(ErrorCode::VerificationKeyTooLarge)
    );
    let missing = b"other".to_vec();
    assert_eq!(
        update_verification_key(&mut registry, &authority, &missing, b"v2".to_vec(), key_data(6, 64), 0),
        Err(ErrorCode::CircuitNotFound)
    );
    assert_eq!(registry.entries[0].circuit_version, b"v1".to_vec());
}

#[test]
fn deactivate_blocks_only_the_flag() {
    let authority = bytes32(9);
    let stranger = bytes32(8);
    let mut registry = initialize(authority);
    let name = b"spend".to_vec();
    let data = key_data(5, 64);
    register_verification_key(&mut registry, &authority, name.clone(), b"v1".to_vec(), data.clone(), 100)
        .unwrap();
    assert_eq!(
        deactivate_verification_key(&mut registry, &stranger, &name),
        Err(ErrorCode::Unauthorized)
    );
    let missing = b"other".to_vec();
    assert_eq!(
        deactivate_verification_key(&mut registry, &authority, &missing),
        Err(ErrorCode::CircuitNotFound)
    );
    assert_eq!(deactivate_verification_key(&mut registry, &authority, &name), Ok(()));
    let entry = &registry.entries[0];
    assert!(!entry.is_active);
    assert_eq!(entry.circuit_name, name);
    assert_eq!(entry.verification_key, data);
    assert_eq!(entry.registered_at, 100);
    assert_eq!(registry.circuit_count, 1);
}
