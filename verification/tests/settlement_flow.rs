use ark_bn254::{Fr, G1Affine, G1Projective, G2Affine, G2Projective};
use ark_ec::{AffineRepr, CurveGroup};
use ark_ff::{BigInteger, PrimeField};
use shielded_pool::errors::ErrorCode;
use shielded_pool::groth16::{
    get_spend_verification_key, groth16_verify, G1Point, G2Point, Groth16Proof, VerificationKey,
};
use shielded_pool::merkle::MerkleTree;
use shielded_pool::nullifier::NullifierSet;
use shielded_pool::pool::{deposit, initialize as pool_initialize, withdraw, ShieldedPool};
use shielded_pool::settlement::{
    initialize as verifier_initialize, pause_verifier, unpause_verifier, verify_spend_proof,
    SpendVerifier,
};

fn fq_bytes(f: ark_bn254::Fq) -> [u8; 32] {
    let mut out = [0u8; 32];
    out.copy_from_slice(&f.into_bigint().to_bytes_le());
    out
}

fn g1_point(p: G1Affine) -> G1Point {
    G1Point { x: fq_bytes(p.x), y: fq_bytes(p.y) }
}

fn g2_point(p: G2Affine) -> G2Point {
    G2Point {
        x: [fq_bytes(p.x.c0), fq_bytes(p.x.c1)],
        y: [fq_bytes(p.y.c0), fq_bytes(p.y.c1)],
    }
}

fn g1_mul(k: Fr) -> G1Affine {
    (G1Projective::from(G1Affine::generator()) * k).into_affine()
}

fn g2_mul(k: Fr) -> G2Affine {
    (G2Projective::from(G2Affine::generator()) * k).into_affine()
}

/// Key multipliers of the test circuit: `ic[j] = M[j]·G1`, `alpha = A·G1`,
/// and `beta = gamma = delta = G2`.
const M: [u64; 6] = [3, 5, 7, 9, 11, 13];
const A: u64 = 2;
const C: u64 = 17;

fn test_vk() -> VerificationKey {
    VerificationKey {
        alpha_g1: g1_point(g1_mul(Fr::from(A))),
        beta_g2: g2_point(G2Affine::generator()),
        gamma_g2: g2_point(G2Affine::generator()),
        delta_g2: g2_point(G2Affine::generator()),
        ic: M.iter().map(|m| g1_point(g1_mul(Fr::from(*m)))).collect(),
    }
}

/// A proof satisfying `e(A,B) = e(alpha,beta)·e(vk_x,gamma)·e(C,delta)` for
/// the given signals under `test_vk`: with all G2 points the generator the
/// equation reduces to `a = alpha + x + c` over the scalar field.
fn craft_proof(signals: &[[u8; 32]; 5]) -> Groth16Proof {
    let mut x = Fr::from(M[0]);
    for i in 0..5 {
        x += Fr::from_le_bytes_mod_order(&signals[i]) * Fr::from(M[i + 1]);
    }
    let c = Fr::from(C);
    let a = Fr::from(A) + x + c;
    Groth16Proof {
        pi_a: g1_point(g1_mul(a)),
        pi_b: g2_point(G2Affine::generator()),
        pi_c: g1_point(g1_mul(c)),
    }
}

fn bytes32(b: u8) -> [u8; 32] {
    let mut out = [0u8; 32];
    out[0] = b;
    out
}

fn amount_signal(amount: u64) -> [u8; 32] {
    let mut out = [0u8; 32];
    out[..8].copy_from_slice(&amount.to_le_bytes());
    out
}

fn make_signals(root: [u8; 32], nullifier: [u8; 32], amount: u64) -> [[u8; 32]; 5] {
    [root, nullifier, bytes32(0xAA), amount_signal(amount), bytes32(0xBB)]
}

/// A fresh pool with one deposit, its verifier, and its registry.
fn settled_world(amount: u64) -> (ShieldedPool, MerkleTree, SpendVerifier, NullifierSet, [u8; 32]) {
    let authority = bytes32(1);
    let settler = bytes32(2);
    let (mut pool, mut tree) = pool_initialize(authority, settler).unwrap();
    deposit(&mut pool, &mut tree, bytes32(42), amount).unwrap();
    let verifier = verifier_initialize(authority, test_vk());
    let registry = NullifierSet::new(1000);
    (pool, tree, verifier, registry, settler)
}

#[test]
fn groth16_accepts_crafted_proof_and_rejects_tampering() {
    let signals_arr = make_signals(bytes32(3), bytes32(4), 500);
    let vk = test_vk();
    let proof = craft_proof(&signals_arr);
    let signals: Vec<[u8; 32]> = signals_arr.to_vec();
    assert_eq!(groth16_verify(&vk, &proof, &signals), Ok(true));

    // a proof crafted for different signals must fail the pairing check
    let other = make_signals(bytes32(3), bytes32(5), 500);
    let wrong_proof = craft_proof(&other);
    assert_eq!(groth16_verify(&vk, &wrong_proof, &signals), Ok(false));

    // tampering with one proof element must fail the pairing check
    let mut tampered = proof;
    tampered.pi_c = g1_point(g1_mul(Fr::from(C + 1)));
    assert_eq!(groth16_verify(&vk, &tampered, &signals), Ok(false));
}

#[test]
fn groth16_structural_errors() {
    let signals_arr = make_signals(bytes32(3), bytes32(4), 500);
    let signals: Vec<[u8; 32]> = signals_arr.to_vec();
    let proof = craft_proof(&signals_arr);

    // wrong per-signal element count
    let mut short_vk = test_vk();
    short_vk.ic.pop();
    assert_eq!(groth16_verify(&short_vk, &proof, &signals), Err(ErrorCode::InvalidVerificationKey));

    // zero alpha element
    let mut zero_vk = test_vk();
    zero_vk.alpha_g1 = G1Point { x: [0u8; 32], y: [0u8; 32] };
    assert_eq!(groth16_verify(&zero_vk, &proof, &signals), Err(ErrorCode::InvalidProof));

    // zero proof element
    let vk = test_vk();
    let mut zero_proof = proof;
    zero_proof.pi_a = G1Point { x: [0u8; 32], y: [0u8; 32] };
    assert_eq!(groth16_verify(&vk, &zero_proof, &signals), Err(ErrorCode::InvalidProof));

    // a zero key element beyond alpha is a degenerate key, not a false verdict
    let mut zero_gamma_vk = test_vk();
    zero_gamma_vk.gamma_g2 = G2Point { x: [[0u8; 32]; 2], y: [[0u8; 32]; 2] };
    assert_eq!(groth16_verify(&zero_gamma_vk, &proof, &signals), Err(ErrorCode::InvalidProof));
    let mut zero_ic_vk = test_vk();
    zero_ic_vk.ic[3] = G1Point { x: [0u8; 32], y: [0u8; 32] };
    assert_eq!(groth16_verify(&zero_ic_vk, &proof, &signals), Err(ErrorCode::InvalidProof));

    // the placeholder default key accepts nothing
    let default_vk = get_spend_verification_key();
    assert_eq!(default_vk.ic.len(), 6);
    assert_eq!(groth16_verify(&default_vk, &proof, &signals), Err(ErrorCode::InvalidProof));
}

#[test]
fn groth16_runs_pairing_check_with_no_public_signals() {
    // a circuit with no public signals: a one-element key, the public-input
    // combination is `ic[0]` itself, and the pairing verdict decides
    let m0 = Fr::from(M[0]);
    let c = Fr::from(C);
    let vk = VerificationKey {
        alpha_g1: g1_point(g1_mul(Fr::from(A))),
        beta_g2: g2_point(G2Affine::generator()),
        gamma_g2: g2_point(G2Affine::generator()),
        delta_g2: g2_point(G2Affine::generator()),
        ic: vec![g1_point(g1_mul(m0))],
    };
    let proof = Groth16Proof {
        pi_a: g1_point(g1_mul(Fr::from(A) + m0 + c)),
        pi_b: g2_point(G2Affine::generator()),
        pi_c: g1_point(g1_mul(c)),
    };
    let no_signals: Vec<[u8; 32]> = Vec::new();
    assert_eq!(groth16_verify(&vk, &proof, &no_signals), Ok(true));
    let mut wrong = proof;
    wrong.pi_c = g1_point(g1_mul(c + Fr::from(1u64)));
    assert_eq!(groth16_verify(&vk, &wrong, &no_signals), Ok(false));
}

#[test]
fn deposit_and_withdraw_update_custody() {
    let authority = bytes32(1);
    let settler = bytes32(2);
    let (mut pool, mut tree) = pool_initialize(authority, settler).unwrap();
    assert_eq!(pool.merkle_root, tree.get_root());
    assert_eq!(deposit(&mut pool, &mut tree, bytes32(42), 0).unwrap_err(), ErrorCode::InvalidAmount);
    let event = deposit(&mut pool, &mut tree, bytes32(42), 700).unwrap();
    assert_eq!(event.leaf_index, 0);
    assert_eq!(event.amount, 700);
    assert_eq!(event.root, tree.compute_root());
    assert_eq!(pool.merkle_root, event.root);
    assert_eq!(pool.total_deposits, 700);
    assert_eq!(pool.next_index, 1);

    assert_eq!(withdraw(&mut pool, 0, bytes32(5), &settler).unwrap_err(), ErrorCode::InvalidAmount);
    assert_eq!(
        withdraw(&mut pool, 701, bytes32(5), &settler).unwrap_err(),
        ErrorCode::InsufficientFunds
    );
    assert_eq!(
        withdraw(&mut pool, 100, bytes32(5), &bytes32(3)).unwrap_err(),
        ErrorCode::UnauthorizedWithdrawal
    );
    assert_eq!(pool.total_deposits, 700);
    let wevent = withdraw(&mut pool, 100, bytes32(5), &settler).unwrap();
    assert_eq!(wevent.amount, 100);
    assert_eq!(wevent.remaining_balance, 600);
    assert_eq!(pool.total_deposits, 600);
}

#[test]
fn round_trip_settles_then_rejects_replay() {
    let (mut pool, _tree, mut verifier, mut registry, settler) = settled_world(500);
    let nullifier = bytes32(77);
    let signals_arr = make_signals(pool.merkle_root, nullifier, 500);
    let proof = craft_proof(&signals_arr);
    let signals: Vec<[u8; 32]> = signals_arr.to_vec();

    let event =
        verify_spend_proof(&mut verifier, &mut registry, &mut pool, &proof, &signals, &settler)
            .unwrap();
    assert_eq!(event.nullifier_hash, nullifier);
    assert_eq!(event.recipient, bytes32(0xAA));
    assert_eq!(event.amount, 500);
    assert_eq!(event.external_nullifier, bytes32(0xBB));
    assert_eq!(event.merkle_root, signals_arr[0]);
    assert_eq!(pool.total_deposits, 0);
    assert_eq!(verifier.nullifier_count, 1);
    assert_eq!(verifier.total_verified_amount, 500);
    assert!(registry.contains(&nullifier));

    // the same proof resubmitted: exactly one success, then a double spend
    let replay =
        verify_spend_proof(&mut verifier, &mut registry, &mut pool, &proof, &signals, &settler);
    assert_eq!(replay.unwrap_err(), ErrorCode::DoubleSpend);
    assert_eq!(verifier.nullifier_count, 1);
    assert_eq!(registry.nullifiers.len(), 1);
}

#[test]
fn stale_root_fails_even_with_valid_proof() {
    let (mut pool, mut tree, mut verifier, mut registry, settler) = settled_world(500);
    let stale_root = pool.merkle_root;
    let signals_arr = make_signals(stale_root, bytes32(78), 200);
    let proof = craft_proof(&signals_arr);
    let signals: Vec<[u8; 32]> = signals_arr.to_vec();

    // a second deposit moves the accumulator root on
    deposit(&mut pool, &mut tree, bytes32(43), 300).unwrap();
    assert_ne!(pool.merkle_root, stale_root);

    let result =
        verify_spend_proof(&mut verifier, &mut registry, &mut pool, &proof, &signals, &settler);
    assert_eq!(result.unwrap_err(), ErrorCode::InvalidMerkleRoot);
    assert_eq!(pool.total_deposits, 800);
    assert_eq!(registry.nullifiers.len(), 0);
}

#[test]
fn pause_gates_settlement() {
    let (mut pool, _tree, mut verifier, mut registry, settler) = settled_world(500);
    let authority = verifier.authority;
    assert_eq!(pause_verifier(&mut verifier, &bytes32(99)).unwrap_err(), ErrorCode::Unauthorized);
    pause_verifier(&mut verifier, &authority).unwrap();
    let signals_arr = make_signals(pool.merkle_root, bytes32(79), 100);
    let proof = craft_proof(&signals_arr);
    let signals: Vec<[u8; 32]> = signals_arr.to_vec();
    let result =
        verify_spend_proof(&mut verifier, &mut registry, &mut pool, &proof, &signals, &settler);
    assert_eq!(result.unwrap_err(), ErrorCode::VerifierPaused);
    assert_eq!(unpause_verifier(&mut verifier, &bytes32(99)).unwrap_err(), ErrorCode::Unauthorized);
    unpause_verifier(&mut verifier, &authority).unwrap();
    verify_spend_proof(&mut verifier, &mut registry, &mut pool, &proof, &signals, &settler)
        .unwrap();
}

#[test]
fn settlement_rejects_each_malformed_request() {
    let (mut pool, _tree, mut verifier, mut registry, settler) = settled_world(500);

    // wrong signal count
    let signals_arr = make_signals(pool.merkle_root, bytes32(80), 100);
    let proof = craft_proof(&signals_arr);
    let four: Vec<[u8; 32]> = signals_arr[..4].to_vec();
    assert_eq!(
        verify_spend_proof(&mut verifier, &mut registry, &mut pool, &proof, &four, &settler)
            .unwrap_err(),
        ErrorCode::InvalidPublicInputCount
    );

    // malformed amount encoding: a nonzero byte above the low eight
    let mut bad_amount = signals_arr;
    bad_amount[3][20] = 1;
    let bad_proof = craft_proof(&bad_amount);
    let bad: Vec<[u8; 32]> = bad_amount.to_vec();
    assert_eq!(
        verify_spend_proof(&mut verifier, &mut registry, &mut pool, &bad_proof, &bad, &settler)
            .unwrap_err(),
        ErrorCode::InvalidPublicSignal
    );

    // an invalid proof
    let mut tampered = proof;
    tampered.pi_c = g1_point(g1_mul(Fr::from(C + 1)));
    let signals: Vec<[u8; 32]> = signals_arr.to_vec();
    assert_eq!(
        verify_spend_proof(&mut verifier, &mut registry, &mut pool, &tampered, &signals, &settler)
            .unwrap_err(),
        ErrorCode::InvalidProof
    );

    // a zero amount
    let zero_arr = make_signals(pool.merkle_root, bytes32(81), 0);
    let zero_proof = craft_proof(&zero_arr);
    let zero: Vec<[u8; 32]> = zero_arr.to_vec();
    assert_eq!(
        verify_spend_proof(&mut verifier, &mut registry, &mut pool, &zero_proof, &zero, &settler)
            .unwrap_err(),
        ErrorCode::InvalidAmount
    );

    // more than custody holds
    let big_arr = make_signals(pool.merkle_root, bytes32(82), 501);
    let big_proof = craft_proof(&big_arr);
    let big: Vec<[u8; 32]> = big_arr.to_vec();
    assert_eq!(
        verify_spend_proof(&mut verifier, &mut registry, &mut pool, &big_proof, &big, &settler)
            .unwrap_err(),
        ErrorCode::InsufficientFunds
    );

    // an unregistered settlement caller
    assert_eq!(
        verify_spend_proof(&mut verifier, &mut registry, &mut pool, &proof, &signals, &bytes32(9))
            .unwrap_err(),
        ErrorCode::UnauthorizedWithdrawal
    );

    // a full registry
    let mut tiny = NullifierSet::new(0);
    assert_eq!(
        verify_spend_proof(&mut verifier, &mut tiny, &mut pool, &proof, &signals, &settler)
            .unwrap_err(),
        ErrorCode::RegistryFull
    );

    // nothing was settled along the way
    assert_eq!(pool.total_deposits, 500);
    assert_eq!(verifier.nullifier_count, 0);
    assert_eq!(registry.nullifiers.len(), 0);
}
