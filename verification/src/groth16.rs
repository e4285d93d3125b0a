//! The proof verifier: structural checks over a succinct proof and its
//! verification key, then the cryptographic pairing check.
//!
//! The pairing arithmetic is a trusted primitive behind a narrow byte-level
//! interface: single group operations whose results the contracts name, so
//! the verifier's verdict is pinned as a function of the encoded key, proof,
//! and signals alone. Target-group values travel between the trusted calls
//! in their canonical serialized form.

use vstd::prelude::*;
use ark_bn254::{Bn254, Fq, Fq2, Fr, G1Affine, G2Affine};
use ark_ec::AffineRepr;
use ark_ec::CurveGroup;
use ark_ec::pairing::Pairing;
use ark_ec::pairing::PairingOutput;
use ark_ff::BigInteger;
use ark_ff::PrimeField;
use ark_serialize::CanonicalDeserialize;
use ark_serialize::CanonicalSerialize;
use crate::errors::ErrorCode;
use crate::hash::{bytes32_eq, bytes32_seq_view, bytes_eq, zero_bytes};

verus! {

/// A BN254 G1 point: two field elements encoded as 32 little-endian bytes.
#[derive(Clone, Copy)]
pub struct G1Point {
    pub x: [u8; 32],
    pub y: [u8; 32],
}

impl View for G1Point {
    type V = Seq<u8>;

    open spec fn view(&self) -> Seq<u8> {
        self.x@ + self.y@
    }
}

/// A BN254 G2 point: two quadratic-extension coordinates, each a pair of
/// field elements encoded as 32 little-endian bytes.
#[derive(Clone, Copy)]
pub struct G2Point {
    pub x: [[u8; 32]; 2],
    pub y: [[u8; 32]; 2],
}

impl View for G2Point {
    type V = Seq<u8>;

    open spec fn view(&self) -> Seq<u8> {
        (self.x@[0])@ + (self.x@[1])@ + (self.y@[0])@ + (self.y@[1])@
    }
}

/// A succinct proof: the three group elements of the proving relation.
#[derive(Clone, Copy)]
pub struct Groth16Proof {
    pub pi_a: G1Point,
    pub pi_b: G2Point,
    pub pi_c: G1Point,
}

/// A verification key: one fixed G1 element, three fixed G2 elements, and
/// one G1 element per public signal plus one.
#[derive(Clone)]
pub struct VerificationKey {
    pub alpha_g1: G1Point,
    pub beta_g2: G2Point,
    pub gamma_g2: G2Point,
    pub delta_g2: G2Point,
    pub ic: Vec<G1Point>,
}

/// The views of a sequence of G1 points.
pub open spec fn g1_views(points: Seq<G1Point>) -> Seq<Seq<u8>> {
    points.map_values(|p: G1Point| p@)
}

/// What `g1_mul_add` returns for given encodings: `acc + scalar·point`
/// re-encoded, or nothing when an operand is not a valid curve point. A
/// function of the encoded arguments alone.
pub uninterp spec fn g1_mul_add_of(acc: Seq<u8>, point: Seq<u8>, scalar: Seq<u8>) -> Option<
    Seq<u8>,
>;

/// What `pairing_pair` returns: the canonical serialization of the pairing
/// of the two encoded points, or nothing when either point is invalid. A
/// function of the encoded arguments alone.
pub uninterp spec fn pairing_of(g1: Seq<u8>, g2: Seq<u8>) -> Option<Seq<u8>>;

/// What `gt_combine` returns: the canonical serialization of the sum of two
/// serialized target-group elements, or nothing when either fails to
/// deserialize. A function of the arguments alone.
pub uninterp spec fn gt_add_of(a: Seq<u8>, b: Seq<u8>) -> Option<Seq<u8>>;

/// Relies on ark_bn254's G1 group arithmetic: one step of the public-input
/// combination, `acc + scalar·point`, the scalar read little-endian modulo
/// the group order; nothing when either operand is not a valid point. The
/// contract names the result `g1_mul_add_of`.
#[verifier::external_body]
fn g1_mul_add(acc: &G1Point, point: &G1Point, scalar: &[u8; 32]) -> (result: Option<G1Point>)
    ensures
        (match result {
            Some(q) => g1_mul_add_of(acc@, point@, scalar@) == Some(q@),
            None => g1_mul_add_of(acc@, point@, scalar@) is None,
        }),
{
    let ax = Fq::from_le_bytes_mod_order(&acc.x);
    let ay = Fq::from_le_bytes_mod_order(&acc.y);
    let px = Fq::from_le_bytes_mod_order(&point.x);
    let py = Fq::from_le_bytes_mod_order(&point.y);
    let (a, b) = (G1Affine::new_unchecked(ax, ay), G1Affine::new_unchecked(px, py));
    if !a.is_on_curve() || !b.is_on_curve() {
        return None;
    }
    let s = Fr::from_le_bytes_mod_order(scalar);
    let q = (a.into_group() + b.into_group() * s).into_affine();
    let (mut x, mut y) = ([0u8; 32], [0u8; 32]);
    x.copy_from_slice(&q.x.into_bigint().to_bytes_le());
    y.copy_from_slice(&q.y.into_bigint().to_bytes_le());
    Some(G1Point { x, y })
}

/// Relies on ark_bn254's optimal-ate pairing: decodes one G1 and one G2
/// point, rejecting points off the curve or outside the right subgroup, and
/// returns their pairing canonically serialized. The contract names the
/// result `pairing_of`.
#[verifier::external_body]
fn pairing_pair(p: &G1Point, q: &G2Point) -> (result: Option<Vec<u8>>)
    ensures
        (match result {
            Some(gt) => pairing_of(p@, q@) == Some(gt@),
            None => pairing_of(p@, q@) is None,
        }),
{
    let a = G1Affine::new_unchecked(Fq::from_le_bytes_mod_order(&p.x), Fq::from_le_bytes_mod_order(&p.y));
    let bx = Fq2::new(Fq::from_le_bytes_mod_order(&q.x[0]), Fq::from_le_bytes_mod_order(&q.x[1]));
    let by = Fq2::new(Fq::from_le_bytes_mod_order(&q.y[0]), Fq::from_le_bytes_mod_order(&q.y[1]));
    let b = G2Affine::new_unchecked(bx, by);
    if !a.is_on_curve() || !b.is_on_curve() || !b.is_in_correct_subgroup_assuming_on_curve() {
        return None;
    }
    let mut out = Vec::new();
    Bn254::pairing(a, b).serialize_uncompressed(&mut out).ok().map(|_| out)
}

/// Relies on ark_bn254's target-group arithmetic: deserializes two
/// target-group elements, adds them, and returns the sum canonically
/// serialized. The contract names the result `gt_add_of`.
#[verifier::external_body]
fn gt_combine(a: &Vec<u8>, b: &Vec<u8>) -> (result: Option<Vec<u8>>)
    ensures
        (match result {
            Some(sum) => gt_add_of(a@, b@) == Some(sum@),
            None => gt_add_of(a@, b@) is None,
        }),
{
    let x = match PairingOutput::<Bn254>::deserialize_uncompressed(a.as_slice()) {
        Ok(v) => v,
        Err(_) => return None,
    };
    let y = match PairingOutput::<Bn254>::deserialize_uncompressed(b.as_slice()) {
        Ok(v) => v,
        Err(_) => return None,
    };
    let mut out = Vec::new();
    match (x + y).serialize_uncompressed(&mut out) {
        Ok(()) => Some(out),
        Err(_) => None,
    }
}

/// The public-input combination folded left to right: start from an
/// accumulator and add each `scalarᵢ · pointᵢ`; nothing once any step
/// fails.
pub open spec fn msm_fold(
    acc: Option<Seq<u8>>,
    points: Seq<Seq<u8>>,
    scalars: Seq<Seq<u8>>,
) -> Option<Seq<u8>>
    recommends
        points.len() == scalars.len(),
    decreases scalars.len(),
{
    if scalars.len() == 0 {
        acc
    } else {
        let next = match acc {
            Some(a) => g1_mul_add_of(a, points[0], scalars[0]),
            None => Option::<Seq<u8>>::None,
        };
        msm_fold(next, points.skip(1), scalars.skip(1))
    }
}

/// The combination `ic[0] + Σ signalᵢ · ic[i+1]` that enters the pairing
/// equation as the public-input point.
pub open spec fn vk_x_of(ic: Seq<Seq<u8>>, signals: Seq<Seq<u8>>) -> Option<Seq<u8>>
    recommends
        ic.len() == signals.len() + 1,
{
    msm_fold(Some(ic[0]), ic.skip(1), signals)
}

/// A failed fold never recovers.
proof fn lemma_msm_fold_none(points: Seq<Seq<u8>>, scalars: Seq<Seq<u8>>)
    ensures
        msm_fold(Option::<Seq<u8>>::None, points, scalars) is None,
    decreases scalars.len(),
{
    if scalars.len() > 0 {
        lemma_msm_fold_none(points.skip(1), scalars.skip(1));
    }
}

/// A G1 point carrying the zero encoding in its x coordinate: the identity
/// and its stand-ins, caught by the cheap structural filter.
pub open spec fn g1_degenerate(p: G1Point) -> bool {
    p.x@ == zero_bytes()
}

/// A G2 point whose whole x coordinate is the zero encoding.
pub open spec fn g2_degenerate(p: G2Point) -> bool {
    (p.x@[0])@ == zero_bytes() && (p.x@[1])@ == zero_bytes()
}

/// The cheap necessary-but-not-sufficient sanity filter: no point of the
/// proof or of the key — the three proof elements, the four fixed key
/// elements, and every per-signal element — is the identity/zero encoding.
pub open spec fn structure_ok(vk: VerificationKey, proof: Groth16Proof) -> bool {
    &&& !g1_degenerate(proof.pi_a)
    &&& !g2_degenerate(proof.pi_b)
    &&& !g1_degenerate(proof.pi_c)
    &&& !g1_degenerate(vk.alpha_g1)
    &&& !g2_degenerate(vk.beta_g2)
    &&& !g2_degenerate(vk.gamma_g2)
    &&& !g2_degenerate(vk.delta_g2)
    &&& forall|i: int| 0 <= i < vk.ic@.len() ==> !g1_degenerate(#[trigger] vk.ic@[i])
}

/// Whether the pairing equation of the proving relation holds:
/// `e(A, B) == e(alpha, beta) + e(vk_x, gamma) + e(C, delta)` in the target
/// group, written additively over the named trusted results; false whenever
/// a point is invalid.
pub open spec fn pairing_equation_holds(
    proof: Groth16Proof,
    vk: VerificationKey,
    vk_x: Seq<u8>,
) -> bool {
    match (
        pairing_of(proof.pi_a@, proof.pi_b@),
        pairing_of(vk.alpha_g1@, vk.beta_g2@),
        pairing_of(vk_x, vk.gamma_g2@),
        pairing_of(proof.pi_c@, vk.delta_g2@),
    ) {
        (Some(lhs), Some(t1), Some(t2), Some(t3)) => match gt_add_of(t1, t2) {
            Some(u) => match gt_add_of(u, t3) {
                Some(rhs) => lhs == rhs,
                Option::<Seq<u8>>::None => false,
            },
            Option::<Seq<u8>>::None => false,
        },
        _ => false,
    }
}

/// The verifier's verdict once the structural filter has passed: the
/// pairing equation over the key, the proof, and the public-input
/// combination; false when the combination has no valid value.
pub open spec fn groth16_verdict(
    vk: VerificationKey,
    proof: Groth16Proof,
    signals: Seq<[u8; 32]>,
) -> bool {
    match vk_x_of(g1_views(vk.ic@), bytes32_seq_view(signals)) {
        Some(vx) => pairing_equation_holds(proof, vk, vx),
        Option::<Seq<u8>>::None => false,
    }
}

/// Whether a G1 point carries the zero encoding in its x coordinate.
fn g1_is_degenerate(p: &G1Point) -> (degenerate: bool)
    ensures
        degenerate == g1_degenerate(*p),
{
    let zero = [0u8; 32];
    proof {
        assert(zero@ =~= zero_bytes());
    }
    bytes32_eq(&p.x, &zero)
}

/// Whether a G2 point carries the zero encoding in its whole x coordinate.
fn g2_is_degenerate(p: &G2Point) -> (degenerate: bool)
    ensures
        degenerate == g2_degenerate(*p),
{
    let zero = [0u8; 32];
    proof {
        assert(zero@ =~= zero_bytes());
    }
    bytes32_eq(&p.x[0], &zero) && bytes32_eq(&p.x[1], &zero)
}

/// Validates a proof against a verification key and public signals. The key
/// must carry one per-signal element plus one; a degenerate proof or key is
/// an error distinct from a failed pairing check, which is the boolean
/// verdict.
pub fn groth16_verify(
    vk: &VerificationKey,
    proof: &Groth16Proof,
    public_signals: &Vec<[u8; 32]>,
) -> (result: Result<bool, ErrorCode>)
    ensures
        (result == Result::<bool, ErrorCode>::Err(ErrorCode::InvalidVerificationKey)) <==> vk.ic@.len()
            != public_signals@.len() + 1,
        (result == Result::<bool, ErrorCode>::Err(ErrorCode::InvalidProof)) <==> (vk.ic@.len()
            == public_signals@.len() + 1 && !structure_ok(*vk, *proof)),
        (result is Ok) <==> (vk.ic@.len() == public_signals@.len() + 1 && structure_ok(
            *vk,
            *proof,
        )),
        (result matches Ok(valid) ==> valid == groth16_verdict(*vk, *proof, public_signals@)),
{
    if vk.ic.len() == 0 || vk.ic.len() - 1 != public_signals.len() {
        return Err(ErrorCode::InvalidVerificationKey);
    }
    let mut degenerate = g1_is_degenerate(&proof.pi_a) || g2_is_degenerate(&proof.pi_b)
        || g1_is_degenerate(&proof.pi_c) || g1_is_degenerate(&vk.alpha_g1)
        || g2_is_degenerate(&vk.beta_g2) || g2_is_degenerate(&vk.gamma_g2)
        || g2_is_degenerate(&vk.delta_g2);
    let ic_len = vk.ic.len();
    let mut k: usize = 0;
    while k < ic_len
        invariant
            k <= ic_len,
            ic_len == vk.ic@.len(),
            degenerate == (g1_degenerate(proof.pi_a) || g2_degenerate(proof.pi_b)
                || g1_degenerate(proof.pi_c) || g1_degenerate(vk.alpha_g1) || g2_degenerate(
                vk.beta_g2,
            ) || g2_degenerate(vk.gamma_g2) || g2_degenerate(vk.delta_g2) || exists|i: int|
                0 <= i < k && g1_degenerate(#[trigger] vk.ic@[i])),
        decreases ic_len - k,
    {
        if g1_is_degenerate(&vk.ic[k]) {
            degenerate = true;
        }
        k = k + 1;
    }
    if degenerate {
        proof {
            if structure_ok(*vk, *proof) {
                let w = choose|i: int| 0 <= i < vk.ic@.len() && g1_degenerate(#[trigger] vk.ic@[i]);
                assert(!g1_degenerate(vk.ic@[w]));
            }
        }
        return Err(ErrorCode::InvalidProof);
    }
    assert(structure_ok(*vk, *proof));
    let ghost ic_v = g1_views(vk.ic@);
    let ghost sig_v = bytes32_seq_view(public_signals@);
    let mut acc: G1Point = vk.ic[0];
    proof {
        assert(sig_v.skip(0) =~= sig_v);
    }
    let n = public_signals.len();
    let mut i: usize = 0;
    while i < n
        invariant
            i <= n,
            n == public_signals@.len(),
            vk.ic@.len() == n + 1,
            ic_v == g1_views(vk.ic@),
            sig_v == bytes32_seq_view(public_signals@),
            ic_v.len() == n + 1,
            sig_v.len() == n,
            structure_ok(*vk, *proof),
            vk_x_of(ic_v, sig_v) == msm_fold(
                Some(acc@),
                ic_v.skip(i as int + 1),
                sig_v.skip(i as int),
            ),
        decreases n - i,
    {
        let p = vk.ic[i + 1];
        let s = public_signals[i];
        let step = g1_mul_add(&acc, &p, &s);
        proof {
            assert(ic_v.skip(i as int + 1)[0] == ic_v[i as int + 1]);
            assert(ic_v[i as int + 1] == vk.ic@[i as int + 1]@);
            assert(sig_v.skip(i as int)[0] == sig_v[i as int]);
            assert(sig_v[i as int] == public_signals@[i as int]@);
            assert(ic_v.skip(i as int + 1).skip(1) =~= ic_v.skip(i as int + 2));
            assert(sig_v.skip(i as int).skip(1) =~= sig_v.skip(i as int + 1));
        }
        match step {
            Some(q) => {
                acc = q;
            },
            None => {
                proof {
                    lemma_msm_fold_none(ic_v.skip(i as int + 2), sig_v.skip(i as int + 1));
                }
                return Ok(false);
            },
        }
        i = i + 1;
    }
    proof {
        assert(sig_v.skip(i as int).len() == 0);
        assert(vk_x_of(ic_v, sig_v) == Some(acc@));
    }
    let e_ab = pairing_pair(&proof.pi_a, &proof.pi_b);
    let e_alpha_beta = pairing_pair(&vk.alpha_g1, &vk.beta_g2);
    let e_vkx_gamma = pairing_pair(&acc, &vk.gamma_g2);
    let e_c_delta = pairing_pair(&proof.pi_c, &vk.delta_g2);
    let valid = match (e_ab, e_alpha_beta, e_vkx_gamma, e_c_delta) {
        (Some(lhs), Some(t1), Some(t2), Some(t3)) => {
            match gt_combine(&t1, &t2) {
                Some(u) => match gt_combine(&u, &t3) {
                    Some(rhs) => bytes_eq(&lhs, &rhs),
                    None => false,
                },
                None => false,
            }
        },
        _ => false,
    };
    Ok(valid)
}

/// The embedded default key of the spend circuit: a placeholder whose
/// points are all zero, sized for five public signals plus one. Its zero
/// alpha element fails the structural filter, so a settlement verifier
/// initialized with it accepts no proof until a real key is installed.
pub fn get_spend_verification_key() -> (vk: VerificationKey)
    ensures
        vk.ic@.len() == 6,
        vk.alpha_g1.x@ == zero_bytes(),
        vk.alpha_g1@ == zero_bytes() + zero_bytes(),
        vk.beta_g2@ == zero_bytes() + zero_bytes() + zero_bytes() + zero_bytes(),
        vk.gamma_g2@ == zero_bytes() + zero_bytes() + zero_bytes() + zero_bytes(),
        vk.delta_g2@ == zero_bytes() + zero_bytes() + zero_bytes() + zero_bytes(),
        forall|i: int| 0 <= i < 6 ==> (#[trigger] vk.ic@[i])@ == zero_bytes() + zero_bytes(),
{
    let zero = [0u8; 32];
    proof {
        assert(zero@ =~= zero_bytes());
    }
    let zero_g1 = G1Point { x: zero, y: zero };
    let zero_g2 = G2Point { x: [zero; 2], y: [zero; 2] };
    let mut ic: Vec<G1Point> = Vec::new();
    let mut i: usize = 0;
    while i < 6
        invariant
            i <= 6,
            ic@.len() == i,
            zero_g1@ == zero_bytes() + zero_bytes(),
            forall|j: int| 0 <= j < i ==> (#[trigger] ic@[j])@ == zero_bytes() + zero_bytes(),
        decreases 6 - i,
    {
        ic.push(zero_g1);
        i = i + 1;
    }
    VerificationKey { alpha_g1: zero_g1, beta_g2: zero_g2, gamma_g2: zero_g2, delta_g2: zero_g2, ic }
}

} // verus!
