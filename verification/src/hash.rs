//! The hash primitive for accumulator nodes: SHA-256 over the two child
//! hashes followed by a fixed domain-separation tag.

use vstd::prelude::*;

verus! {

/// The 32-byte digest that SHA-256 assigns to a byte string. The digest is a
/// function of the input bytes alone; nothing else is assumed of its value.
pub uninterp spec fn sha256_of(bytes: Seq<u8>) -> Seq<u8>;

/// Relies on sha2's `Sha256` (through its `Digest` interface): the digest is
/// 32 bytes and depends on the input bytes alone.
#[verifier::external_body]
pub(crate) fn sha256(data: &[u8]) -> (digest: [u8; 32])
    ensures
        digest@ == sha256_of(data@),
{
    let d = <sha2::Sha256 as sha2::Digest>::digest(data);
    let mut out = [0u8; 32];
    out.copy_from_slice(&d);
    out
}

/// The domain-separation tag appended to every node preimage, the ASCII
/// bytes of `MERKLE_TREE_HASH`.
pub open spec fn domain_tag() -> Seq<u8> {
    seq![
        77u8, 69u8, 82u8, 75u8, 76u8, 69u8, 95u8, 84u8, 82u8, 69u8, 69u8, 95u8, 72u8, 65u8,
        83u8, 72u8,
    ]
}

/// The hash of an interior accumulator node from its two children.
pub open spec fn node_hash(left: Seq<u8>, right: Seq<u8>) -> Seq<u8> {
    sha256_of(left + right + domain_tag())
}

/// The all-zero leaf standing for an empty slot.
pub open spec fn zero_bytes() -> Seq<u8> {
    Seq::new(32, |i: int| 0u8)
}

/// The hash of a complete subtree of empty slots, by level: the all-zero
/// leaf at level zero, then each level the node hash of two copies of the
/// level below.
pub open spec fn zeros_at(level: nat) -> Seq<u8>
    decreases level,
{
    if level == 0 {
        zero_bytes()
    } else {
        node_hash(zeros_at((level - 1) as nat), zeros_at((level - 1) as nat))
    }
}

/// Combines two 32-byte nodes into their parent hash.
pub fn hash_pair(left: &[u8; 32], right: &[u8; 32]) -> (digest: [u8; 32])
    ensures
        digest@ == node_hash(left@, right@),
{
    let mut buf: Vec<u8> = Vec::new();
    let mut i: usize = 0;
    while i < 32
        invariant
            i <= 32,
            buf@ == left@.take(i as int),
        decreases 32 - i,
    {
        buf.push(left[i]);
        i = i + 1;
    }
    assert(buf@ == left@);
    i = 0;
    while i < 32
        invariant
            i <= 32,
            buf@ == left@ + right@.take(i as int),
        decreases 32 - i,
    {
        buf.push(right[i]);
        i = i + 1;
    }
    buf.push(77u8);
    buf.push(69u8);
    buf.push(82u8);
    buf.push(75u8);
    buf.push(76u8);
    buf.push(69u8);
    buf.push(95u8);
    buf.push(84u8);
    buf.push(82u8);
    buf.push(69u8);
    buf.push(69u8);
    buf.push(95u8);
    buf.push(72u8);
    buf.push(65u8);
    buf.push(83u8);
    buf.push(72u8);
    assert(buf@ =~= left@ + right@ + domain_tag());
    sha256(buf.as_slice())
}

/// The views of a sequence of 32-byte values.
pub open spec fn bytes32_seq_view(s: Seq<[u8; 32]>) -> Seq<Seq<u8>> {
    s.map_values(|a: [u8; 32]| a@)
}

/// Byte-wise equality of two 32-byte values.
pub fn bytes32_eq(a: &[u8; 32], b: &[u8; 32]) -> (eq: bool)
    ensures
        eq == (a@ == b@),
{
    let mut i: usize = 0;
    while i < 32
        invariant
            i <= 32,
            forall|j: int| 0 <= j < i ==> a@[j] == b@[j],
        decreases 32 - i,
    {
        if a[i] != b[i] {
            return false;
        }
        i = i + 1;
    }
    assert(a@ =~= b@);
    true
}

/// Byte-wise equality of two byte vectors.
pub fn bytes_eq(a: &Vec<u8>, b: &Vec<u8>) -> (eq: bool)
    ensures
        eq == (a@ == b@),
{
    if a.len() != b.len() {
        return false;
    }
    let n = a.len();
    let mut i: usize = 0;
    while i < n
        invariant
            i <= n,
            n == a@.len() == b@.len(),
            forall|j: int| 0 <= j < i ==> a@[j] == b@[j],
        decreases n - i,
    {
        if a[i] != b[i] {
            return false;
        }
        i = i + 1;
    }
    assert(a@ =~= b@);
    true
}

} // verus!
