//! Binary Merkle tree over byte leaves, in the shape used by the chain's
//! header hash: leaves in fixed order, an inner node splitting its range at
//! the largest power of two below the range's length, and inclusion proofs
//! that carry one sibling digest per level.
//!
//! The two digest primitives come from the chain's canonical hasher and are
//! left uninterpreted; everything built over them — root computation, proof
//! construction, proof verification, and the round-trip law that a built
//! proof reconstructs the root — is verified.

use vstd::prelude::*;

verus! {

/// Digest of one leaf under the canonical hasher; a function of the leaf
/// bytes alone.
pub uninterp spec fn leaf_digest(data: Seq<u8>) -> Seq<u8>;

/// Digest of an inner node from its two child digests; a function of the
/// children alone.
pub uninterp spec fn node_digest(left: Seq<u8>, right: Seq<u8>) -> Seq<u8>;

/// Relies on `nmt_rs::TmSha2Hasher::hash_leaf` (a domain-separated SHA-256):
/// a 32-byte digest computed from the leaf bytes alone.
#[verifier::external_body]
fn hash_leaf(data: &[u8]) -> (r: Vec<u8>)
    ensures
        r@ == leaf_digest(data@),
        r@.len() == 32,
{
    <nmt_rs::TmSha2Hasher as nmt_rs::simple_merkle::tree::MerkleHash>::hash_leaf(
        &nmt_rs::TmSha2Hasher::new(),
        data,
    ).to_vec()
}

/// Relies on `nmt_rs::TmSha2Hasher::hash_nodes` (a domain-separated SHA-256
/// over the concatenated children): a 32-byte digest computed from the two
/// 32-byte child digests alone.
#[verifier::external_body]
fn hash_nodes(left: &Vec<u8>, right: &Vec<u8>) -> (r: Vec<u8>)
    requires
        left@.len() == 32,
        right@.len() == 32,
    ensures
        r@ == node_digest(left@, right@),
        r@.len() == 32,
{
    let l: [u8; 32] = left.as_slice().try_into().unwrap();
    let r: [u8; 32] = right.as_slice().try_into().unwrap();
    <nmt_rs::TmSha2Hasher as nmt_rs::simple_merkle::tree::MerkleHash>::hash_nodes(
        &nmt_rs::TmSha2Hasher::new(),
        &l,
        &r,
    ).to_vec()
}

/// The views of a sequence of byte vectors.
pub open spec fn views(s: Seq<Vec<u8>>) -> Seq<Seq<u8>> {
    Seq::new(s.len(), |j: int| s[j]@)
}

/// Where an inner node splits a range of `n` leaves: the largest power of
/// two strictly below `n` (for `n <= 2`, one).
pub open spec fn split_point(n: int) -> int
    decreases n,
{
    if n <= 2 {
        1
    } else {
        2 * split_point((n + 1) / 2)
    }
}

pub proof fn lemma_split_point_bounds(n: int)
    requires
        n >= 2,
    ensures
        1 <= split_point(n) < n,
        n <= 2 * split_point(n),
    decreases n,
{
    if n > 2 {
        lemma_split_point_bounds((n + 1) / 2);
    }
}

/// Root of the tree whose leaf digests are `ds`.
pub open spec fn root_of_digests(ds: Seq<Seq<u8>>) -> Seq<u8>
    recommends
        ds.len() >= 1,
    decreases ds.len(),
    via root_of_digests_decreases
{
    if ds.len() <= 1 {
        ds[0]
    } else {
        let k = split_point(ds.len() as int);
        node_digest(
            root_of_digests(ds.subrange(0, k)),
            root_of_digests(ds.subrange(k, ds.len() as int)),
        )
    }
}

#[via_fn]
proof fn root_of_digests_decreases(ds: Seq<Seq<u8>>) {
    if ds.len() > 1 {
        lemma_split_point_bounds(ds.len() as int);
    }
}

/// The digests of a sequence of leaves.
pub open spec fn leaf_digests(leaves: Seq<Seq<u8>>) -> Seq<Seq<u8>> {
    Seq::new(leaves.len(), |j: int| leaf_digest(leaves[j]))
}

/// Merkle root of a sequence of leaves.
pub open spec fn merkle_root(leaves: Seq<Seq<u8>>) -> Seq<u8>
    recommends
        leaves.len() >= 1,
{
    root_of_digests(leaf_digests(leaves))
}

/// Sibling digests of the inclusion proof for leaf `i`, ordered leaf to
/// root.
pub open spec fn proof_siblings(ds: Seq<Seq<u8>>, i: int) -> Seq<Seq<u8>>
    recommends
        ds.len() >= 1,
        0 <= i < ds.len(),
    decreases ds.len(),
    via proof_siblings_decreases
{
    if ds.len() <= 1 {
        Seq::empty()
    } else {
        let k = split_point(ds.len() as int);
        if i < k {
            proof_siblings(ds.subrange(0, k), i)
                .push(root_of_digests(ds.subrange(k, ds.len() as int)))
        } else {
            proof_siblings(ds.subrange(k, ds.len() as int), i - k)
                .push(root_of_digests(ds.subrange(0, k)))
        }
    }
}

#[via_fn]
proof fn proof_siblings_decreases(ds: Seq<Seq<u8>>, i: int) {
    if ds.len() > 1 {
        lemma_split_point_bounds(ds.len() as int);
    }
}

/// The root a verifier reconstructs from a leaf digest `ld`, sibling digests
/// `sibs` (leaf to root), the leaf's index `i` and the tree's leaf count `n`.
/// The count is clamped so the walk stays well defined on malformed proofs;
/// on a proof built for a tree it never clamps.
pub open spec fn reconstruct_root(ld: Seq<u8>, sibs: Seq<Seq<u8>>, i: int, n: int) -> Seq<u8>
    decreases sibs.len(),
{
    if sibs.len() == 0 {
        ld
    } else {
        let k = split_point(n);
        if i < k {
            node_digest(reconstruct_root(ld, sibs.drop_last(), i, k), sibs.last())
        } else {
            let rest = if n - k >= 1 { n - k } else { 1 };
            node_digest(sibs.last(), reconstruct_root(ld, sibs.drop_last(), i - k, rest))
        }
    }
}

/// A proof built for leaf `i` of a tree of digests reconstructs that tree's
/// root.
pub proof fn lemma_proof_round_trip(ds: Seq<Seq<u8>>, i: int)
    requires
        ds.len() >= 1,
        0 <= i < ds.len(),
    ensures
        reconstruct_root(ds[i], proof_siblings(ds, i), i, ds.len() as int)
            == root_of_digests(ds),
    decreases ds.len(),
{
    if ds.len() > 1 {
        let n = ds.len() as int;
        let k = split_point(n);
        lemma_split_point_bounds(n);
        let left = ds.subrange(0, k);
        let right = ds.subrange(k, n);
        if i < k {
            lemma_proof_round_trip(left, i);
            let sub = proof_siblings(left, i);
            let sibs = sub.push(root_of_digests(right));
            assert(sibs.drop_last() =~= sub);
            assert(left[i] == ds[i]);
        } else {
            lemma_proof_round_trip(right, i - k);
            let sub = proof_siblings(right, i - k);
            let sibs = sub.push(root_of_digests(left));
            assert(sibs.drop_last() =~= sub);
            assert(right[i - k] == ds[i]);
            assert(n - k >= 1);
        }
    }
}

/// Compressing a tree and replaying any one of its inclusion proofs against
/// the leaf it was built for reproduces the tree's Merkle root.
pub proof fn lemma_built_proof_verifies(leaves: Seq<Seq<u8>>, i: int)
    requires
        leaves.len() >= 1,
        0 <= i < leaves.len(),
    ensures
        reconstruct_root(
            leaf_digest(leaves[i]),
            proof_siblings(leaf_digests(leaves), i),
            i,
            leaves.len() as int,
        ) == merkle_root(leaves),
{
    lemma_proof_round_trip(leaf_digests(leaves), i);
}

/// A Merkle inclusion proof: the sibling digest at each level from the leaf
/// up, the proved leaf's index, and the tree's leaf count.
pub struct MerkleProof {
    pub siblings: Vec<Vec<u8>>,
    pub index: u64,
    pub total: u64,
}

#[verifier::ext_equal]
pub ghost struct MerkleProofView {
    pub siblings: Seq<Seq<u8>>,
    pub index: int,
    pub total: int,
}

impl MerkleProofView {
    /// Every sibling is a digest of the canonical 32-byte width.
    pub open spec fn wf(self) -> bool {
        forall|j: int| 0 <= j < self.siblings.len() ==> (#[trigger] self.siblings[j]).len() == 32
    }
}

impl View for MerkleProof {
    type V = MerkleProofView;

    open spec fn view(&self) -> MerkleProofView {
        MerkleProofView {
            siblings: views(self.siblings@),
            index: self.index as int,
            total: self.total as int,
        }
    }
}

impl Clone for MerkleProof {
    fn clone(&self) -> (r: Self)
        ensures
            r@ == self@,
    {
        let mut siblings: Vec<Vec<u8>> = Vec::new();
        let mut j: usize = 0;
        while j < self.siblings.len()
            invariant
                j <= self.siblings@.len(),
                siblings@.len() == j,
                forall|t: int| 0 <= t < j ==> (#[trigger] siblings@[t])@ == self.siblings@[t]@,
            decreases self.siblings@.len() - j,
        {
            siblings.push(self.siblings[j].clone());
            j += 1;
        }
        proof {
            assert(views(siblings@) =~= views(self.siblings@));
        }
        let r = MerkleProof { siblings, index: self.index, total: self.total };
        proof {
            assert(r@ =~= self@);
        }
        r
    }
}

/// Whether two byte strings hold the same bytes.
pub fn bytes_eq(a: &[u8], b: &[u8]) -> (r: bool)
    ensures
        r == (a@ == b@),
{
    if a.len() != b.len() {
        return false;
    }
    let mut j: usize = 0;
    while j < a.len()
        invariant
            a@.len() == b@.len(),
            j <= a@.len(),
            forall|t: int| 0 <= t < j ==> a@[t] == b@[t],
        decreases a@.len() - j,
    {
        if a[j] != b[j] {
            return false;
        }
        j += 1;
    }
    proof {
        assert(a@ =~= b@);
    }
    true
}

/// Where an inner node splits a range of `n` leaves.
fn split_point_u(n: u64) -> (r: u64)
    ensures
        r == split_point(n as int),
        r >= 1,
    decreases n,
{
    if n <= 2 {
        1
    } else {
        let m = n / 2 + n % 2;
        proof {
            assert(m == (n + 1) / 2);
            lemma_split_point_bounds(m as int);
        }
        2 * split_point_u(m)
    }
}

/// The digests of the given leaves, in order.
fn hash_leaves(leaves: &Vec<Vec<u8>>) -> (r: Vec<Vec<u8>>)
    ensures
        views(r@) =~= leaf_digests(views(leaves@)),
        r@.len() == leaves@.len(),
        forall|j: int| 0 <= j < r@.len() ==> (#[trigger] r@[j])@.len() == 32,
{
    let mut r: Vec<Vec<u8>> = Vec::new();
    let mut j: usize = 0;
    while j < leaves.len()
        invariant
            j <= leaves@.len(),
            r@.len() == j,
            forall|t: int| 0 <= t < j ==> (#[trigger] r@[t])@ == leaf_digest(leaves@[t]@),
            forall|t: int| 0 <= t < j ==> (#[trigger] r@[t])@.len() == 32,
        decreases leaves@.len() - j,
    {
        let d = hash_leaf(leaves[j].as_slice());
        r.push(d);
        j += 1;
    }
    proof {
        assert(views(r@) =~= leaf_digests(views(leaves@)));
    }
    r
}

/// Root of the subtree over `ds[lo..hi]`.
fn root_from_digests(ds: &Vec<Vec<u8>>, lo: usize, hi: usize) -> (r: Vec<u8>)
    requires
        lo < hi <= ds@.len(),
        forall|j: int| 0 <= j < ds@.len() ==> (#[trigger] ds@[j])@.len() == 32,
    ensures
        r@ == root_of_digests(views(ds@).subrange(lo as int, hi as int)),
        r@.len() == 32,
    decreases hi - lo,
{
    let ghost range = views(ds@).subrange(lo as int, hi as int);
    if hi - lo == 1 {
        proof {
            assert(range[0] == ds@[lo as int]@);
        }
        ds[lo].clone()
    } else {
        let k = split_point_u((hi - lo) as u64);
        proof {
            lemma_split_point_bounds(hi - lo);
        }
        let k = k as usize;
        let left = root_from_digests(ds, lo, lo + k);
        let right = root_from_digests(ds, lo + k, hi);
        proof {
            assert(views(ds@).subrange(lo as int, lo + k) =~= range.subrange(0, k as int));
            assert(views(ds@).subrange(lo + k, hi as int) =~= range.subrange(
                k as int,
                range.len() as int,
            ));
        }
        hash_nodes(&left, &right)
    }
}

/// Sibling digests of the inclusion proof for `ds[i]` within `ds[lo..hi]`,
/// ordered leaf to root.
fn siblings_from_digests(ds: &Vec<Vec<u8>>, lo: usize, hi: usize, i: usize) -> (r: Vec<Vec<u8>>)
    requires
        lo <= i < hi <= ds@.len(),
        forall|j: int| 0 <= j < ds@.len() ==> (#[trigger] ds@[j])@.len() == 32,
    ensures
        views(r@) =~= proof_siblings(views(ds@).subrange(lo as int, hi as int), i - lo),
        forall|j: int| 0 <= j < r@.len() ==> (#[trigger] r@[j])@.len() == 32,
    decreases hi - lo,
{
    let ghost range = views(ds@).subrange(lo as int, hi as int);
    if hi - lo == 1 {
        Vec::new()
    } else {
        let k = split_point_u((hi - lo) as u64);
        proof {
            lemma_split_point_bounds(hi - lo);
        }
        let k = k as usize;
        proof {
            assert(views(ds@).subrange(lo as int, lo + k) =~= range.subrange(0, k as int));
            assert(views(ds@).subrange(lo + k, hi as int) =~= range.subrange(
                k as int,
                range.len() as int,
            ));
        }
        if i - lo < k {
            let mut sibs = siblings_from_digests(ds, lo, lo + k, i);
            let sib = root_from_digests(ds, lo + k, hi);
            sibs.push(sib);
            proof {
                assert(views(sibs@) =~= proof_siblings(range, i - lo));
            }
            sibs
        } else {
            let mut sibs = siblings_from_digests(ds, lo + k, hi, i);
            let sib = root_from_digests(ds, lo, lo + k);
            sibs.push(sib);
            proof {
                assert(views(sibs@) =~= proof_siblings(range, i - lo));
            }
            sibs
        }
    }
}

/// Merkle root over the given leaves.
pub fn compute_root(leaves: &Vec<Vec<u8>>) -> (r: Vec<u8>)
    requires
        leaves@.len() >= 1,
    ensures
        r@ == merkle_root(views(leaves@)),
        r@.len() == 32,
{
    let ds = hash_leaves(leaves);
    let r = root_from_digests(&ds, 0, ds.len());
    proof {
        assert(views(ds@).subrange(0, ds@.len() as int) =~= views(ds@));
    }
    r
}

/// Inclusion proof for leaf `i` of the given leaves.
pub fn build_proof(leaves: &Vec<Vec<u8>>, i: usize) -> (p: MerkleProof)
    requires
        1 <= leaves@.len() <= u64::MAX,
        i < leaves@.len(),
    ensures
        p@.siblings == proof_siblings(leaf_digests(views(leaves@)), i as int),
        p@.index == i as int,
        p@.total == leaves@.len(),
        p@.wf(),
{
    let ds = hash_leaves(leaves);
    let sibs = siblings_from_digests(&ds, 0, ds.len(), i);
    proof {
        assert(views(ds@).subrange(0, ds@.len() as int) =~= views(ds@));
        assert(views(sibs@) == proof_siblings(leaf_digests(views(leaves@)), i as int));
    }
    MerkleProof { siblings: sibs, index: i as u64, total: leaves.len() as u64 }
}

/// The root reconstructed from a leaf digest and the first `m` siblings.
fn reconstruct_exec(ld: &Vec<u8>, sibs: &Vec<Vec<u8>>, m: usize, i: u64, n: u64) -> (r: Vec<u8>)
    requires
        ld@.len() == 32,
        m <= sibs@.len(),
        forall|j: int| 0 <= j < sibs@.len() ==> (#[trigger] sibs@[j])@.len() == 32,
    ensures
        r@ == reconstruct_root(ld@, views(sibs@).take(m as int), i as int, n as int),
        r@.len() == 32,
    decreases m,
{
    if m == 0 {
        proof {
            assert(views(sibs@).take(0) =~= Seq::<Seq<u8>>::empty());
        }
        ld.clone()
    } else {
        let ghost used = views(sibs@).take(m as int);
        let k = split_point_u(n);
        let sib = &sibs[m - 1];
        proof {
            assert(used.drop_last() =~= views(sibs@).take(m - 1));
            assert(used.last() == sibs@[m - 1]@);
        }
        if i < k {
            let left = reconstruct_exec(ld, sibs, m - 1, i, k);
            hash_nodes(&left, sib)
        } else {
            let rest: u64 = if n > k {
                n - k
            } else {
                1
            };
            let right = reconstruct_exec(ld, sibs, m - 1, i - k, rest);
            hash_nodes(sib, &right)
        }
    }
}

/// Whether `proof` proves that the leaf with bytes `leaf` sits at
/// `proof.index` in the tree with root `root`: the reconstructed root is
/// compared to the given one.
pub fn verify_inclusion(leaf: &[u8], proof: &MerkleProof, root: &[u8]) -> (r: bool)
    requires
        proof@.wf(),
    ensures
        r == (reconstruct_root(
            leaf_digest(leaf@),
            proof@.siblings,
            proof@.index,
            proof@.total,
        ) == root@),
{
    proof {
        assert forall|j: int|
            0 <= j < proof.siblings@.len() implies (#[trigger] proof.siblings@[j])@.len()
            == 32 by {
            assert(proof@.siblings[j] == proof.siblings@[j]@);
        }
    }
    let ld = hash_leaf(leaf);
    let reconstructed = reconstruct_exec(
        &ld,
        &proof.siblings,
        proof.siblings.len(),
        proof.index,
        proof.total,
    );
    proof {
        assert(views(proof.siblings@).take(proof.siblings@.len() as int) =~= views(
            proof.siblings@,
        ));
    }
    bytes_eq(reconstructed.as_slice(), root)
}

} // verus!
