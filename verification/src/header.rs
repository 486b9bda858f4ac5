//! Header compression: a raw header's fourteen canonically-encoded fields
//! are Merkle-hashed in a fixed order; the computed root must equal the hash
//! the header declares.  Compression keeps only that hash, the two
//! proof-bearing leaves (the previous block's id and the data root) and
//! their inclusion proofs, dropping every other field.

use vstd::prelude::*;

use crate::SyncError;
use crate::merkle::MerkleProof;
use crate::merkle::MerkleProofView;
use crate::merkle::build_proof;
use crate::merkle::bytes_eq;
use crate::merkle::compute_root;
use crate::merkle::leaf_digest;
use crate::merkle::leaf_digests;
use crate::merkle::lemma_built_proof_verifies;
use crate::merkle::merkle_root;
use crate::merkle::proof_siblings;
use crate::merkle::reconstruct_root;
use crate::merkle::views;

verus! {

/// A raw block header, opaque to this crate except for its fourteen
/// canonically-encoded fields, listed in the chain's fixed hashing order,
/// and the 32-byte hash it declares for itself.
pub struct RawHeader {
    pub version: Vec<u8>,
    pub chain_id: Vec<u8>,
    pub height: Vec<u8>,
    pub time: Vec<u8>,
    pub last_block_id: Vec<u8>,
    pub last_commit_hash: Vec<u8>,
    pub data_hash: Vec<u8>,
    pub validators_hash: Vec<u8>,
    pub next_validators_hash: Vec<u8>,
    pub consensus_hash: Vec<u8>,
    pub app_hash: Vec<u8>,
    pub last_results_hash: Vec<u8>,
    pub evidence_hash: Vec<u8>,
    pub proposer_address: Vec<u8>,
    pub hash: Vec<u8>,
}

#[verifier::ext_equal]
pub ghost struct RawHeaderView {
    pub version: Seq<u8>,
    pub chain_id: Seq<u8>,
    pub height: Seq<u8>,
    pub time: Seq<u8>,
    pub last_block_id: Seq<u8>,
    pub last_commit_hash: Seq<u8>,
    pub data_hash: Seq<u8>,
    pub validators_hash: Seq<u8>,
    pub next_validators_hash: Seq<u8>,
    pub consensus_hash: Seq<u8>,
    pub app_hash: Seq<u8>,
    pub last_results_hash: Seq<u8>,
    pub evidence_hash: Seq<u8>,
    pub proposer_address: Seq<u8>,
    pub hash: Seq<u8>,
}

impl View for RawHeader {
    type V = RawHeaderView;

    open spec fn view(&self) -> RawHeaderView {
        RawHeaderView {
            version: self.version@,
            chain_id: self.chain_id@,
            height: self.height@,
            time: self.time@,
            last_block_id: self.last_block_id@,
            last_commit_hash: self.last_commit_hash@,
            data_hash: self.data_hash@,
            validators_hash: self.validators_hash@,
            next_validators_hash: self.next_validators_hash@,
            consensus_hash: self.consensus_hash@,
            app_hash: self.app_hash@,
            last_results_hash: self.last_results_hash@,
            evidence_hash: self.evidence_hash@,
            proposer_address: self.proposer_address@,
            hash: self.hash@,
        }
    }
}

/// The index of the previous block's id among the canonical fields.
pub open spec fn last_block_id_index() -> int {
    4
}

/// The index of the data root among the canonical fields.
pub open spec fn data_root_index() -> int {
    6
}

impl RawHeaderView {
    /// The fourteen canonical fields in the chain's fixed hashing order.
    pub open spec fn field_seq(self) -> Seq<Seq<u8>> {
        seq![
            self.version,
            self.chain_id,
            self.height,
            self.time,
            self.last_block_id,
            self.last_commit_hash,
            self.data_hash,
            self.validators_hash,
            self.next_validators_hash,
            self.consensus_hash,
            self.app_hash,
            self.last_results_hash,
            self.evidence_hash,
            self.proposer_address,
        ]
    }

    /// The Merkle root of the canonical fields.
    pub open spec fn computed_root(self) -> Seq<u8> {
        merkle_root(self.field_seq())
    }

    /// Whether the declared hash matches the recomputed root.
    pub open spec fn self_consistent(self) -> bool {
        self.computed_root() == self.hash
    }
}

/// A compressed header: its hash, the two proof-bearing leaves, and their
/// Merkle inclusion proofs.  Nothing else of the raw header survives.
pub struct StrippedHeader {
    pub hash: Vec<u8>,
    pub last_block_id: Vec<u8>,
    pub last_block_id_proof: MerkleProof,
    pub data_root: Vec<u8>,
    pub data_root_proof: MerkleProof,
}

#[verifier::ext_equal]
pub ghost struct StrippedHeaderView {
    pub hash: Seq<u8>,
    pub last_block_id: Seq<u8>,
    pub last_block_id_proof: MerkleProofView,
    pub data_root: Seq<u8>,
    pub data_root_proof: MerkleProofView,
}

impl View for StrippedHeader {
    type V = StrippedHeaderView;

    open spec fn view(&self) -> StrippedHeaderView {
        StrippedHeaderView {
            hash: self.hash@,
            last_block_id: self.last_block_id@,
            last_block_id_proof: self.last_block_id_proof@,
            data_root: self.data_root@,
            data_root_proof: self.data_root_proof@,
        }
    }
}

impl Clone for StrippedHeader {
    fn clone(&self) -> (r: Self)
        ensures
            r@ == self@,
    {
        let r = StrippedHeader {
            hash: self.hash.clone(),
            last_block_id: self.last_block_id.clone(),
            last_block_id_proof: self.last_block_id_proof.clone(),
            data_root: self.data_root.clone(),
            data_root_proof: self.data_root_proof.clone(),
        };
        proof {
            assert(r@ =~= self@);
        }
        r
    }
}

impl StrippedHeaderView {
    /// Both carried proofs replay to the carried hash from their leaves, sit
    /// at the two canonical indices, and name the canonical leaf count.
    pub open spec fn wf(self) -> bool {
        &&& self.hash.len() == 32
        &&& self.last_block_id_proof.wf()
        &&& self.data_root_proof.wf()
        &&& self.last_block_id_proof.index == last_block_id_index()
        &&& self.data_root_proof.index == data_root_index()
        &&& self.last_block_id_proof.total == 14
        &&& self.data_root_proof.total == 14
        &&& reconstruct_root(
            leaf_digest(self.last_block_id),
            self.last_block_id_proof.siblings,
            self.last_block_id_proof.index,
            self.last_block_id_proof.total,
        ) == self.hash
        &&& reconstruct_root(
            leaf_digest(self.data_root),
            self.data_root_proof.siblings,
            self.data_root_proof.index,
            self.data_root_proof.total,
        ) == self.hash
    }
}

/// What `strip_header` returns on a self-consistent header: the declared
/// hash, the two canonical leaves, and their proofs over the field digests.
pub open spec fn stripped_of(h: RawHeaderView) -> StrippedHeaderView {
    StrippedHeaderView {
        hash: h.hash,
        last_block_id: h.last_block_id,
        last_block_id_proof: MerkleProofView {
            siblings: proof_siblings(leaf_digests(h.field_seq()), last_block_id_index()),
            index: last_block_id_index(),
            total: 14,
        },
        data_root: h.data_hash,
        data_root_proof: MerkleProofView {
            siblings: proof_siblings(leaf_digests(h.field_seq()), data_root_index()),
            index: data_root_index(),
            total: 14,
        },
    }
}

/// Compress a raw header: Merkle-hash its fourteen canonical fields, check
/// the computed root against the declared hash, and keep only the hash, the
/// two proof-bearing leaves and their inclusion proofs.  A mismatched root
/// signals a tampered or malformed header and is rejected.
pub fn strip_header(header: &RawHeader) -> (r: Result<StrippedHeader, SyncError>)
    ensures
        r is Ok <==> header@.self_consistent(),
        r matches Ok(s) ==> s@ == stripped_of(header@),
        r matches Ok(s) ==> s@.wf(),
        r is Err ==> r == Err::<StrippedHeader, SyncError>(SyncError::RootMismatch),
{
    let mut leaves: Vec<Vec<u8>> = Vec::new();
    leaves.push(header.version.clone());
    leaves.push(header.chain_id.clone());
    leaves.push(header.height.clone());
    leaves.push(header.time.clone());
    leaves.push(header.last_block_id.clone());
    leaves.push(header.last_commit_hash.clone());
    leaves.push(header.data_hash.clone());
    leaves.push(header.validators_hash.clone());
    leaves.push(header.next_validators_hash.clone());
    leaves.push(header.consensus_hash.clone());
    leaves.push(header.app_hash.clone());
    leaves.push(header.last_results_hash.clone());
    leaves.push(header.evidence_hash.clone());
    leaves.push(header.proposer_address.clone());
    proof {
        assert(views(leaves@) =~= header@.field_seq());
    }
    let root = compute_root(&leaves);
    if !bytes_eq(root.as_slice(), header.hash.as_slice()) {
        return Err(SyncError::RootMismatch);
    }
    let last_block_id_proof = build_proof(&leaves, 4);
    let data_root_proof = build_proof(&leaves, 6);
    let s = StrippedHeader {
        hash: header.hash.clone(),
        last_block_id: header.last_block_id.clone(),
        last_block_id_proof,
        data_root: header.data_hash.clone(),
        data_root_proof,
    };
    proof {
        assert(s@ =~= stripped_of(header@));
        lemma_built_proof_verifies(header@.field_seq(), last_block_id_index());
        lemma_built_proof_verifies(header@.field_seq(), data_root_index());
    }
    Ok(s)
}

} // verus!
