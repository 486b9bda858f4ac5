use nmt_rs::simple_merkle::db::MemDb;
use nmt_rs::simple_merkle::tree::MerkleTree;
use nmt_rs::TmSha2Hasher;

use tia_sync::merkle::build_proof;
use tia_sync::merkle::compute_root;
use tia_sync::merkle::verify_inclusion;

fn reference_root(leaves: &[Vec<u8>]) -> Vec<u8> {
    let mut tree: MerkleTree<MemDb<[u8; 32]>, TmSha2Hasher> =
        MerkleTree::with_hasher(TmSha2Hasher {});
    for leaf in leaves {
        tree.push_raw_leaf(leaf);
    }
    tree.root().to_vec()
}

fn sample_leaves(n: usize) -> Vec<Vec<u8>> {
    (0..n)
        .map(|i| vec![i as u8, (i * 7 + 3) as u8, (i * 31) as u8])
        .collect()
}

#[test]
fn root_matches_reference_tree() {
    for n in 1..=16 {
        let leaves = sample_leaves(n);
        let ours = compute_root(&leaves);
        let theirs = reference_root(&leaves);
        assert_eq!(ours, theirs, "root differs at {} leaves", n);
    }
}

#[test]
fn root_depends_on_leaf_bytes() {
    let leaves = sample_leaves(14);
    let root = compute_root(&leaves);
    let mut mutated = leaves.clone();
    mutated[5][0] ^= 0x01;
    let other = compute_root(&mutated);
    assert_ne!(root, other);
}

#[test]
fn built_proofs_verify_against_root() {
    for n in 1..=14 {
        let leaves = sample_leaves(n);
        let root = compute_root(&leaves);
        for i in 0..n {
            let proof = build_proof(&leaves, i);
            assert_eq!(proof.index, i as u64);
            assert_eq!(proof.total, n as u64);
            assert!(verify_inclusion(&leaves[i], &proof, &root));
        }
    }
}

#[test]
fn mutated_leaf_fails_verification() {
    let leaves = sample_leaves(14);
    let root = compute_root(&leaves);
    let proof = build_proof(&leaves, 4);
    let mut wrong = leaves[4].clone();
    wrong[0] ^= 0xff;
    assert!(!verify_inclusion(&wrong, &proof, &root));
}

#[test]
fn wrong_root_fails_verification() {
    let leaves = sample_leaves(14);
    let mut root = compute_root(&leaves);
    let proof = build_proof(&leaves, 6);
    root[31] ^= 0x80;
    assert!(!verify_inclusion(&leaves[6], &proof, &root));
}

#[test]
fn proof_for_wrong_index_fails_verification() {
    let leaves = sample_leaves(14);
    let root = compute_root(&leaves);
    let proof = build_proof(&leaves, 4);
    assert!(!verify_inclusion(&leaves[6], &proof, &root));
}
