use nmt_rs::simple_merkle::db::MemDb;
use nmt_rs::simple_merkle::tree::MerkleTree;
use nmt_rs::TmSha2Hasher;

use tia_sync::header::strip_header;
use tia_sync::header::RawHeader;
use tia_sync::merkle::verify_inclusion;
use tia_sync::SyncError;

fn field_bytes(tag: u8) -> Vec<u8> {
    vec![tag, tag.wrapping_mul(3), tag.wrapping_add(17), 0x42]
}

fn sample_fields() -> Vec<Vec<u8>> {
    (0u8..14).map(field_bytes).collect()
}

fn reference_root(leaves: &[Vec<u8>]) -> Vec<u8> {
    let mut tree: MerkleTree<MemDb<[u8; 32]>, TmSha2Hasher> =
        MerkleTree::with_hasher(TmSha2Hasher {});
    for leaf in leaves {
        tree.push_raw_leaf(leaf);
    }
    tree.root().to_vec()
}

fn header_from(fields: &[Vec<u8>], hash: Vec<u8>) -> RawHeader {
    RawHeader {
        version: fields[0].clone(),
        chain_id: fields[1].clone(),
        height: fields[2].clone(),
        time: fields[3].clone(),
        last_block_id: fields[4].clone(),
        last_commit_hash: fields[5].clone(),
        data_hash: fields[6].clone(),
        validators_hash: fields[7].clone(),
        next_validators_hash: fields[8].clone(),
        consensus_hash: fields[9].clone(),
        app_hash: fields[10].clone(),
        last_results_hash: fields[11].clone(),
        evidence_hash: fields[12].clone(),
        proposer_address: fields[13].clone(),
        hash,
    }
}

pub fn sample_header() -> RawHeader {
    let fields = sample_fields();
    let root = reference_root(&fields);
    header_from(&fields, root)
}

#[test]
fn stripping_a_consistent_header_yields_its_root() {
    let fields = sample_fields();
    let root = reference_root(&fields);
    let header = header_from(&fields, root.clone());
    let stripped = strip_header(&header).expect("consistent header must strip");
    assert_eq!(stripped.hash, root);
    assert_eq!(stripped.last_block_id, fields[4]);
    assert_eq!(stripped.data_root, fields[6]);
}

#[test]
fn stripped_proofs_replay_to_the_declared_hash() {
    let header = sample_header();
    let stripped = strip_header(&header).expect("consistent header must strip");
    assert_eq!(stripped.last_block_id_proof.index, 4);
    assert_eq!(stripped.last_block_id_proof.total, 14);
    assert_eq!(stripped.data_root_proof.index, 6);
    assert_eq!(stripped.data_root_proof.total, 14);
    assert!(verify_inclusion(
        &stripped.last_block_id,
        &stripped.last_block_id_proof,
        &stripped.hash,
    ));
    assert!(verify_inclusion(
        &stripped.data_root,
        &stripped.data_root_proof,
        &stripped.hash,
    ));
}

#[test]
fn mutating_any_field_is_rejected() {
    let fields = sample_fields();
    let root = reference_root(&fields);
    for i in 0..14 {
        let mut mutated = fields.clone();
        mutated[i][0] ^= 0x01;
        let header = header_from(&mutated, root.clone());
        assert!(
            matches!(strip_header(&header), Err(SyncError::RootMismatch)),
            "field {} mutated but header accepted",
            i
        );
    }
}

#[test]
fn wrong_declared_hash_is_rejected() {
    let fields = sample_fields();
    let mut root = reference_root(&fields);
    root[0] ^= 0xff;
    let header = header_from(&fields, root);
    assert!(matches!(strip_header(&header), Err(SyncError::RootMismatch)));
}
