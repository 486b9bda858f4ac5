use nmt_rs::simple_merkle::db::MemDb;
use nmt_rs::simple_merkle::tree::MerkleTree;
use nmt_rs::TmSha2Hasher;

use tia_sync::codec::decode_stripped_header;
use tia_sync::codec::encode_stripped_header;
use tia_sync::header::strip_header;
use tia_sync::header::RawHeader;
use tia_sync::header::StrippedHeader;
use tia_sync::SyncError;

fn sample_stripped() -> StrippedHeader {
    let fields: Vec<Vec<u8>> = (0u8..14)
        .map(|t| vec![t, t.wrapping_mul(5), t.wrapping_add(9)])
        .collect();
    let mut tree: MerkleTree<MemDb<[u8; 32]>, TmSha2Hasher> =
        MerkleTree::with_hasher(TmSha2Hasher {});
    for leaf in &fields {
        tree.push_raw_leaf(leaf);
    }
    let header = RawHeader {
        version: fields[0].clone(),
        chain_id: fields[1].clone(),
        height: fields[2].clone(),
        time: fields[3].clone(),
        last_block_id: fields[4].clone(),
        last_commit_hash: fields[5].clone(),
        data_hash: fields[6].clone(),
        validators_hash: fields[7].clone(),
        next_validators_hash: fields[8].clone(),
        consensus_hash: fields[9].clone(),
        app_hash: fields[10].clone(),
        last_results_hash: fields[11].clone(),
        evidence_hash: fields[12].clone(),
        proposer_address: fields[13].clone(),
        hash: tree.root().to_vec(),
    };
    strip_header(&header).expect("consistent header must strip")
}

#[test]
fn encode_then_decode_is_identity() {
    let stripped = sample_stripped();
    let bytes = encode_stripped_header(&stripped);
    let decoded = decode_stripped_header(&bytes).expect("own encoding must decode");
    assert_eq!(decoded.hash, stripped.hash);
    assert_eq!(decoded.last_block_id, stripped.last_block_id);
    assert_eq!(decoded.data_root, stripped.data_root);
    assert_eq!(
        decoded.last_block_id_proof.siblings,
        stripped.last_block_id_proof.siblings
    );
    assert_eq!(decoded.last_block_id_proof.index, 4);
    assert_eq!(decoded.last_block_id_proof.total, 14);
    assert_eq!(
        decoded.data_root_proof.siblings,
        stripped.data_root_proof.siblings
    );
    assert_eq!(decoded.data_root_proof.index, 6);
    assert_eq!(decoded.data_root_proof.total, 14);
}

#[test]
fn truncated_frame_is_malformed() {
    let stripped = sample_stripped();
    let bytes = encode_stripped_header(&stripped);
    for cut in [0usize, 1, 8, bytes.len() / 2, bytes.len() - 1] {
        assert!(matches!(
            decode_stripped_header(&bytes[..cut]),
            Err(SyncError::Malformed)
        ));
    }
}

#[test]
fn trailing_bytes_are_malformed() {
    let stripped = sample_stripped();
    let mut bytes = encode_stripped_header(&stripped);
    bytes.push(0);
    assert!(matches!(
        decode_stripped_header(&bytes),
        Err(SyncError::Malformed)
    ));
}

#[test]
fn tampered_hash_is_malformed() {
    let stripped = sample_stripped();
    let mut bytes = encode_stripped_header(&stripped);
    // The first framed field is the 32-byte hash; flip a byte inside it so
    // the carried proofs no longer replay to it.
    bytes[8] ^= 0x01;
    assert!(matches!(
        decode_stripped_header(&bytes),
        Err(SyncError::Malformed)
    ));
}
