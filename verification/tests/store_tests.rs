use std::collections::HashMap;

use nmt_rs::simple_merkle::db::MemDb;
use nmt_rs::simple_merkle::tree::MerkleTree;
use nmt_rs::TmSha2Hasher;

use tia_sync::codec::decode_stripped_header;
use tia_sync::codec::encode_stripped_header;
use tia_sync::header::strip_header;
use tia_sync::header::RawHeader;
use tia_sync::header::StrippedHeader;
use tia_sync::store::get_eds_key;
use tia_sync::store::get_stripped_header_key;
use tia_sync::store::KvOp;
use tia_sync::store::WindowStore;
use tia_sync::SyncError;

fn stripped_for(seed: u8) -> StrippedHeader {
    let fields: Vec<Vec<u8>> = (0u8..14)
        .map(|t| vec![seed, t, t.wrapping_mul(11)])
        .collect();
    let mut tree: MerkleTree<MemDb<[u8; 32]>, TmSha2Hasher> =
        MerkleTree::with_hasher(TmSha2Hasher {});
    for leaf in &fields {
        tree.push_raw_leaf(leaf);
    }
    let header = RawHeader {
        version: fields[0].clone(),
        chain_id: fields[1].clone(),
        height: fields[2].clone(),
        time: fields[3].clone(),
        last_block_id: fields[4].clone(),
        last_commit_hash: fields[5].clone(),
        data_hash: fields[6].clone(),
        validators_hash: fields[7].clone(),
        next_validators_hash: fields[8].clone(),
        consensus_hash: fields[9].clone(),
        app_hash: fields[10].clone(),
        last_results_hash: fields[11].clone(),
        evidence_hash: fields[12].clone(),
        proposer_address: fields[13].clone(),
        hash: tree.root().to_vec(),
    };
    strip_header(&header).expect("consistent header must strip")
}

fn eds_for(seed: u8) -> Vec<u8> {
    vec![seed, seed.wrapping_add(1), seed.wrapping_add(2)]
}

fn window_10_to_12() -> WindowStore {
    WindowStore::from_parts(
        10,
        12,
        vec![stripped_for(10), stripped_for(11), stripped_for(12)],
        vec![eds_for(10), eds_for(11), eds_for(12)],
    )
    .expect("contiguous parts must build")
}

fn apply(img: &mut HashMap<Vec<u8>, Vec<u8>>, ops: &[KvOp]) {
    for op in ops {
        match op {
            KvOp::Put { key, value } => {
                img.insert(key.clone(), value.clone());
            }
            KvOp::Delete { key } => {
                img.remove(key);
            }
        }
    }
}

#[test]
fn keys_are_tag_plus_little_endian_height() {
    let h: u64 = 0x0102030405060708;
    let expected_header = [b"stripped_header".to_vec(), h.to_le_bytes().to_vec()].concat();
    let expected_eds = [b"eds".to_vec(), h.to_le_bytes().to_vec()].concat();
    assert_eq!(get_stripped_header_key(h), expected_header);
    assert_eq!(get_eds_key(h), expected_eds);
}

#[test]
fn three_records_slide() {
    let mut store = window_10_to_12();
    let ops = store
        .advance_high(13, stripped_for(13), eds_for(13))
        .expect("adjacent height must be accepted");
    assert_eq!(store.lowest, 11);
    assert_eq!(store.highest, 13);
    assert!(store.header_at(10).is_none());
    assert!(store.eds_at(10).is_none());
    for h in 11..=13u64 {
        assert!(store.header_at(h).is_some(), "missing header at {}", h);
        assert!(store.eds_at(h).is_some(), "missing payload at {}", h);
    }
    assert!(store.header_at(14).is_none());
    assert_eq!(store.header_at(13).unwrap().hash, stripped_for(13).hash);
    assert_eq!(store.eds_at(13).unwrap(), eds_for(13));
    assert_eq!(ops.len(), 6);
}

#[test]
fn advance_keeps_the_span() {
    let mut store = window_10_to_12();
    for h in 13..=20u64 {
        store
            .advance_high(h, stripped_for(h as u8), eds_for(h as u8))
            .expect("adjacent height must be accepted");
        assert_eq!(store.highest - store.lowest + 1, 3);
        assert_eq!(store.lowest, h - 2);
    }
}

#[test]
fn advance_rejects_nonadjacent_height() {
    let mut store = window_10_to_12();
    for bad in [10u64, 12, 14, 100] {
        match store.advance_high(bad, stripped_for(0), eds_for(0)) {
            Err(SyncError::Desync { expected, got }) => {
                assert_eq!(expected, 13);
                assert_eq!(got, bad);
            }
            _ => panic!("height {} must be rejected", bad),
        }
        assert_eq!(store.lowest, 10);
        assert_eq!(store.highest, 12);
        assert!(store.header_at(10).is_some());
    }
}

#[test]
fn backfill_extends_without_evicting() {
    let mut store = window_10_to_12();
    store
        .backfill(13, stripped_for(13), eds_for(13))
        .expect("adjacent height must be accepted");
    assert_eq!(store.lowest, 10);
    assert_eq!(store.highest, 13);
    for h in 10..=13u64 {
        assert!(store.header_at(h).is_some());
        assert!(store.eds_at(h).is_some());
    }
}

#[test]
fn backfill_rejects_nonadjacent_height() {
    let mut store = window_10_to_12();
    match store.backfill(15, stripped_for(15), eds_for(15)) {
        Err(SyncError::Desync { expected, got }) => {
            assert_eq!(expected, 13);
            assert_eq!(got, 15);
        }
        _ => panic!("gap must be rejected"),
    }
    assert_eq!(store.highest, 12);
}

#[test]
fn init_seeds_a_one_height_window() {
    let (store, ops) = WindowStore::init(5, stripped_for(5), eds_for(5));
    assert_eq!(store.lowest, 5);
    assert_eq!(store.highest, 5);
    assert!(store.header_at(5).is_some());
    assert!(store.header_at(4).is_none());
    assert!(store.header_at(6).is_none());
    assert_eq!(ops.len(), 4);
}

#[test]
fn from_parts_rejects_mismatched_lengths() {
    assert!(matches!(
        WindowStore::from_parts(10, 12, vec![stripped_for(10)], vec![eds_for(10)]),
        Err(SyncError::Malformed)
    ));
    assert!(matches!(
        WindowStore::from_parts(12, 10, vec![], vec![]),
        Err(SyncError::Malformed)
    ));
}

#[test]
fn advance_batch_holds_the_whole_transition() {
    let mut store = window_10_to_12();
    let new = stripped_for(13);
    let ops = store
        .advance_high(13, new.clone(), eds_for(13))
        .expect("adjacent height must be accepted");
    match &ops[0] {
        KvOp::Delete { key } => assert_eq!(*key, get_eds_key(10)),
        _ => panic!("first op must evict the oldest payload"),
    }
    match &ops[1] {
        KvOp::Delete { key } => assert_eq!(*key, get_stripped_header_key(10)),
        _ => panic!("second op must evict the oldest header"),
    }
    match &ops[2] {
        KvOp::Put { key, value } => {
            assert_eq!(key.as_slice(), b"lowest_saved_head");
            assert_eq!(*value, 11u64.to_le_bytes().to_vec());
        }
        _ => panic!("third op must move the lower boundary"),
    }
    match &ops[3] {
        KvOp::Put { key, value } => {
            assert_eq!(*key, get_eds_key(13));
            assert_eq!(*value, eds_for(13));
        }
        _ => panic!("fourth op must write the new payload"),
    }
    match &ops[4] {
        KvOp::Put { key, value } => {
            assert_eq!(*key, get_stripped_header_key(13));
            assert_eq!(*value, encode_stripped_header(&new));
        }
        _ => panic!("fifth op must write the new header"),
    }
    match &ops[5] {
        KvOp::Put { key, value } => {
            assert_eq!(key.as_slice(), b"highest_saved_head");
            assert_eq!(*value, 13u64.to_le_bytes().to_vec());
        }
        _ => panic!("sixth op must move the upper boundary"),
    }
}

#[test]
fn aborted_batch_leaves_the_image_unchanged() {
    // Build the persisted image of a three-height window by committing the
    // seeding batch and two catch-up batches.
    let mut img: HashMap<Vec<u8>, Vec<u8>> = HashMap::new();
    let (mut store, ops) = WindowStore::init(10, stripped_for(10), eds_for(10));
    apply(&mut img, &ops);
    for h in 11..=12u64 {
        let ops = store
            .backfill(h, stripped_for(h as u8), eds_for(h as u8))
            .expect("adjacent height must be accepted");
        apply(&mut img, &ops);
    }
    let snapshot = img.clone();

    // A slide is prepared but its batch is dropped before commit: the
    // simulated crash.  The image is bit-for-bit what it was.
    let mut scratch = WindowStore::from_parts(
        10,
        12,
        vec![stripped_for(10), stripped_for(11), stripped_for(12)],
        vec![eds_for(10), eds_for(11), eds_for(12)],
    )
    .expect("contiguous parts must build");
    let aborted = scratch
        .advance_high(13, stripped_for(13), eds_for(13))
        .expect("adjacent height must be accepted");
    assert_eq!(img, snapshot);

    // Restart: the store rebuilt from the image is the pre-crash window.
    let lo = u64::from_le_bytes(
        img[b"lowest_saved_head".as_slice()]
            .clone()
            .try_into()
            .unwrap(),
    );
    let hi = u64::from_le_bytes(
        img[b"highest_saved_head".as_slice()]
            .clone()
            .try_into()
            .unwrap(),
    );
    assert_eq!((lo, hi), (10, 12));
    let mut headers = Vec::new();
    let mut eds = Vec::new();
    for h in lo..=hi {
        headers.push(decode_stripped_header(&img[&get_stripped_header_key(h)]).unwrap());
        eds.push(img[&get_eds_key(h)].clone());
    }
    let rebuilt = WindowStore::from_parts(lo, hi, headers, eds).unwrap();
    assert_eq!(rebuilt.lowest, 10);
    assert_eq!(rebuilt.highest, 12);
    assert_eq!(rebuilt.header_at(12).unwrap().hash, stripped_for(12).hash);

    // Committing the same batch does change the image.
    apply(&mut img, &aborted);
    assert_ne!(img, snapshot);
    assert!(!img.contains_key(&get_eds_key(10)));
    assert!(img.contains_key(&get_eds_key(13)));
}
