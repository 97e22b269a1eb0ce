use dhads_sync::clock::VectorClock;
use dhads_sync::codec::canonical_bytes;
use dhads_sync::conflict::{hash_below, resolve_conflicts};
use dhads_sync::crypto::calculate_record_hash;
use dhads_sync::ledger::{select_latest, Ledger, Received, SyncError};
use dhads_sync::models::{BlockLink, SyncBlock, SyncRecord, SyncRecordType};
use dhads_sync::sync::Service;

fn block(id: u128, prev: BlockLink, timestamp: i64) -> SyncBlock {
    SyncBlock {
        id,
        previous_hash: prev,
        timestamp,
        node_id: 5,
        sequence: 1,
        records: vec![],
        signature: vec![],
    }
}

fn record(kind: SyncRecordType, data: Vec<u8>) -> SyncRecord {
    let hash = calculate_record_hash(&data);
    SyncRecord { record_type: kind, data, hash }
}

#[test]
fn record_hash_is_blake3_of_payload() {
    let h = calculate_record_hash(&vec![]);
    let expected: Vec<u8> = vec![
        0xaf, 0x13, 0x49, 0xb9, 0xf5, 0xf9, 0xa1, 0xa6, 0xa0, 0x40, 0x4d, 0xea, 0x36, 0xdc, 0xc9,
        0x49, 0x9b, 0xcb, 0x25, 0xc9, 0xad, 0xc1, 0x12, 0xb7, 0xcc, 0x9a, 0x93, 0xca, 0xe4, 0x1f,
        0x32, 0x62,
    ];
    assert_eq!(h, expected);
    assert_eq!(calculate_record_hash(&vec![1, 2, 3]).len(), 32);
    assert_ne!(calculate_record_hash(&vec![1, 2, 3]), vec![1, 2, 3]);
}

#[test]
fn clock_merge_takes_maximum() {
    let mut a = VectorClock::new();
    let mut b = VectorClock::new();
    a.observe(1, 3);
    a.observe(2, 7);
    b.observe(2, 4);
    b.observe(3, 9);
    assert!(!a.covers(&b));
    a.merge(&b);
    assert_eq!(a.get(1), 3);
    assert_eq!(a.get(2), 7);
    assert_eq!(a.get(3), 9);
    assert_eq!(a.get(4), 0);
    assert!(a.covers(&b));
    assert!(!b.covers(&a));
}

#[test]
fn clock_observe_never_lowers() {
    let mut c = VectorClock::new();
    c.observe(8, 5);
    c.observe(8, 2);
    assert_eq!(c.get(8), 5);
    c.advance(8);
    assert_eq!(c.get(8), 6);
    c.observe(9, u64::MAX);
    c.advance(9);
    assert_eq!(c.get(9), u64::MAX);
}

#[test]
fn conflict_winner_is_order_independent() {
    let r1 = record(SyncRecordType::AidDistribution, vec![1]);
    let r2 = record(SyncRecordType::AidDistribution, vec![2]);
    let w12 = resolve_conflicts(&r1, &r2);
    let w21 = resolve_conflicts(&r2, &r1);
    assert_eq!(w12.hash, w21.hash);
    assert_eq!(w12.data, w21.data);
    let greater = if hash_below(&r1.hash, &r2.hash) { &r2 } else { &r1 };
    assert_eq!(w12.hash, greater.hash);
}

#[test]
fn byte_order_is_lexicographic() {
    assert!(hash_below(&vec![0, 255], &vec![1, 0]));
    assert!(!hash_below(&vec![1, 0], &vec![0, 255]));
    assert!(!hash_below(&vec![3, 3], &vec![3, 3]));
    assert!(hash_below(&vec![3], &vec![3, 0]));
    assert!(hash_below(&vec![], &vec![0]));
}

#[test]
fn equal_digests_keep_the_remote_record() {
    let local = SyncRecord {
        record_type: SyncRecordType::AidDistribution,
        data: vec![1],
        hash: vec![4, 4],
    };
    let remote = SyncRecord {
        record_type: SyncRecordType::BiometricTemplate,
        data: vec![2],
        hash: vec![4, 4],
    };
    let w = resolve_conflicts(&local, &remote);
    assert_eq!(w.record_type, SyncRecordType::BiometricTemplate);
}

#[test]
fn canonical_bytes_layout() {
    let b = block(1, BlockLink::Genesis, -1);
    let bytes = canonical_bytes(&b);
    assert_eq!(bytes.len(), 16 + 1 + 8 + 16 + 8 + 8);
    assert_eq!(bytes[0], 1);
    assert_eq!(bytes[1], 0);
    assert_eq!(bytes[16], 0);
    // -1 shifted by 2^63 is 0x7fff_ffff_ffff_ffff, least significant byte first.
    assert_eq!(&bytes[17..25], &[0xff, 0xff, 0xff, 0xff, 0xff, 0xff, 0xff, 0x7f]);
    assert_eq!(bytes[25], 5);
    assert_eq!(bytes[41], 1);
    let mut with_record = block(1, BlockLink::After(0x0102), -1);
    with_record.records.push(SyncRecord {
        record_type: SyncRecordType::BiometricTemplate,
        data: vec![9, 8],
        hash: vec![7],
    });
    let bytes = canonical_bytes(&with_record);
    assert_eq!(bytes.len(), 16 + 17 + 8 + 16 + 8 + 8 + (1 + 8 + 2 + 8 + 1));
    assert_eq!(&bytes[16..19], &[1, 0x02, 0x01]);
    let tail = &bytes[bytes.len() - 20..];
    assert_eq!(tail, &[2, 2, 0, 0, 0, 0, 0, 0, 0, 9, 8, 1, 0, 0, 0, 0, 0, 0, 0, 7]);
}

#[test]
fn signature_covers_every_field() {
    let b = block(1, BlockLink::Genesis, 0);
    let mut c = block(1, BlockLink::Genesis, 0);
    c.sequence = 2;
    assert_ne!(canonical_bytes(&b), canonical_bytes(&c));
    let mut d = block(1, BlockLink::Genesis, 0);
    d.signature = vec![1, 2, 3];
    assert_eq!(canonical_bytes(&b), canonical_bytes(&d));
}

#[test]
fn ledger_validation_order() {
    let l = Ledger::new(4);
    let orphan = block(2, BlockLink::After(1), 0);
    assert_eq!(l.validate_with(&orphan, false), Err(SyncError::InvalidSignature));
    assert_eq!(l.validate_with(&orphan, true), Err(SyncError::UnknownPredecessor));
    let first = block(1, BlockLink::Genesis, 0);
    assert_eq!(l.validate_with(&first, true), Ok(()));
    assert!(l.is_new(1));
}

#[test]
fn ledger_queue_evicts_oldest_when_full() {
    let mut l = Ledger::new(2);
    assert_eq!(l.receive(block(10, BlockLink::After(1), 0), true), Received::Queued);
    assert_eq!(l.receive(block(11, BlockLink::After(1), 0), true), Received::Queued);
    assert_eq!(l.receive(block(12, BlockLink::After(2), 0), true), Received::Queued);
    assert_eq!(l.queued_count(), 2);
    assert_eq!(l.receive(block(1, BlockLink::Genesis, 0), true), Received::Stored);
    let promoted = l.promote_ready();
    // Block 10 was evicted; only block 11 waited for block 1.
    assert_eq!(promoted, vec![11]);
    assert_eq!(l.queued_count(), 1);
    assert!(l.is_new(10));
}

#[test]
fn ledger_receive_outcomes() {
    let mut l = Ledger::new(4);
    assert_eq!(
        l.receive(block(1, BlockLink::Genesis, 0), false),
        Received::Rejected(SyncError::InvalidSignature)
    );
    assert!(l.is_new(1));
    assert_eq!(l.receive(block(1, BlockLink::Genesis, 0), true), Received::Stored);
    assert_eq!(l.receive(block(1, BlockLink::Genesis, 0), true), Received::Duplicate);
    assert_eq!(l.receive(block(2, BlockLink::After(1), 0), true), Received::Stored);
    assert_eq!(l.stored_ids(), &vec![1, 2]);
}

#[test]
fn prune_drops_only_old_queued_blocks() {
    let mut l = Ledger::new(8);
    l.receive(block(10, BlockLink::After(1), 100), true);
    l.receive(block(11, BlockLink::After(1), 300), true);
    l.receive(block(12, BlockLink::After(1), 50), true);
    l.receive(block(1, BlockLink::Genesis, 10), true);
    l.prune_queue(200);
    assert_eq!(l.queued_count(), 1);
    assert!(!l.is_new(1));
    assert_eq!(l.promote_ready(), vec![11]);
}

#[test]
fn service_cleanup_keeps_recent_queued_blocks() {
    let mut s = Service::new(
        &ring::signature::Ed25519KeyPair::generate_pkcs8(&ring::rand::SystemRandom::new())
            .unwrap()
            .as_ref()
            .to_vec(),
    )
    .unwrap();
    s.cleanup_old_records(0);
    assert_eq!(s.ledger().queued_count(), 0);
}

#[test]
fn backfill_filters_by_time() {
    let mut l = Ledger::new(4);
    l.receive(block(1, BlockLink::Genesis, 100), true);
    l.receive(block(2, BlockLink::After(1), 200), true);
    l.receive(block(3, BlockLink::After(2), 300), true);
    let since: Vec<u128> = l.blocks_since(150).iter().map(|b| b.id).collect();
    assert_eq!(since, vec![2, 3]);
    assert_eq!(l.blocks_since(300).len(), 0);
}

#[test]
fn latest_block_is_first_maximum() {
    let blocks = vec![
        block(1, BlockLink::Genesis, 5),
        block(2, BlockLink::Genesis, 9),
        block(3, BlockLink::Genesis, 9),
        block(4, BlockLink::Genesis, 1),
    ];
    assert_eq!(select_latest(&blocks), Some(1));
    assert_eq!(select_latest(&vec![]), None);
}
