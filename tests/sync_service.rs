use dhads_sync::codec::canonical_bytes;
use dhads_sync::ledger::{Received, SyncError};
use dhads_sync::models::{BlockLink, SyncBlock, SyncRecordType};
use dhads_sync::server::Server;
use dhads_sync::sync::{MeshEvent, Reply, Service};

fn key_document() -> Vec<u8> {
    let rng = ring::rand::SystemRandom::new();
    ring::signature::Ed25519KeyPair::generate_pkcs8(&rng)
        .unwrap()
        .as_ref()
        .to_vec()
}

fn service() -> Service {
    Service::new(&key_document()).unwrap()
}

fn produce(s: &mut Service, payload: u8) -> SyncBlock {
    s.add_record(SyncRecordType::AidDistribution, vec![payload]).unwrap();
    s.create_sync_block().unwrap()
}

#[test]
fn test_sync_service() {
    let mut service = service();
    let data = vec![1, 2, 3, 4];
    service
        .add_record(SyncRecordType::RecipientRegistration, data)
        .unwrap();
    assert!(!service.pending_records().is_empty());
}

#[test]
fn test_block_creation() {
    let mut service = service();
    for i in 0..5 {
        let data = vec![i as u8];
        service
            .add_record(SyncRecordType::RecipientRegistration, data)
            .unwrap();
    }
    let block = service.create_sync_block().unwrap();
    assert_eq!(block.records.len(), 5);
    assert!(service.pending_records().is_empty());
}

#[test]
fn tenth_record_cuts_a_block_in_order() {
    let mut s = service();
    for size in 1..10usize {
        let out = s
            .add_record(SyncRecordType::AidDistribution, vec![7u8; size])
            .unwrap();
        assert!(out.is_none());
        assert_eq!(s.pending_records().len(), size);
    }
    let block = s
        .add_record(SyncRecordType::AidDistribution, vec![7u8; 10])
        .unwrap()
        .expect("a block is cut at the threshold");
    assert_eq!(block.records.len(), 10);
    for (i, r) in block.records.iter().enumerate() {
        assert_eq!(r.data.len(), i + 1);
        assert_eq!(r.record_type, SyncRecordType::AidDistribution);
    }
    assert!(s.pending_records().is_empty());
    assert_eq!(block.previous_hash, BlockLink::Genesis);
    assert_eq!(block.sequence, 1);
    assert_eq!(block.signature.len(), 64);
    assert!(s.ledger().get(block.id).is_some());
}

#[test]
fn blocks_chain_to_the_previous_one() {
    let mut s = service();
    let a = produce(&mut s, 1);
    let b = produce(&mut s, 2);
    assert_eq!(a.previous_hash, BlockLink::Genesis);
    assert_eq!(b.previous_hash, BlockLink::After(a.id));
    assert_eq!(b.sequence, 2);
    assert_eq!(s.vector_clock().get(s.node_id()), 2);
    assert_eq!(s.ledger().stored_ids(), &vec![a.id, b.id]);
}

#[test]
fn backfill_answers_blocks_since_and_catches_up_clock() {
    let mut a = service();
    let mut b = service();
    b.trust_peer(a.node_id(), a.public_key());
    let t0 = 0i64;
    produce(&mut a, 1);
    produce(&mut a, 2);
    let reply = a.handle_mesh_event(MeshEvent::BlockRequest {
        from_peer: vec![9, 9],
        since: t0,
    });
    let blocks = match reply {
        Reply::Respond { to_peer, blocks } => {
            assert_eq!(to_peer, vec![9, 9]);
            blocks
        }
        Reply::Applied(_) => panic!("a request is answered"),
    };
    assert_eq!(blocks.len(), 2);
    let applied = b.apply_blocks(blocks);
    assert_eq!(applied.len(), 2);
    assert_eq!(
        b.vector_clock().get(a.node_id()),
        a.vector_clock().get(a.node_id())
    );
    assert_eq!(b.vector_clock().get(a.node_id()), 2);
    assert_eq!(a.blocks_since(i64::MAX).len(), 0);
}

#[test]
fn tampered_signature_is_rejected_and_changes_nothing() {
    let mut a = service();
    let mut b = service();
    b.trust_peer(a.node_id(), a.public_key());
    let mut block = produce(&mut a, 5);
    block.signature[0] ^= 0xff;
    assert_eq!(b.ledger().validate(&block), Err(SyncError::InvalidSignature));
    let id = block.id;
    let d = b.on_block_received(block);
    assert_eq!(d.outcome, Received::Rejected(SyncError::InvalidSignature));
    assert!(d.applied.is_empty());
    assert!(b.ledger().get(id).is_none());
    assert_eq!(b.ledger().stored_ids().len(), 0);
    assert_eq!(b.ledger().queued_count(), 0);
    assert_eq!(b.vector_clock().get(a.node_id()), 0);
}

#[test]
fn unknown_producer_fails_the_signature_check() {
    let mut a = service();
    let b = service();
    let block = produce(&mut a, 5);
    assert_eq!(b.ledger().validate(&block), Err(SyncError::InvalidSignature));
}

#[test]
fn block_before_its_predecessor_is_queued_then_promoted() {
    let mut a = service();
    let mut b = service();
    b.trust_peer(a.node_id(), a.public_key());
    let y = produce(&mut a, 1);
    let x = produce(&mut a, 2);
    let (xid, yid) = (x.id, y.id);
    assert_eq!(b.ledger().validate(&x), Err(SyncError::UnknownPredecessor));
    let first = b.on_block_received(x);
    assert_eq!(first.outcome, Received::Queued);
    assert_eq!(b.ledger().queued_count(), 1);
    assert!(b.ledger().get(xid).is_none());
    let second = b.on_block_received(y);
    assert_eq!(second.outcome, Received::Stored);
    assert_eq!(second.applied, vec![yid, xid]);
    assert_eq!(b.ledger().stored_ids(), &vec![yid, xid]);
    assert_eq!(b.ledger().queued_count(), 0);
    assert_eq!(b.vector_clock().get(a.node_id()), 2);
}

#[test]
fn applying_a_block_twice_equals_once() {
    let mut a = service();
    let mut b = service();
    b.trust_peer(a.node_id(), a.public_key());
    let block = produce(&mut a, 3);
    let again = block.duplicate();
    let first = b.on_block_received(block);
    assert_eq!(first.outcome, Received::Stored);
    let ids_once = b.ledger().stored_ids().clone();
    let clock_once = b.vector_clock().get(a.node_id());
    let second = b.on_block_received(again);
    assert_eq!(second.outcome, Received::Duplicate);
    assert_eq!(b.ledger().stored_ids(), &ids_once);
    assert_eq!(b.vector_clock().get(a.node_id()), clock_once);
}

#[test]
fn unrelated_blocks_commute() {
    let mut p = service();
    let mut q = service();
    let bp = produce(&mut p, 1);
    let bq = produce(&mut q, 2);
    let mut r1 = service();
    let mut r2 = service();
    for r in [&mut r1, &mut r2] {
        r.trust_peer(p.node_id(), p.public_key());
        r.trust_peer(q.node_id(), q.public_key());
    }
    r1.on_block_received(bp.duplicate());
    r1.on_block_received(bq.duplicate());
    r2.on_block_received(bq.duplicate());
    r2.on_block_received(bp.duplicate());
    let mut ids1 = r1.ledger().stored_ids().clone();
    let mut ids2 = r2.ledger().stored_ids().clone();
    ids1.sort();
    ids2.sort();
    assert_eq!(ids1, ids2);
    for id in ids1 {
        let x = r1.ledger().get(id).unwrap();
        let y = r2.ledger().get(id).unwrap();
        assert_eq!(canonical_bytes(x), canonical_bytes(y));
    }
    assert_eq!(r1.vector_clock().get(p.node_id()), r2.vector_clock().get(p.node_id()));
    assert_eq!(r1.vector_clock().get(q.node_id()), r2.vector_clock().get(q.node_id()));
}

#[test]
fn rejected_key_document_is_a_crypto_failure() {
    assert!(matches!(
        Service::new(&vec![1, 2, 3]),
        Err(SyncError::CryptoFailure)
    ));
}

#[test]
fn tick_cuts_pending_and_starts_backfill_round() {
    let mut a = service();
    let mut s = service();
    s.trust_peer(a.node_id(), a.public_key());
    let peers = vec![a.node_id(), 77];
    let empty = s.tick(1_000, &peers).unwrap();
    assert!(empty.block.is_none());
    assert_eq!(empty.request_since, vec![i64::MIN, i64::MIN]);
    let from_a = produce(&mut a, 9);
    let heard = from_a.timestamp;
    s.on_block_received(from_a);
    s.add_record(SyncRecordType::VerificationProof, vec![1]).unwrap();
    let plan = s.tick(2_000, &peers).unwrap();
    assert_eq!(plan.request_since, vec![heard, i64::MIN]);
    assert_eq!(plan.block.unwrap().records.len(), 1);
    assert!(s.pending_records().is_empty());
}

#[test]
fn cut_block_uses_given_identifier_and_time() {
    let mut s = service();
    s.add_record(SyncRecordType::AidDistribution, vec![1]).unwrap();
    let b = s.cut_block(42, 1_234).unwrap();
    assert_eq!(b.id, 42);
    assert_eq!(b.timestamp, 1_234);
    assert_eq!(s.ledger().validate(&b), Ok(()));
    s.add_record(SyncRecordType::AidDistribution, vec![2]).unwrap();
    assert_eq!(s.cut_block(42, 1_300).err(), Some(SyncError::IdentifierTaken));
    assert_eq!(s.pending_records().len(), 1);
    let c = s.cut_block(43, 1_300).unwrap();
    assert_eq!(c.previous_hash, BlockLink::After(42));
}

#[test]
fn own_blocks_validate_against_own_key() {
    let mut a = service();
    let mut b = service();
    b.trust_peer(a.node_id(), a.public_key());
    let block = produce(&mut a, 4);
    assert!(a.ledger().signature_valid(&block));
    assert_eq!(b.ledger().validate(&block), Ok(()));
}

#[test]
fn own_key_is_not_replaced_by_a_peer_declaration() {
    let mut a = service();
    let key = a.public_key();
    let node = a.node_id();
    a.trust_peer(node, vec![0; 32]);
    assert_eq!(a.public_key(), key);
}

#[test]
fn clock_moves_only_forward_on_receipt() {
    let mut a = service();
    let mut b = service();
    b.trust_peer(a.node_id(), a.public_key());
    let first = produce(&mut a, 1);
    let second = produce(&mut a, 2);
    b.on_block_received(first);
    b.on_block_received(second);
    assert_eq!(b.vector_clock().get(a.node_id()), 2);
    let stale = b.ledger().get(b.ledger().stored_ids()[0]).unwrap().duplicate();
    b.on_block_received(stale);
    assert_eq!(b.vector_clock().get(a.node_id()), 2);
}

#[test]
fn server_health_and_registration() {
    let mut server = Server::new(service());
    assert_eq!(server.health(), "OK");
    let out = server.register_recipient(vec![4, 2]).unwrap();
    assert!(out.is_none());
    assert_eq!(server.service().pending_records().len(), 1);
    assert_eq!(
        server.service().pending_records()[0].record_type,
        SyncRecordType::RecipientRegistration
    );
}

#[test]
fn mesh_events_apply_blocks_in_order() {
    let mut a = service();
    let mut b = service();
    b.trust_peer(a.node_id(), a.public_key());
    assert_eq!(a.public_key().len(), 32);
    let first = produce(&mut a, 1);
    let second = produce(&mut a, 2);
    let (id1, id2) = (first.id, second.id);
    match b.handle_mesh_event(MeshEvent::NewBlock(first)) {
        Reply::Applied(ids) => assert_eq!(ids, vec![id1]),
        Reply::Respond { .. } => panic!("a block is applied, not answered"),
    }
    match b.handle_mesh_event(MeshEvent::BlockResponse {
        from_peer: vec![1],
        blocks: vec![second],
    }) {
        Reply::Applied(ids) => assert_eq!(ids, vec![id2]),
        Reply::Respond { .. } => panic!("an answer is applied"),
    }
    assert_eq!(b.ledger().stored_ids(), &vec![id1, id2]);
}

#[test]
fn prehashed_record_is_enqueued_as_given() {
    let mut s = service();
    let record = dhads_sync::models::SyncRecord {
        record_type: SyncRecordType::BiometricTemplate,
        data: vec![1, 2],
        hash: vec![3; 32],
    };
    assert!(s.enqueue_record(record).unwrap().is_none());
    assert_eq!(s.pending_records()[0].hash, vec![3; 32]);
    s.add_record(SyncRecordType::BiometricTemplate, vec![1, 2]).unwrap();
    assert_eq!(
        s.pending_records()[1].hash,
        dhads_sync::crypto::calculate_record_hash(&vec![1, 2])
    );
}

#[test]
fn backfill_answer_applies_a_chain_in_order() {
    let mut a = service();
    let mut b = service();
    b.trust_peer(a.node_id(), a.public_key());
    let first = produce(&mut a, 1);
    let second = produce(&mut a, 2);
    let third = produce(&mut a, 3);
    let ids = vec![first.id, second.id, third.id];
    let applied = b.apply_blocks(vec![first, second, third]);
    assert_eq!(applied, ids);
    assert_eq!(b.ledger().stored_ids(), &ids);
    assert_eq!(b.vector_clock().get(a.node_id()), 3);
}
