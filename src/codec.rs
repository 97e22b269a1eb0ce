//! The canonical byte form of a block, the message its signature covers.
use vstd::prelude::*;
use crate::models::{BlockLink, BlockView, RecordView, SyncBlock, SyncRecord, SyncRecordType};

verus! {

/// The `n` low bytes of `x`, least significant first.
pub open spec fn le_bytes(x: nat, n: nat) -> Seq<u8>
    decreases n,
{
    if n == 0 {
        Seq::empty()
    } else {
        seq![(x % 256) as u8] + le_bytes(x / 256, (n - 1) as nat)
    }
}

pub open spec fn kind_tag(k: SyncRecordType) -> u8 {
    match k {
        SyncRecordType::RecipientRegistration => 0,
        SyncRecordType::AidDistribution => 1,
        SyncRecordType::BiometricTemplate => 2,
        SyncRecordType::VerificationProof => 3,
    }
}

/// Kind tag, payload length, payload, digest length, digest.
pub open spec fn encode_record(r: RecordView) -> Seq<u8> {
    seq![kind_tag(r.record_type)] + le_bytes(r.data.len(), 8) + r.data + le_bytes(r.hash.len(), 8)
        + r.hash
}

pub open spec fn encode_records(rs: Seq<RecordView>) -> Seq<u8>
    decreases rs.len(),
{
    if rs.len() == 0 {
        Seq::empty()
    } else {
        encode_records(rs.drop_last()) + encode_record(rs.last())
    }
}

pub open spec fn encode_link(l: BlockLink) -> Seq<u8> {
    match l {
        BlockLink::Genesis => seq![0u8],
        BlockLink::After(p) => seq![1u8] + le_bytes(p as nat, 16),
    }
}

/// A timestamp shifted into the unsigned range, so that byte order follows time order.
pub open spec fn time_code(t: i64) -> nat {
    (t + 0x8000_0000_0000_0000) as nat
}

/// Every field of the block but its signature, in a fixed layout.
pub open spec fn encode_block(b: BlockView) -> Seq<u8> {
    le_bytes(b.id as nat, 16) + encode_link(b.previous_hash) + le_bytes(time_code(b.timestamp), 8)
        + le_bytes(b.node_id as nat, 16) + le_bytes(b.sequence as nat, 8) + le_bytes(
        b.records.len(),
        8,
    ) + encode_records(b.records)
}

fn push_le(out: &mut Vec<u8>, x: u128, n: usize)
    requires
        n <= 16,
    ensures
        final(out)@ == old(out)@ + le_bytes(x as nat, n as nat),
{
    let ghost start = out@;
    let mut cur: u128 = x;
    let mut i: usize = 0;
    while i < n
        invariant
            i <= n,
            out@ + le_bytes(cur as nat, (n - i) as nat) == start + le_bytes(x as nat, n as nat),
        decreases n - i,
    {
        let ghost before = out@;
        let ghost rest = le_bytes(cur as nat, (n - i) as nat);
        out.push((cur % 256) as u8);
        assert(rest == seq![(cur % 256) as u8] + le_bytes((cur / 256) as nat, (n - i - 1) as nat));
        assert(out@ + le_bytes((cur / 256) as nat, (n - i - 1) as nat) =~= before + rest);
        cur = cur / 256;
        i = i + 1;
    }
    assert(le_bytes(cur as nat, 0) =~= Seq::<u8>::empty());
    assert(out@ =~= out@ + le_bytes(cur as nat, 0));
}

fn push_bytes(out: &mut Vec<u8>, b: &Vec<u8>)
    ensures
        final(out)@ == old(out)@ + b@,
{
    let ghost start = out@;
    let mut i: usize = 0;
    while i < b.len()
        invariant
            i <= b@.len(),
            out@ == start + b@.subrange(0, i as int),
        decreases b@.len() - i,
    {
        out.push(b[i]);
        i = i + 1;
        assert(out@ =~= start + b@.subrange(0, i as int));
    }
    assert(b@.subrange(0, b@.len() as int) =~= b@);
}

fn tag_of(k: SyncRecordType) -> (r: u8)
    ensures
        r == kind_tag(k),
{
    match k {
        SyncRecordType::RecipientRegistration => 0,
        SyncRecordType::AidDistribution => 1,
        SyncRecordType::BiometricTemplate => 2,
        SyncRecordType::VerificationProof => 3,
    }
}

fn push_record(out: &mut Vec<u8>, r: &SyncRecord)
    ensures
        final(out)@ == old(out)@ + encode_record(r@),
{
    let ghost start = out@;
    out.push(tag_of(r.record_type));
    push_le(out, r.data.len() as u128, 8);
    push_bytes(out, &r.data);
    push_le(out, r.hash.len() as u128, 8);
    push_bytes(out, &r.hash);
    assert(out@ =~= start + encode_record(r@));
}

/// The bytes a block's signature is made over: the block without its signature.
pub fn canonical_bytes(b: &SyncBlock) -> (r: Vec<u8>)
    ensures
        r@ == encode_block(b@),
{
    let mut out: Vec<u8> = Vec::new();
    push_le(&mut out, b.id, 16);
    match b.previous_hash {
        BlockLink::Genesis => {
            out.push(0u8);
        },
        BlockLink::After(p) => {
            out.push(1u8);
            push_le(&mut out, p, 16);
        },
    }
    let shifted: u128 = (b.timestamp as i128 + 0x8000_0000_0000_0000i128) as u128;
    push_le(&mut out, shifted, 8);
    push_le(&mut out, b.node_id, 16);
    push_le(&mut out, b.sequence as u128, 8);
    push_le(&mut out, b.records.len() as u128, 8);
    let ghost head = out@;
    let ghost views = b.records@.map_values(|x: SyncRecord| x@);
    let mut i: usize = 0;
    while i < b.records.len()
        invariant
            i <= b.records@.len(),
            views == b.records@.map_values(|x: SyncRecord| x@),
            out@ == head + encode_records(views.subrange(0, i as int)),
        decreases b.records@.len() - i,
    {
        push_record(&mut out, &b.records[i]);
        proof {
            let pre = views.subrange(0, i as int);
            let next = views.subrange(0, i + 1);
            assert(next.drop_last() =~= pre);
            assert(next.last() == b.records@[i as int]@);
        }
        i = i + 1;
        assert(out@ =~= head + encode_records(views.subrange(0, i as int)));
    }
    assert(views.subrange(0, b.records@.len() as int) =~= views);
    assert(out@ =~= encode_block(b@));
    out
}

} // verus!
