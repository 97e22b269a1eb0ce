//! Records, blocks and the enumerations the application attaches to them.
use vstd::prelude::*;

verus! {

/// Kind of aid handed out.
#[derive(Debug, Clone, PartialEq, Eq)]
pub enum AidType {
    Food,
    Water,
    Medicine,
    Shelter,
    Clothing,
    Cash,
    Other(String),
}

/// Vulnerability recorded for a recipient.
#[derive(Debug, Clone, PartialEq, Eq)]
pub enum Vulnerability {
    Elderly,
    Child,
    Pregnant,
    Disabled,
    ChronicIllness,
    SingleParent,
    Other(String),
}

/// Modality of a biometric template.
#[derive(Debug, Clone, Copy, PartialEq, Eq, Structural)]
pub enum BiometricType {
    Fingerprint,
    Iris,
    FacialFeatures,
}

/// Declared kind of a replicated record.
#[derive(Debug, Clone, Copy, PartialEq, Eq, Structural)]
pub enum SyncRecordType {
    RecipientRegistration,
    AidDistribution,
    BiometricTemplate,
    VerificationProof,
}

/// An encrypted payload with its kind and the digest of its bytes.
#[derive(Debug)]
pub struct SyncRecord {
    pub record_type: SyncRecordType,
    pub data: Vec<u8>,
    pub hash: Vec<u8>,
}

/// The block a block follows: none for the first block of a producer.
#[derive(Debug, Clone, Copy, PartialEq, Eq, Structural)]
pub enum BlockLink {
    Genesis,
    After(u128),
}

/// A signed batch of records produced by one node.
#[derive(Debug)]
pub struct SyncBlock {
    pub id: u128,
    pub previous_hash: BlockLink,
    /// Creation time, in seconds since the Unix epoch.
    pub timestamp: i64,
    pub node_id: u128,
    /// The producer's own clock counter once this block was cut.
    pub sequence: u64,
    pub records: Vec<SyncRecord>,
    pub signature: Vec<u8>,
}

pub struct RecordView {
    pub record_type: SyncRecordType,
    pub data: Seq<u8>,
    pub hash: Seq<u8>,
}

pub struct BlockView {
    pub id: u128,
    pub previous_hash: BlockLink,
    pub timestamp: i64,
    pub node_id: u128,
    pub sequence: u64,
    pub records: Seq<RecordView>,
    pub signature: Seq<u8>,
}

impl View for SyncRecord {
    type V = RecordView;

    open spec fn view(&self) -> RecordView {
        RecordView { record_type: self.record_type, data: self.data@, hash: self.hash@ }
    }
}

impl View for SyncBlock {
    type V = BlockView;

    open spec fn view(&self) -> BlockView {
        BlockView {
            id: self.id,
            previous_hash: self.previous_hash,
            timestamp: self.timestamp,
            node_id: self.node_id,
            sequence: self.sequence,
            records: self.records@.map_values(|r: SyncRecord| r@),
            signature: self.signature@,
        }
    }
}

/// A copy of `v` with the same contents.
pub fn copy_bytes(v: &Vec<u8>) -> (r: Vec<u8>)
    ensures
        r@ == v@,
{
    let mut r: Vec<u8> = Vec::with_capacity(v.len());
    let mut i: usize = 0;
    while i < v.len()
        invariant
            i <= v@.len(),
            r@ == v@.subrange(0, i as int),
        decreases v@.len() - i,
    {
        r.push(v[i]);
        i = i + 1;
        assert(r@ =~= v@.subrange(0, i as int));
    }
    assert(r@ =~= v@);
    r
}

impl SyncRecord {
    /// A record with the same kind, payload and digest.
    pub fn duplicate(&self) -> (r: SyncRecord)
        ensures
            r@ == self@,
    {
        SyncRecord {
            record_type: self.record_type,
            data: copy_bytes(&self.data),
            hash: copy_bytes(&self.hash),
        }
    }
}

/// Copies of the records of `rs`, in the same order.
pub fn duplicate_records(rs: &Vec<SyncRecord>) -> (r: Vec<SyncRecord>)
    ensures
        r@.map_values(|x: SyncRecord| x@) == rs@.map_values(|x: SyncRecord| x@),
{
    let mut r: Vec<SyncRecord> = Vec::with_capacity(rs.len());
    let mut i: usize = 0;
    while i < rs.len()
        invariant
            i <= rs@.len(),
            r@.len() == i,
            forall|k: int| 0 <= k < i ==> (#[trigger] r@[k])@ == rs@[k]@,
        decreases rs@.len() - i,
    {
        r.push(rs[i].duplicate());
        i = i + 1;
    }
    assert(r@.map_values(|x: SyncRecord| x@) =~= rs@.map_values(|x: SyncRecord| x@));
    r
}

impl SyncBlock {
    /// A block with the same contents.
    pub fn duplicate(&self) -> (r: SyncBlock)
        ensures
            r@ == self@,
    {
        let records = duplicate_records(&self.records);
        SyncBlock {
            id: self.id,
            previous_hash: self.previous_hash,
            timestamp: self.timestamp,
            node_id: self.node_id,
            sequence: self.sequence,
            records,
            signature: copy_bytes(&self.signature),
        }
    }
}

} // verus!
