//! The synchronization service: batches records into signed blocks, applies
//! received blocks, answers backfill requests and prunes held-back blocks.
use vstd::prelude::*;
use crate::clock::{max_u64, VectorClock};
use crate::codec::{canonical_bytes, encode_block};
use crate::crypto::{
    blake3_digest, calculate_record_hash, ed25519_sign, fresh_id,
    key_pair_from_pkcs8, now_seconds, public_key_bytes,
};
use crate::ledger::{
    accept, created_from, last_heard, link_resolved, produced_since, Ledger, Received, SyncError,
};
use crate::models::{copy_bytes, BlockLink, RecordView, SyncBlock, SyncRecord, SyncRecordType};

verus! {

/// Pending records that make a block be cut at once.
pub const BATCH_THRESHOLD: usize = 10;

/// Blocks held back for a missing predecessor, at most.
pub const QUEUE_BUDGET: usize = 1024;

/// Held-back blocks older than this many seconds are dropped.
pub const RETENTION_SECONDS: i64 = 2592000;

/// Seconds between two ticks.
pub const TICK_SECONDS: u64 = 60;

/// What a received block led to.
pub struct Delivery {
    pub outcome: Received,
    /// Identifiers of the blocks stored, in the order they were stored.
    pub applied: Vec<u128>,
}

/// What a tick asks the transport to do.
pub struct TickPlan {
    /// A block cut from the pending records, to broadcast.
    pub block: Option<SyncBlock>,
    /// For each peer given to the tick, in the same order, the time from
    /// which its blocks are asked for.
    pub request_since: Vec<i64>,
}

/// A message between peers, as the service sees it.
pub enum MeshEvent {
    NewBlock(SyncBlock),
    BlockRequest { from_peer: Vec<u8>, since: i64 },
    BlockResponse { from_peer: Vec<u8>, blocks: Vec<SyncBlock> },
}

/// What handling a mesh event asks the transport to do.
pub enum Reply {
    /// Nothing to send; these blocks were stored.
    Applied(Vec<u128>),
    /// Send these blocks to this peer.
    Respond { to_peer: Vec<u8>, blocks: Vec<SyncBlock> },
}

pub open spec fn new_record(kind: SyncRecordType, data: Seq<u8>) -> RecordView {
    RecordView { record_type: kind, data, hash: blake3_digest(data) }
}

/// The time `RETENTION_SECONDS` before `now`, or the earliest time there is.
pub open spec fn retention_cutoff(now: i64) -> i64 {
    if now >= i64::MIN + RETENTION_SECONDS {
        (now - RETENTION_SECONDS) as i64
    } else {
        i64::MIN
    }
}

/// Some block before position `i` of `blocks` is the predecessor of block `i`.
pub open spec fn has_earlier_pred(blocks: Seq<SyncBlock>, i: int) -> bool {
    exists|j: int| 0 <= j < i && blocks[i].previous_hash == BlockLink::After(#[trigger] blocks[j].id)
}

/// A position before `i` holding the predecessor of block `i`, where there is one.
pub open spec fn earlier_pred(blocks: Seq<SyncBlock>, i: int) -> int {
    choose|j: int| 0 <= j < i && blocks[i].previous_hash == BlockLink::After(#[trigger] blocks[j].id)
}

/// Block `i` of `blocks` is stored when they are applied in order to `l`: its
/// signature verifies, and its predecessor is stored in `l` or is an earlier
/// block of `blocks` that is itself stored so.
pub open spec fn chain_ready(l: Ledger, blocks: Seq<SyncBlock>, i: int) -> bool
    decreases i,
{
    &&& 0 <= i < blocks.len()
    &&& l.signature_valid_spec(&blocks[i])
    &&& (link_resolved(l.stored(), blocks[i].previous_hash) || (has_earlier_pred(blocks, i) && 0 <= earlier_pred(blocks, i) < i
        && chain_ready(l, blocks, earlier_pred(blocks, i))))
}

/// The times from which each of `peers` is asked for blocks.
pub open spec fn backfill_times(l: Ledger, peers: Seq<u128>) -> Seq<i64> {
    peers.map_values(|p: u128| last_heard(l.storage_order(), l.stored(), p))
}

/// `post` is `pre` after cutting block `b` from all pending records.
pub open spec fn block_cut(pre: Service, post: Service, b: SyncBlock) -> bool {
    &&& b@.records == pre.pending()
    &&& b.previous_hash == pre.tail()
    &&& link_resolved(pre.ledger_state().stored(), b.previous_hash)
    &&& b.node_id == pre.node()
    &&& b.signature@.len() == 64
    &&& !pre.ledger_state().stored().contains_key(b.id)
    &&& post.ledger_state().stored() == pre.ledger_state().stored().insert(b.id, b@)
    &&& post.ledger_state().storage_order() == pre.ledger_state().storage_order().push(b.id)
    &&& post.ledger_state().queue() == pre.ledger_state().queue()
    &&& post.ledger_state().signature_valid_spec(&b)
    &&& forall|n: u128| n != pre.node() ==> post.ledger_state().public_keys().contains_key(n)
        == pre.ledger_state().public_keys().contains_key(n) && (
    #[trigger] post.ledger_state().public_keys()[n]) == pre.ledger_state().public_keys()[n]
    &&& post.pending().len() == 0
    &&& post.tail() == BlockLink::After(b.id)
    &&& post.node() == pre.node()
    &&& b.sequence == post.clock_state().counter(b.node_id)
    &&& post.clock_state().no_lower_than(&pre.clock_state())
    &&& pre.clock_state().counter(b.node_id) < u64::MAX ==> b.sequence == pre.clock_state().counter(
        b.node_id,
    ) + 1
    &&& forall|n: u128| n != b.node_id ==> #[trigger] post.clock_state().counter(n)
        == pre.clock_state().counter(n)
}

/// `post` is `pre` after storing `b` with nothing else stored: the block is
/// added and its producer's counter raised to its sequence number.
pub open spec fn stored_alone(pre: Service, post: Service, b: SyncBlock) -> bool {
    &&& post.ledger_state().stored() == pre.ledger_state().stored().insert(b.id, b@)
    &&& post.clock_state().counter(b.node_id) == max_u64(
        pre.clock_state().counter(b.node_id),
        b.sequence,
    )
    &&& forall|n: u128| n != b.node_id ==> #[trigger] post.clock_state().counter(n)
        == pre.clock_state().counter(n)
}

/// Storing two blocks with different identifiers, each alone, gives the same
/// stored blocks and the same clock in either order.
pub proof fn lemma_apply_order_independent(
    s0: Service,
    s1: Service,
    s2: Service,
    t1: Service,
    t2: Service,
    a: SyncBlock,
    b: SyncBlock,
)
    requires
        a.id != b.id,
        stored_alone(s0, s1, a),
        stored_alone(s1, s2, b),
        stored_alone(s0, t1, b),
        stored_alone(t1, t2, a),
    ensures
        s2.ledger_state().stored() == t2.ledger_state().stored(),
        forall|n: u128| #[trigger] s2.clock_state().counter(n) == t2.clock_state().counter(n),
{
    assert(s2.ledger_state().stored() =~= t2.ledger_state().stored());
    assert forall|n: u128| #[trigger] s2.clock_state().counter(n) == t2.clock_state().counter(n) by {
        crate::clock::lemma_join_laws(s0.clock_state().counter(n), a.sequence, b.sequence);
        crate::clock::lemma_join_laws(s0.clock_state().counter(n), b.sequence, a.sequence);
    }
}

/// `post` is `pre` after a cut that failed because `pre` already stores a
/// block under the drawn identifier: nothing changed.
pub open spec fn cut_refused(pre: Service, post: Service, e: SyncError) -> bool {
    &&& e == SyncError::IdentifierTaken
    &&& pre.ledger_state().stored() != Map::<u128, crate::models::BlockView>::empty()
    &&& post == pre
}

pub struct Service {
    node_id: u128,
    signer: ring::signature::Ed25519KeyPair,
    ledger: Ledger,
    clock: VectorClock,
    pending_records: Vec<SyncRecord>,
    last_block: BlockLink,
}

impl Service {
    pub closed spec fn node(&self) -> u128 {
        self.node_id
    }

    pub closed spec fn pending(&self) -> Seq<RecordView> {
        self.pending_records@.map_values(|r: SyncRecord| r@)
    }

    pub closed spec fn ledger_state(&self) -> Ledger {
        self.ledger
    }

    pub closed spec fn clock_state(&self) -> VectorClock {
        self.clock
    }

    /// The last block this node produced, or genesis.
    pub closed spec fn tail(&self) -> BlockLink {
        self.last_block
    }

    pub closed spec fn wf(&self) -> bool {
        &&& self.ledger.wf()
        &&& self.clock.wf()
        &&& link_resolved(self.ledger.stored(), self.last_block)
        &&& self.ledger.public_keys().contains_key(self.node_id)
    }

    /// What a well-formed service guarantees of its parts.
    pub proof fn lemma_parts(s: &Service)
        requires
            s.wf(),
        ensures
            s.ledger_state().wf(),
            s.ledger_state().chained(),
            s.clock_state().wf(),
            link_resolved(s.ledger_state().stored(), s.tail()),
            s.ledger_state().public_keys().contains_key(s.node()),
    {
        crate::ledger::lemma_chain_integrity(&s.ledger);
    }

    /// A service for the node holding the Ed25519 key in `pkcs8`, under a
    /// fresh random node identifier; fails with `CryptoFailure` where the key
    /// is rejected.
    pub fn new(pkcs8: &Vec<u8>) -> (r: Result<Service, SyncError>)
        ensures
            match r {
                Ok(s) => {
                    &&& s.wf()
                    &&& s.pending().len() == 0
                    &&& s.tail() == BlockLink::Genesis
                    &&& s.ledger_state().stored().is_empty()
                    &&& s.ledger_state().queue().len() == 0
                    &&& s.ledger_state().public_keys().dom() == set![s.node()]
                    &&& forall|n: u128| #[trigger] s.clock_state().counter(n) == 0
                },
                Err(e) => e == SyncError::CryptoFailure,
            },
    {
        let signer = match key_pair_from_pkcs8(pkcs8) {
            Some(k) => k,
            None => {
                return Err(SyncError::CryptoFailure);
            },
        };
        let node_id = fresh_id();
        let mut ledger = Ledger::new(QUEUE_BUDGET);
        let key = public_key_bytes(&signer);
        ledger.register_key(node_id, key);
        let s = Service {
            node_id,
            signer,
            ledger,
            clock: VectorClock::new(),
            pending_records: Vec::new(),
            last_block: BlockLink::Genesis,
        };
        assert(s.ledger.public_keys().dom() =~= set![node_id]);
        assert(s.pending() =~= Seq::<RecordView>::empty());
        Ok(s)
    }

    pub fn node_id(&self) -> (r: u128)
        ensures
            r == self.node(),
    {
        self.node_id
    }

    /// This node's public key, as declared in its ledger.
    pub fn public_key(&self) -> (r: Vec<u8>)
        requires
            self.wf(),
        ensures
            r@ == self.ledger_state().public_keys()[self.node()],
    {
        match self.ledger.key_of(self.node_id) {
            Some(k) => copy_bytes(k),
            None => Vec::new(),
        }
    }

    pub fn pending_records(&self) -> (r: &Vec<SyncRecord>)
        ensures
            r@.map_values(|x: SyncRecord| x@) == self.pending(),
    {
        &self.pending_records
    }

    pub fn vector_clock(&self) -> (r: &VectorClock)
        ensures
            *r == self.clock_state(),
    {
        &self.clock
    }

    pub fn ledger(&self) -> (r: &Ledger)
        ensures
            *r == self.ledger_state(),
    {
        &self.ledger
    }

    /// Declares `key` as the public key of the peer node `node`; this node's
    /// own key is never replaced.
    pub fn trust_peer(&mut self, node: u128, key: Vec<u8>)
        requires
            old(self).wf(),
        ensures
            final(self).wf(),
            node != old(self).node() ==> final(self).ledger_state().public_keys() == old(
                self,
            ).ledger_state().public_keys().insert(node, key@),
            node == old(self).node() ==> final(self).ledger_state().public_keys() == old(
                self,
            ).ledger_state().public_keys(),
            final(self).ledger_state().stored() == old(self).ledger_state().stored(),
            final(self).ledger_state().storage_order() == old(self).ledger_state().storage_order(),
            final(self).ledger_state().queue() == old(self).ledger_state().queue(),
            final(self).pending() == old(self).pending(),
            final(self).clock_state() == old(self).clock_state(),
            final(self).node() == old(self).node(),
            final(self).tail() == old(self).tail(),
    {
        if node != self.node_id {
            self.ledger.register_key(node, key);
        }
    }

    /// Cuts a block from all pending records under identifier `id` and
    /// creation time `timestamp`: this node's last block as predecessor, its
    /// own clock counter advanced by one, signed with its key, and stored.
    /// Fails with `IdentifierTaken`, changing nothing, exactly where a block
    /// with identifier `id` is already stored.
    pub fn cut_block(&mut self, id: u128, timestamp: i64) -> (r: Result<SyncBlock, SyncError>)
        requires
            old(self).wf(),
        ensures
            final(self).wf(),
            r is Err <==> old(self).ledger_state().stored().contains_key(id),
            match r {
                Ok(b) => b.id == id && b.timestamp == timestamp && block_cut(*old(self), *final(self), b),
                Err(e) => cut_refused(*old(self), *final(self), e),
            },
    {
        if !self.ledger.is_new(id) {
            return Err(SyncError::IdentifierTaken);
        }
        self.clock.advance(self.node_id);
        let sequence = self.clock.get(self.node_id);
        let mut records: Vec<SyncRecord> = Vec::new();
        std::mem::swap(&mut records, &mut self.pending_records);
        let mut block = SyncBlock {
            id,
            previous_hash: self.last_block,
            timestamp,
            node_id: self.node_id,
            sequence,
            records,
            signature: Vec::new(),
        };
        let message = canonical_bytes(&block);
        let (key, signature) = ed25519_sign(&self.signer, &message);
        block.signature = signature;
        assert(encode_block(block@) == message@);
        self.ledger.register_key(self.node_id, key);
        let stored = block.duplicate();
        let outcome = self.ledger.receive(stored, true);
        assert(outcome == Received::Stored);
        self.last_block = BlockLink::After(id);
        assert(self.pending() =~= Seq::<RecordView>::empty());
        Ok(block)
    }

    /// Cuts a block from all pending records under a fresh random identifier,
    /// at the current time, as `cut_block` does. It can fail only where a block
    /// is stored already and the drawn identifier is one of them.
    pub fn create_sync_block(&mut self) -> (r: Result<SyncBlock, SyncError>)
        requires
            old(self).wf(),
        ensures
            final(self).wf(),
            match r {
                Ok(b) => block_cut(*old(self), *final(self), b),
                Err(e) => cut_refused(*old(self), *final(self), e),
            },
    {
        let id = fresh_id();
        let timestamp = now_seconds();
        self.cut_block(id, timestamp)
    }

    /// Appends `record` to the pending records; once `BATCH_THRESHOLD` records
    /// are pending, cuts a block at once and returns it. A failed cut keeps
    /// every pending record.
    pub fn enqueue_record(&mut self, record: SyncRecord) -> (r: Result<Option<SyncBlock>, SyncError>)
        requires
            old(self).wf(),
        ensures
            final(self).wf(),
            final(self).node() == old(self).node(),
            final(self).clock_state().no_lower_than(&old(self).clock_state()),
            old(self).pending().len() + 1 < BATCH_THRESHOLD ==> r is Ok && r->Ok_0 is None
                && final(self).pending() == old(self).pending().push(record@) && final(self).ledger_state()
                == old(self).ledger_state() && final(self).clock_state() == old(self).clock_state()
                && final(self).tail() == old(self).tail(),
            old(self).pending().len() + 1 >= BATCH_THRESHOLD ==> match r {
                Ok(Some(b)) => b@.records == old(self).pending().push(record@) && final(self).pending().len()
                    == 0 && b.previous_hash == old(self).tail() && final(self).ledger_state().stored()
                    == old(self).ledger_state().stored().insert(b.id, b@) && final(self).tail()
                    == BlockLink::After(b.id) && final(self).ledger_state().signature_valid_spec(&b),
                Ok(None) => false,
                Err(e) => e == SyncError::IdentifierTaken && old(self).ledger_state().stored() != Map::<
                    u128,
                    crate::models::BlockView,
                >::empty() && final(self).pending() == old(self).pending().push(record@)
                    && final(self).ledger_state() == old(self).ledger_state(),
            },
    {
        let ghost rv = record@;
        self.pending_records.push(record);
        assert(self.pending() =~= old(self).pending().push(rv));
        if self.pending_records.len() >= BATCH_THRESHOLD {
            match self.create_sync_block() {
                Ok(b) => Ok(Some(b)),
                Err(e) => Err(e),
            }
        } else {
            Ok(None)
        }
    }

    /// Appends a record of `data`, with the BLAKE3 digest of `data`, to the
    /// pending records, as `enqueue_record` does.
    pub fn add_record(&mut self, record_type: SyncRecordType, data: Vec<u8>) -> (r: Result<
        Option<SyncBlock>,
        SyncError,
    >)
        requires
            old(self).wf(),
        ensures
            final(self).wf(),
            final(self).node() == old(self).node(),
            final(self).clock_state().no_lower_than(&old(self).clock_state()),
            old(self).pending().len() + 1 < BATCH_THRESHOLD ==> r is Ok && r->Ok_0 is None
                && final(self).pending() == old(self).pending().push(new_record(record_type, data@))
                && final(self).ledger_state() == old(self).ledger_state() && final(self).clock_state()
                == old(self).clock_state(),
            old(self).pending().len() + 1 >= BATCH_THRESHOLD ==> match r {
                Ok(Some(b)) => b@.records == old(self).pending().push(new_record(record_type, data@))
                    && final(self).pending().len() == 0 && b.previous_hash == old(self).tail()
                    && final(self).ledger_state().stored() == old(self).ledger_state().stored().insert(
                    b.id,
                    b@,
                ) && final(self).tail() == BlockLink::After(b.id)
                    && final(self).ledger_state().signature_valid_spec(&b),
                Ok(None) => false,
                Err(e) => e == SyncError::IdentifierTaken && old(self).ledger_state().stored() != Map::<
                    u128,
                    crate::models::BlockView,
                >::empty() && final(self).pending() == old(self).pending().push(
                    new_record(record_type, data@),
                ),
            },
    {
        let hash = calculate_record_hash(&data);
        self.enqueue_record(SyncRecord { record_type, data, hash })
    }

    /// Raises this node's counters for the producers of the listed stored blocks.
    fn observe_applied(&mut self, ids: &Vec<u128>)
        requires
            old(self).wf(),
        ensures
            final(self).wf(),
            final(self).clock_state().no_lower_than(&old(self).clock_state()),
            final(self).ledger_state() == old(self).ledger_state(),
            final(self).pending() == old(self).pending(),
            final(self).node() == old(self).node(),
            final(self).tail() == old(self).tail(),
            forall|i: int|
                0 <= i < ids@.len() && old(self).ledger_state().stored().contains_key(#[trigger] ids@[i])
                    ==> old(self).ledger_state().stored()[ids@[i]].sequence <= final(self).clock_state().counter(
                    old(self).ledger_state().stored()[ids@[i]].node_id,
                ),
    {
        let ghost start = self.clock;
        let mut i: usize = 0;
        while i < ids.len()
            invariant
                self.wf(),
                self.ledger == old(self).ledger,
                self.pending_records == old(self).pending_records,
                self.node_id == old(self).node_id,
                self.last_block == old(self).last_block,
                i <= ids@.len(),
                self.clock.no_lower_than(&start),
                start == old(self).clock,
                forall|j: int|
                    0 <= j < i && self.ledger.stored().contains_key(#[trigger] ids@[j])
                        ==> self.ledger.stored()[ids@[j]].sequence <= self.clock.counter(
                        self.ledger.stored()[ids@[j]].node_id,
                    ),
            decreases ids@.len() - i,
        {
            let ghost before = self.clock;
            match self.ledger.get(ids[i]) {
                Some(b) => {
                    let node = b.node_id;
                    let sequence = b.sequence;
                    self.clock.observe(node, sequence);
                },
                None => {},
            }
            proof {
                crate::clock::lemma_monotone_chain(&start, &before, &self.clock);
            }
            assert forall|j: int|
                0 <= j < i && self.ledger.stored().contains_key(#[trigger] ids@[j])
                    implies self.ledger.stored()[ids@[j]].sequence <= self.clock.counter(
                    self.ledger.stored()[ids@[j]].node_id,
                ) by {
                let n = self.ledger.stored()[ids@[j]].node_id;
                assert(before.counter(n) <= self.clock.counter(n));
            }
            i = i + 1;
        }
    }

    /// Applies a block received from a peer. A stored block changes nothing.
    /// A block whose signature does not verify against its producer's declared
    /// key is dropped, changing nothing. A block whose predecessor is missing
    /// joins the queue, whose oldest block leaves when it is full. Any other
    /// block is stored and its producer's counter raised to its sequence
    /// number; then every queued block it unblocks is stored and counted too,
    /// until no queued block has its predecessor stored.
    pub fn on_block_received(&mut self, block: SyncBlock) -> (r: Delivery)
        requires
            old(self).wf(),
        ensures
            final(self).wf(),
            final(self).node() == old(self).node(),
            final(self).pending() == old(self).pending(),
            final(self).tail() == old(self).tail(),
            final(self).ledger_state().public_keys() == old(self).ledger_state().public_keys(),
            final(self).ledger_state().queue_capacity() == old(self).ledger_state().queue_capacity(),
            final(self).clock_state().no_lower_than(&old(self).clock_state()),
            final(self).ledger_state().storage_order() == old(self).ledger_state().storage_order()
                + r.applied@,
            forall|id: u128| #[trigger] old(self).ledger_state().stored().contains_key(id) ==> final(self).ledger_state().stored().contains_key(id)
                && final(self).ledger_state().stored()[id] == old(self).ledger_state().stored()[id],
            forall|i: int| 0 <= i < r.applied@.len() ==> final(self).ledger_state().stored().contains_key(
                #[trigger] r.applied@[i]) && final(self).ledger_state().stored()[r.applied@[i]].sequence
                <= final(self).clock_state().counter(
                final(self).ledger_state().stored()[r.applied@[i]].node_id,
            ),
            old(self).ledger_state().stored().contains_key(block.id) ==> r.outcome == Received::Duplicate
                && final(self).ledger_state() == old(self).ledger_state() && final(self).clock_state()
                == old(self).clock_state() && r.applied@.len() == 0,
            !old(self).ledger_state().stored().contains_key(block.id) && !old(self).ledger_state().signature_valid_spec(&block)
                ==> r.outcome == Received::Rejected(SyncError::InvalidSignature) && final(self).ledger_state()
                == old(self).ledger_state() && final(self).clock_state() == old(self).clock_state()
                && r.applied@.len() == 0,
            !old(self).ledger_state().stored().contains_key(block.id) && old(self).ledger_state().signature_valid_spec(&block)
                && !link_resolved(old(self).ledger_state().stored(), block.previous_hash) ==> r.outcome
                == Received::Queued && final(self).ledger_state().stored() == old(self).ledger_state().stored()
                && final(self).clock_state() == old(self).clock_state() && r.applied@.len() == 0 && (if old(self).ledger_state().queue().len()
                < old(self).ledger_state().queue_capacity() {
                final(self).ledger_state().queue() == old(self).ledger_state().queue().push(block@)
            } else {
                final(self).ledger_state().queue() == old(self).ledger_state().queue().drop_first().push(
                    block@,
                )
            }),
            !old(self).ledger_state().stored().contains_key(block.id) && old(self).ledger_state().signature_valid_spec(&block)
                && link_resolved(old(self).ledger_state().stored(), block.previous_hash) ==> {
                &&& r.outcome == Received::Stored
                &&& r.applied@.len() >= 1
                &&& r.applied@[0] == block.id
                &&& final(self).ledger_state().stored().contains_key(block.id)
                &&& final(self).ledger_state().stored()[block.id] == block@
                &&& forall|i: int| 0 <= i < final(self).ledger_state().queue().len() ==> !link_resolved(
                    final(self).ledger_state().stored(),
                    #[trigger] final(self).ledger_state().queue()[i].previous_hash,
                )
                &&& r.applied@.len() == 1 ==> stored_alone(*old(self), *final(self), block)
            },
    {
        let signature_ok = self.ledger.signature_valid(&block);
        let id = block.id;
        let node = block.node_id;
        let sequence = block.sequence;
        let ghost bv = block@;
        let outcome = self.ledger.receive(block, signature_ok);
        let ghost received = self.ledger;
        assert forall|k: u128| #[trigger] old(self).ledger.stored().contains_key(k) implies received.stored().contains_key(k)
            && received.stored()[k] == old(self).ledger.stored()[k] by {
            if received.stored() != old(self).ledger.stored() {
                assert(received.stored() == accept(old(self).ledger.stored(), bv));
            }
        }
        let mut applied: Vec<u128> = Vec::new();
        match outcome {
            Received::Stored => {
                applied.push(id);
                let ghost c0 = self.clock;
                self.clock.observe(node, sequence);
                let ghost c1 = self.clock;
                let promoted = self.ledger.promote_ready();
                proof {
                    match self.last_block {
                        BlockLink::After(p) => {
                            assert(received.stored().contains_key(p));
                        },
                        BlockLink::Genesis => {},
                    }
                    assert(received.stored().contains_key(id) && received.stored()[id] == bv);
                }
                let mut k: usize = 0;
                let ghost mid = applied@;
                while k < promoted.len()
                    invariant
                        k <= promoted@.len(),
                        applied@ == mid + promoted@.subrange(0, k as int),
                    decreases promoted@.len() - k,
                {
                    applied.push(promoted[k]);
                    k = k + 1;
                    assert(applied@ =~= mid + promoted@.subrange(0, k as int));
                }
                assert(promoted@.subrange(0, promoted@.len() as int) =~= promoted@);
                assert(applied@ =~= seq![id] + promoted@);
                let ghost c2 = self.clock;
                if promoted.len() > 0 {
                    proof {
                        assert forall|j: int| 0 <= j < promoted@.len() implies self.ledger.stored().contains_key(
                            #[trigger] promoted@[j]) by {
                            Ledger::lemma_order_stored(
                                &self.ledger,
                                received.storage_order().len() + j,
                            );
                        }
                    }
                    self.observe_applied(&promoted);
                }
                proof {
                    crate::clock::lemma_monotone_chain(&c0, &c1, &self.clock);
                    assert(c1.counter(node) <= self.clock.counter(node));
                    assert forall|j: int| 0 <= j < applied@.len() implies self.ledger.stored().contains_key(
                        #[trigger] applied@[j]) && self.ledger.stored()[applied@[j]].sequence
                        <= self.clock.counter(self.ledger.stored()[applied@[j]].node_id) by {
                        if j == 0 {
                            assert(applied@[0] == id);
                        } else {
                            assert(applied@[j] == promoted@[j - 1]);
                            Ledger::lemma_order_stored(
                                &self.ledger,
                                received.storage_order().len() + j - 1,
                            );
                        }
                    }
                }
            },
            _ => {
                assert(self.ledger.storage_order() =~= old(self).ledger.storage_order() + applied@);
            },
        }
        Delivery { outcome, applied }
    }

    /// Applies blocks in order, each as `on_block_received` does; returns the
    /// identifiers stored, in storage order.
    pub fn apply_blocks(&mut self, blocks: Vec<SyncBlock>) -> (r: Vec<u128>)
        requires
            old(self).wf(),
        ensures
            final(self).wf(),
            final(self).node() == old(self).node(),
            final(self).pending() == old(self).pending(),
            final(self).tail() == old(self).tail(),
            final(self).ledger_state().public_keys() == old(self).ledger_state().public_keys(),
            final(self).clock_state().no_lower_than(&old(self).clock_state()),
            final(self).ledger_state().storage_order() == old(self).ledger_state().storage_order() + r@,
            forall|id: u128| #[trigger] old(self).ledger_state().stored().contains_key(id) ==> final(self).ledger_state().stored().contains_key(id)
                && final(self).ledger_state().stored()[id] == old(self).ledger_state().stored()[id],
            forall|i: int| #[trigger] chain_ready(old(self).ledger_state(), blocks@, i) ==> final(self).ledger_state().stored().contains_key(
                blocks@[i].id,
            ),
            forall|i: int| 0 <= i < r@.len() ==> final(self).ledger_state().stored().contains_key(
                #[trigger] r@[i]) && final(self).ledger_state().stored()[r@[i]].sequence <= final(self).clock_state().counter(
                final(self).ledger_state().stored()[r@[i]].node_id,
            ),
    {
        let mut applied: Vec<u128> = Vec::new();
        let ghost all = blocks@;
        let ghost l0 = self.ledger;
        let ghost start_clock = self.clock;
        let mut rest = blocks;
        let mut done: Vec<SyncBlock> = Vec::new();
        // Take the blocks from the back, then apply them from the front.
        while rest.len() > 0
            invariant
                rest@.len() + done@.len() == all.len(),
                forall|j: int| 0 <= j < rest@.len() ==> #[trigger] rest@[j] == all[j],
                forall|j: int| 0 <= j < done@.len() ==> #[trigger] done@[j] == all[all.len() - 1 - j],
            decreases rest@.len(),
        {
            let b = rest.pop().unwrap();
            done.push(b);
        }
        let n = done.len();
        let mut i: usize = 0;
        while i < n
            invariant
                self.wf(),
                self.node() == old(self).node(),
                self.pending() == old(self).pending(),
                self.tail() == old(self).tail(),
                self.ledger.public_keys() == l0.public_keys(),
                l0 == old(self).ledger,
                self.clock.no_lower_than(&start_clock),
                start_clock == old(self).clock,
                n == all.len(),
                i <= n,
                done@.len() == n - i,
                forall|j: int| 0 <= j < done@.len() ==> #[trigger] done@[j] == all[n - 1 - j],
                self.ledger.storage_order() == l0.storage_order() + applied@,
                forall|id: u128| #[trigger] l0.stored().contains_key(id) ==> self.ledger.stored().contains_key(id)
                    && self.ledger.stored()[id] == l0.stored()[id],
                forall|j: int| 0 <= j < i && #[trigger] chain_ready(l0, all, j) ==> self.ledger.stored().contains_key(
                    all[j].id,
                ),
                forall|j: int| 0 <= j < applied@.len() ==> self.ledger.stored().contains_key(
                    #[trigger] applied@[j]) && self.ledger.stored()[applied@[j]].sequence
                    <= self.clock.counter(self.ledger.stored()[applied@[j]].node_id),
            decreases n - i,
        {
            let b = done.pop().unwrap();
            assert(b == all[i as int]);
            let ghost before = *self;
            proof {
                if chain_ready(l0, all, i as int) && !before.ledger.stored().contains_key(b.id) {
                    assert(before.ledger.signature_valid_spec(&b));
                    assert(b.previous_hash == all[i as int].previous_hash);
                    if !link_resolved(l0.stored(), b.previous_hash) {
                        let j = earlier_pred(all, i as int);
                        assert(chain_ready(l0, all, j));
                        assert(before.ledger.stored().contains_key(all[j].id));
                    } else {
                        match b.previous_hash {
                            BlockLink::Genesis => {},
                            BlockLink::After(p) => {
                                assert(before.ledger.stored().contains_key(p));
                            },
                        }
                    }
                    assert(link_resolved(before.ledger.stored(), b.previous_hash));
                }
            }
            let ghost bid = b.id;
            let d = self.on_block_received(b);
            proof {
                crate::clock::lemma_monotone_chain(&start_clock, &before.clock, &self.clock);
            }
            assert forall|j: int| 0 <= j < applied@.len() implies self.ledger.stored().contains_key(
                #[trigger] applied@[j]) && self.ledger.stored()[applied@[j]].sequence
                <= self.clock.counter(self.ledger.stored()[applied@[j]].node_id) by {
                let id = applied@[j];
                assert(before.ledger.stored().contains_key(id));
                let nd = before.ledger.stored()[id].node_id;
                assert(before.clock.counter(nd) <= self.clock.counter(nd));
            }
            assert forall|j: int| 0 <= j < i + 1 && #[trigger] chain_ready(l0, all, j) implies self.ledger.stored().contains_key(
                all[j].id,
            ) by {
                if j < i {
                    assert(before.ledger.stored().contains_key(all[j].id));
                } else {
                    assert(all[j].id == bid);
                    if before.ledger.stored().contains_key(bid) {
                        assert(self.ledger.stored().contains_key(bid));
                    }
                }
            }
            let mut k: usize = 0;
            let ghost mid = applied@;
            while k < d.applied.len()
                invariant
                    k <= d.applied@.len(),
                    applied@ == mid + d.applied@.subrange(0, k as int),
                decreases d.applied@.len() - k,
            {
                applied.push(d.applied[k]);
                k = k + 1;
                assert(applied@ =~= mid + d.applied@.subrange(0, k as int));
            }
            assert(d.applied@.subrange(0, d.applied@.len() as int) =~= d.applied@);
            assert(applied@ =~= mid + d.applied@);
            assert(self.ledger.storage_order() =~= l0.storage_order() + applied@);
            assert forall|j: int| 0 <= j < applied@.len() implies self.ledger.stored().contains_key(
                #[trigger] applied@[j]) && self.ledger.stored()[applied@[j]].sequence
                <= self.clock.counter(self.ledger.stored()[applied@[j]].node_id) by {
                if j >= mid.len() {
                    assert(applied@[j] == d.applied@[j - mid.len()]);
                } else {
                    assert(applied@[j] == mid[j]);
                }
            }
            i = i + 1;
        }
        applied
    }

    /// The stored blocks created after `since`, in storage order.
    pub fn blocks_since(&self, since: i64) -> (r: Vec<SyncBlock>)
        requires
            self.wf(),
        ensures
            r@.map_values(|b: SyncBlock| b@) == produced_since(
                self.ledger_state().storage_order(),
                self.ledger_state().stored(),
                since,
            ),
    {
        self.ledger.blocks_since(since)
    }

    /// For each of `peers`, the time from which it is asked for blocks: the
    /// creation time of the newest block stored from it, or the earliest time
    /// there is when none is.
    pub fn request_updates(&self, peers: &Vec<u128>) -> (r: Vec<i64>)
        requires
            self.wf(),
        ensures
            r@ == backfill_times(self.ledger_state(), peers@),
    {
        let mut out: Vec<i64> = Vec::new();
        let mut i: usize = 0;
        while i < peers.len()
            invariant
                self.wf(),
                i <= peers@.len(),
                out@ == backfill_times(self.ledger_state(), peers@.subrange(0, i as int)),
            decreases peers@.len() - i,
        {
            let t = self.ledger.last_heard_from(peers[i]);
            out.push(t);
            i = i + 1;
            assert(out@ =~= backfill_times(self.ledger_state(), peers@.subrange(0, i as int)));
        }
        assert(peers@.subrange(0, peers@.len() as int) =~= peers@);
        out
    }

    /// Drops the held-back blocks created more than `RETENTION_SECONDS` before
    /// `now`. Stored blocks and pending records are kept.
    pub fn cleanup_old_records(&mut self, now: i64)
        requires
            old(self).wf(),
        ensures
            final(self).wf(),
            final(self).ledger_state().queue() == created_from(
                old(self).ledger_state().queue(),
                retention_cutoff(now),
            ),
            final(self).ledger_state().stored() == old(self).ledger_state().stored(),
            final(self).ledger_state().storage_order() == old(self).ledger_state().storage_order(),
            final(self).ledger_state().public_keys() == old(self).ledger_state().public_keys(),
            final(self).clock_state() == old(self).clock_state(),
            final(self).pending() == old(self).pending(),
            final(self).node() == old(self).node(),
            final(self).tail() == old(self).tail(),
    {
        let cutoff = if now >= i64::MIN + RETENTION_SECONDS {
            now - RETENTION_SECONDS
        } else {
            i64::MIN
        };
        self.ledger.prune_queue(cutoff);
    }

    /// One periodic turn at time `now`: cuts a block if records are pending,
    /// prunes old held-back blocks, and gives for each of `peers` the time
    /// from which to ask it for blocks. A failed cut aborts the turn with
    /// nothing changed; it can fail only where records are pending and a
    /// block is stored under the drawn identifier.
    pub fn tick(&mut self, now: i64, peers: &Vec<u128>) -> (r: Result<TickPlan, SyncError>)
        requires
            old(self).wf(),
        ensures
            final(self).wf(),
            final(self).node() == old(self).node(),
            final(self).clock_state().no_lower_than(&old(self).clock_state()),
            old(self).pending().len() == 0 ==> r is Ok,
            match r {
                Ok(plan) => {
                    &&& plan.request_since@ == backfill_times(final(self).ledger_state(), peers@)
                    &&& final(self).pending().len() == 0
                    &&& final(self).ledger_state().queue() == created_from(
                        old(self).ledger_state().queue(),
                        retention_cutoff(now),
                    )
                    &&& (old(self).pending().len() == 0 <==> plan.block is None)
                    &&& match plan.block {
                        Some(b) => b@.records == old(self).pending() && b.previous_hash == old(self).tail()
                            && final(self).ledger_state().stored() == old(self).ledger_state().stored().insert(
                            b.id,
                            b@,
                        ) && final(self).tail() == BlockLink::After(b.id)
                            && final(self).ledger_state().signature_valid_spec(&b),
                        None => final(self).ledger_state().stored() == old(self).ledger_state().stored()
                            && final(self).tail() == old(self).tail() && final(self).clock_state()
                            == old(self).clock_state(),
                    }
                },
                Err(e) => old(self).pending().len() > 0 && cut_refused(*old(self), *final(self), e),
            },
    {
        let block = if self.pending_records.len() > 0 {
            match self.create_sync_block() {
                Ok(b) => Some(b),
                Err(e) => {
                    return Err(e);
                },
            }
        } else {
            None
        };
        self.cleanup_old_records(now);
        let request_since = self.request_updates(peers);
        Ok(TickPlan { block, request_since })
    }

    /// Dispatches one message from the mesh: a new block is applied as
    /// `on_block_received` does, a backfill request is answered with the
    /// blocks created after its time, and the blocks of a backfill answer are
    /// applied in order as `apply_blocks` does.
    pub fn handle_mesh_event(&mut self, event: MeshEvent) -> (r: Reply)
        requires
            old(self).wf(),
        ensures
            final(self).wf(),
            final(self).node() == old(self).node(),
            final(self).pending() == old(self).pending(),
            final(self).clock_state().no_lower_than(&old(self).clock_state()),
            match event {
                MeshEvent::NewBlock(b) => match r {
                    Reply::Applied(ids) => {
                        &&& final(self).ledger_state().storage_order() == old(self).ledger_state().storage_order()
                            + ids@
                        &&& old(self).ledger_state().stored().contains_key(b.id) ==> final(self).ledger_state()
                            == old(self).ledger_state() && final(self).clock_state() == old(self).clock_state()
                        &&& old(self).ledger_state().signature_valid_spec(&b) && link_resolved(
                            old(self).ledger_state().stored(),
                            b.previous_hash,
                        ) ==> final(self).ledger_state().stored().contains_key(b.id)
                        &&& !old(self).ledger_state().stored().contains_key(b.id) && old(self).ledger_state().signature_valid_spec(&b)
                            && link_resolved(old(self).ledger_state().stored(), b.previous_hash) ==> ids@.len() >= 1
                            && ids@[0] == b.id
                    },
                    _ => false,
                },
                MeshEvent::BlockRequest { from_peer, since } => match r {
                    Reply::Respond { to_peer, blocks } => to_peer@ == from_peer@ && blocks@.map_values(
                        |b: SyncBlock| b@,
                    ) == produced_since(
                        old(self).ledger_state().storage_order(),
                        old(self).ledger_state().stored(),
                        since,
                    ) && final(self).ledger_state() == old(self).ledger_state() && final(self).clock_state()
                        == old(self).clock_state(),
                    _ => false,
                },
                MeshEvent::BlockResponse { from_peer, blocks } => match r {
                    Reply::Applied(ids) => {
                        &&& final(self).ledger_state().storage_order() == old(self).ledger_state().storage_order()
                            + ids@
                        &&& forall|i: int| #[trigger] chain_ready(old(self).ledger_state(), blocks@, i)
                            ==> final(self).ledger_state().stored().contains_key(blocks@[i].id)
                    },
                    _ => false,
                },
            },
    {
        match event {
            MeshEvent::NewBlock(block) => {
                let d = self.on_block_received(block);
                Reply::Applied(d.applied)
            },
            MeshEvent::BlockRequest { from_peer, since } => {
                let blocks = self.blocks_since(since);
                Reply::Respond { to_peer: from_peer, blocks }
            },
            MeshEvent::BlockResponse { from_peer, blocks } => {
                let applied = self.apply_blocks(blocks);
                Reply::Applied(applied)
            },
        }
    }
}

} // verus!
