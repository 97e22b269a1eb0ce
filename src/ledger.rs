//! The local block store: validation, idempotent storage, queuing of blocks
//! whose predecessor is not stored yet, and backfill answers.
use vstd::prelude::*;
use std::collections::HashMap;
use crate::codec::{canonical_bytes, encode_block};
use crate::crypto::{ed25519_accepts, ed25519_verify};
use crate::models::{BlockLink, BlockView, SyncBlock};

verus! {

broadcast use vstd::std_specs::hash::group_hash_axioms;

/// The error kinds of the synchronization core.
#[derive(Debug, Clone, Copy, PartialEq, Eq, Structural)]
pub enum SyncError {
    InvalidSignature,
    UnknownPredecessor,
    MalformedMessage,
    StoreUnavailable,
    CryptoFailure,
    /// A new block drew an identifier that a stored block already has.
    IdentifierTaken,
}

/// What became of a received block.
#[derive(Debug, Clone, Copy, PartialEq, Eq, Structural)]
pub enum Received {
    /// Already stored: nothing changed.
    Duplicate,
    /// Failed validation and was dropped.
    Rejected(SyncError),
    /// Held back until its predecessor is stored.
    Queued,
    /// Stored.
    Stored,
}

/// Whether the block a link names is available: the genesis link always is.
pub open spec fn link_resolved(stored: Map<u128, BlockView>, link: BlockLink) -> bool {
    match link {
        BlockLink::Genesis => true,
        BlockLink::After(p) => stored.contains_key(p),
    }
}

/// The stored state after storing `b`: a block already stored is left as it is.
pub open spec fn accept(stored: Map<u128, BlockView>, b: BlockView) -> Map<u128, BlockView> {
    if stored.contains_key(b.id) {
        stored
    } else {
        stored.insert(b.id, b)
    }
}

/// The verdict of validation, given whether the signature verified.
pub open spec fn validation(stored: Map<u128, BlockView>, b: BlockView, signature_ok: bool) -> Result<
    (),
    SyncError,
> {
    if !signature_ok {
        Err(SyncError::InvalidSignature)
    } else if !link_resolved(stored, b.previous_hash) {
        Err(SyncError::UnknownPredecessor)
    } else {
        Ok(())
    }
}

/// The stored blocks listed in `order` whose timestamp is after `since`, in that order.
pub open spec fn produced_since(order: Seq<u128>, stored: Map<u128, BlockView>, since: i64) -> Seq<
    BlockView,
>
    decreases order.len(),
{
    if order.len() == 0 {
        Seq::empty()
    } else {
        let rest = produced_since(order.drop_last(), stored, since);
        let b = stored[order.last()];
        if b.timestamp > since {
            rest.push(b)
        } else {
            rest
        }
    }
}

/// The creation time of the newest block stored from `node`, or the
/// earliest time there is when none is stored.
pub open spec fn last_heard(order: Seq<u128>, stored: Map<u128, BlockView>, node: u128) -> i64
    decreases order.len(),
{
    if order.len() == 0 {
        i64::MIN
    } else {
        let rest = last_heard(order.drop_last(), stored, node);
        let b = stored[order.last()];
        if b.node_id == node && b.timestamp > rest {
            b.timestamp
        } else {
            rest
        }
    }
}

/// The blocks of `q` created at or after `cutoff`, in the same order.
pub open spec fn created_from(q: Seq<BlockView>, cutoff: i64) -> Seq<BlockView>
    decreases q.len(),
{
    if q.len() == 0 {
        Seq::empty()
    } else {
        let rest = created_from(q.drop_last(), cutoff);
        if q.last().timestamp >= cutoff {
            rest.push(q.last())
        } else {
            rest
        }
    }
}

pub struct Ledger {
    blocks: HashMap<u128, SyncBlock>,
    order: Vec<u128>,
    queued: Vec<SyncBlock>,
    queue_limit: usize,
    keys: HashMap<u128, Vec<u8>>,
}

impl Ledger {
    /// Stored blocks by identifier.
    pub closed spec fn stored(&self) -> Map<u128, BlockView> {
        self.blocks@.map_values(|b: SyncBlock| b@)
    }

    /// Identifiers of the stored blocks, in the order they were stored.
    pub closed spec fn storage_order(&self) -> Seq<u128> {
        self.order@
    }

    /// Blocks waiting for their predecessor, oldest first.
    pub closed spec fn queue(&self) -> Seq<BlockView> {
        self.queued@.map_values(|b: SyncBlock| b@)
    }

    pub closed spec fn queue_capacity(&self) -> nat {
        self.queue_limit as nat
    }

    /// Declared public keys of producers.
    pub closed spec fn public_keys(&self) -> Map<u128, Seq<u8>> {
        self.keys@.map_values(|k: Vec<u8>| k@)
    }

    pub closed spec fn wf(&self) -> bool {
        &&& forall|id: u128| #[trigger] self.blocks@.contains_key(id) ==> self.blocks@[id].id == id
        &&& forall|i: int, j: int|
            0 <= i < self.order@.len() && 0 <= j < self.order@.len() && self.order@[i]
                == self.order@[j] ==> i == j
        &&& forall|i: int| 0 <= i < self.order@.len() ==> self.blocks@.contains_key(#[trigger] self.order@[i])
        &&& forall|id: u128| #[trigger] self.blocks@.contains_key(id) ==> exists|i: int|
            0 <= i < self.order@.len() && self.order@[i] == id
        &&& forall|i: int| 0 <= i < self.order@.len() ==> self.linked_before(i)
        &&& 0 < self.queue_limit
        &&& self.queued@.len() <= self.queue_limit
    }

    /// The block stored at position `i` follows genesis or a block stored before it.
    pub closed spec fn linked_before(&self, i: int) -> bool {
        match self.blocks@[self.order@[i]].previous_hash {
            BlockLink::Genesis => true,
            BlockLink::After(p) => exists|j: int| 0 <= j < i && self.order@[j] == p,
        }
    }

    proof fn lemma_same_store(a: &Ledger, b: &Ledger)
        requires
            a.wf(),
            a.blocks@ == b.blocks@,
            a.order@ == b.order@,
            b.queue_limit == a.queue_limit,
            b.queued@.len() <= b.queue_limit,
        ensures
            b.wf(),
    {
        assert forall|i: int| 0 <= i < b.order@.len() implies b.linked_before(i) by {
            assert(a.linked_before(i));
        }
    }

    /// Every identifier in the storage order is stored.
    pub proof fn lemma_order_stored(l: &Ledger, i: int)
        requires
            l.wf(),
            0 <= i < l.storage_order().len(),
        ensures
            l.stored().contains_key(l.storage_order()[i]),
    {
    }

    /// Every stored block follows genesis or a stored block that was stored before it.
    pub open spec fn chained(&self) -> bool {
        forall|id: u128| #[trigger] self.stored().contains_key(id) ==> match self.stored()[id].previous_hash {
            BlockLink::Genesis => true,
            BlockLink::After(p) => self.stored().contains_key(p) && exists|i: int, j: int|
                0 <= j < i < self.storage_order().len() && self.storage_order()[i] == id
                    && self.storage_order()[j] == p,
        }
    }

    /// An empty ledger that holds at most `queue_limit` blocks back.
    pub fn new(queue_limit: usize) -> (r: Ledger)
        requires
            queue_limit > 0,
        ensures
            r.wf(),
            r.stored() == Map::<u128, BlockView>::empty(),
            r.storage_order() == Seq::<u128>::empty(),
            r.queue() == Seq::<BlockView>::empty(),
            r.queue_capacity() == queue_limit,
            r.public_keys() == Map::<u128, Seq<u8>>::empty(),
    {
        let r = Ledger {
            blocks: HashMap::new(),
            order: Vec::new(),
            queued: Vec::new(),
            queue_limit,
            keys: HashMap::new(),
        };
        assert(r.stored() =~= Map::<u128, BlockView>::empty());
        assert(r.queue() =~= Seq::<BlockView>::empty());
        assert(r.public_keys() =~= Map::<u128, Seq<u8>>::empty());
        r
    }

    /// Declares `key` as the public key of `node`.
    pub fn register_key(&mut self, node: u128, key: Vec<u8>)
        requires
            old(self).wf(),
        ensures
            final(self).wf(),
            final(self).public_keys() == old(self).public_keys().insert(node, key@),
            final(self).stored() == old(self).stored(),
            final(self).storage_order() == old(self).storage_order(),
            final(self).queue() == old(self).queue(),
            final(self).queue_capacity() == old(self).queue_capacity(),
    {
        let ghost k = key@;
        self.keys.insert(node, key);
        assert(self.public_keys() =~= old(self).public_keys().insert(node, k));
        proof {
            Ledger::lemma_same_store(old(self), self);
        }
    }

    /// Number of blocks held back for a missing predecessor.
    pub fn queued_count(&self) -> (r: usize)
        ensures
            r == self.queue().len(),
    {
        self.queued.len()
    }

    /// Identifiers of the stored blocks, in the order they were stored.
    pub fn stored_ids(&self) -> (r: &Vec<u128>)
        ensures
            r@ == self.storage_order(),
    {
        &self.order
    }

    /// Whether no block with this identifier is stored.
    pub fn is_new(&self, id: u128) -> (r: bool)
        ensures
            r == !self.stored().contains_key(id),
    {
        !self.blocks.contains_key(&id)
    }

    /// The stored block with this identifier.
    pub fn get(&self, id: u128) -> (r: Option<&SyncBlock>)
        ensures
            match r {
                Some(b) => self.stored().contains_key(id) && b@ == self.stored()[id],
                None => !self.stored().contains_key(id),
            },
    {
        self.blocks.get(&id)
    }

    fn link_known(&self, link: BlockLink) -> (r: bool)
        ensures
            r == link_resolved(self.stored(), link),
    {
        match link {
            BlockLink::Genesis => true,
            BlockLink::After(p) => self.blocks.contains_key(&p),
        }
    }

    /// The block's signature verifies against its producer's declared key.
    pub open spec fn signature_valid_spec(&self, b: &SyncBlock) -> bool {
        self.public_keys().contains_key(b.node_id) && ed25519_accepts(
            self.public_keys()[b.node_id],
            encode_block(b@),
            b.signature@,
        )
    }

    /// Whether the block's signature verifies against its producer's declared key.
    pub fn signature_valid(&self, b: &SyncBlock) -> (r: bool)
        ensures
            r == self.signature_valid_spec(b),
    {
        match self.keys.get(&b.node_id) {
            Some(key) => {
                let message = canonical_bytes(b);
                ed25519_verify(key, &message, &b.signature)
            },
            None => false,
        }
    }

    /// Validation of a block whose signature check gave `signature_ok`.
    pub fn validate_with(&self, b: &SyncBlock, signature_ok: bool) -> (r: Result<(), SyncError>)
        ensures
            r == validation(self.stored(), b@, signature_ok),
    {
        if !signature_ok {
            Err(SyncError::InvalidSignature)
        } else if !self.link_known(b.previous_hash) {
            Err(SyncError::UnknownPredecessor)
        } else {
            Ok(())
        }
    }

    /// Validation of a block: its signature, then its predecessor.
    pub fn validate(&self, b: &SyncBlock) -> (r: Result<(), SyncError>)
        ensures
            r == validation(self.stored(), b@, self.signature_valid_spec(b)),
    {
        let ok = self.signature_valid(b);
        self.validate_with(b, ok)
    }

    fn store(&mut self, b: SyncBlock)
        requires
            old(self).wf(),
            !old(self).stored().contains_key(b.id),
            link_resolved(old(self).stored(), b.previous_hash),
        ensures
            final(self).wf(),
            final(self).stored() == old(self).stored().insert(b.id, b@),
            final(self).storage_order() == old(self).storage_order().push(b.id),
            final(self).queue() == old(self).queue(),
            final(self).queue_capacity() == old(self).queue_capacity(),
            final(self).public_keys() == old(self).public_keys(),
    {
        let ghost bv = b@;
        let ghost old_order = self.order@;
        let id = b.id;
        self.blocks.insert(id, b);
        self.order.push(id);
        proof {
            assert(self.stored() =~= old(self).stored().insert(id, bv));
            let n = old_order.len() as int;
            assert(self.order@[n] == id);
            assert forall|i: int| 0 <= i < self.order@.len() implies self.linked_before(i) by {
                if i < n {
                    assert(old(self).linked_before(i));
                    assert(self.order@[i] == old_order[i]);
                    assert(self.blocks@[self.order@[i]] == old(self).blocks@[old_order[i]]);
                    match self.blocks@[self.order@[i]].previous_hash {
                        BlockLink::Genesis => {},
                        BlockLink::After(p) => {
                            let j = choose|j: int| 0 <= j < i && old_order[j] == p;
                            assert(self.order@[j] == p);
                        },
                    }
                } else {
                    match bv.previous_hash {
                        BlockLink::Genesis => {},
                        BlockLink::After(p) => {
                            assert(old(self).blocks@.contains_key(p));
                            let j = choose|j: int| 0 <= j < old_order.len() && old_order[j] == p;
                            assert(self.order@[j] == p);
                        },
                    }
                }
            }
            assert forall|id2: u128| #[trigger] self.blocks@.contains_key(id2) implies exists|i: int|
                0 <= i < self.order@.len() && self.order@[i] == id2 by {
                if id2 == id {
                    assert(self.order@[n] == id2);
                } else {
                    assert(old(self).blocks@.contains_key(id2));
                    let i = choose|i: int| 0 <= i < old_order.len() && old_order[i] == id2;
                    assert(self.order@[i] == id2);
                }
            }
            assert forall|i: int, j: int|
                0 <= i < self.order@.len() && 0 <= j < self.order@.len() && self.order@[i]
                    == self.order@[j] implies i == j by {
                if i < n && j == n {
                    assert(old(self).blocks@.contains_key(old_order[i]));
                }
                if j < n && i == n {
                    assert(old(self).blocks@.contains_key(old_order[j]));
                }
            }
        }
    }

    /// Handles a received block whose signature check gave `signature_ok`:
    /// a stored block is a no-op, a block that fails its signature is dropped,
    /// a block whose predecessor is missing is queued (the oldest queued block
    /// makes room when the queue is full), and any other block is stored.
    pub fn receive(&mut self, b: SyncBlock, signature_ok: bool) -> (r: Received)
        requires
            old(self).wf(),
        ensures
            final(self).wf(),
            final(self).public_keys() == old(self).public_keys(),
            final(self).queue_capacity() == old(self).queue_capacity(),
            old(self).stored().contains_key(b.id) ==> r == Received::Duplicate && final(self).stored()
                == old(self).stored() && final(self).storage_order() == old(self).storage_order()
                && final(self).queue() == old(self).queue(),
            !old(self).stored().contains_key(b.id) && !signature_ok ==> r == Received::Rejected(
                SyncError::InvalidSignature,
            ) && final(self).stored() == old(self).stored() && final(self).storage_order() == old(self).storage_order() && final(self).queue() == old(self).queue(),
            !old(self).stored().contains_key(b.id) && signature_ok && !link_resolved(
                old(self).stored(),
                b.previous_hash,
            ) ==> r == Received::Queued && final(self).stored() == old(self).stored()
                && final(self).storage_order() == old(self).storage_order() && (if old(self).queue().len() < old(self).queue_capacity() {
                final(self).queue() == old(self).queue().push(b@)
            } else {
                final(self).queue() == old(self).queue().drop_first().push(b@)
            }),
            !old(self).stored().contains_key(b.id) && signature_ok && link_resolved(
                old(self).stored(),
                b.previous_hash,
            ) ==> r == Received::Stored && final(self).stored() == old(self).stored().insert(b.id, b@)
                && final(self).storage_order() == old(self).storage_order().push(b.id)
                && final(self).queue() == old(self).queue(),
            final(self).stored() == accept(old(self).stored(), b@) || final(self).stored() == old(self).stored(),
            r == Received::Duplicate || r == Received::Rejected(SyncError::InvalidSignature) ==> *final(self)
                == *old(self),
    {
        if !self.is_new(b.id) {
            return Received::Duplicate;
        }
        if !signature_ok {
            return Received::Rejected(SyncError::InvalidSignature);
        }
        if !self.link_known(b.previous_hash) {
            let ghost bv = b@;
            if self.queued.len() >= self.queue_limit {
                self.queued.remove(0);
            }
            self.queued.push(b);
            proof {
                Ledger::lemma_same_store(old(self), self);
                if old(self).queue().len() < old(self).queue_capacity() {
                    assert(self.queue() =~= old(self).queue().push(bv));
                } else {
                    assert(self.queue() =~= old(self).queue().drop_first().push(bv));
                }
            }
            return Received::Queued;
        }
        self.store(b);
        Received::Stored
    }

    /// The declared public key of `node`.
    pub fn key_of(&self, node: u128) -> (r: Option<&Vec<u8>>)
        ensures
            match r {
                Some(k) => self.public_keys().contains_key(node) && k@ == self.public_keys()[node],
                None => !self.public_keys().contains_key(node),
            },
    {
        self.keys.get(&node)
    }

    /// The creation time of the newest block stored from `node`.
    pub fn last_heard_from(&self, node: u128) -> (r: i64)
        requires
            self.wf(),
        ensures
            r == last_heard(self.storage_order(), self.stored(), node),
    {
        let mut newest: i64 = i64::MIN;
        let mut i: usize = 0;
        while i < self.order.len()
            invariant
                self.wf(),
                i <= self.order@.len(),
                newest == last_heard(self.order@.subrange(0, i as int), self.stored(), node),
            decreases self.order@.len() - i,
        {
            let id = self.order[i];
            assert(self.blocks@.contains_key(self.order@[i as int]));
            let b = self.blocks.get(&id).unwrap();
            assert(self.order@.subrange(0, i + 1).drop_last() =~= self.order@.subrange(0, i as int));
            if b.node_id == node && b.timestamp > newest {
                newest = b.timestamp;
            }
            i = i + 1;
        }
        assert(self.order@.subrange(0, self.order@.len() as int) =~= self.order@);
        newest
    }

    fn find_ready(&self) -> (r: Option<usize>)
        ensures
            match r {
                Some(i) => i < self.queue().len() && link_resolved(
                    self.stored(),
                    self.queue()[i as int].previous_hash,
                ),
                None => forall|i: int|
                    0 <= i < self.queue().len() ==> !link_resolved(
                        self.stored(),
                        #[trigger] self.queue()[i].previous_hash,
                    ),
            },
    {
        let mut i: usize = 0;
        while i < self.queued.len()
            invariant
                i <= self.queued@.len(),
                forall|j: int|
                    0 <= j < i ==> !link_resolved(
                        self.stored(),
                        #[trigger] self.queue()[j].previous_hash,
                    ),
            decreases self.queued@.len() - i,
        {
            if self.link_known(self.queued[i].previous_hash) {
                return Some(i);
            }
            i = i + 1;
        }
        None
    }

    /// Stores every queued block whose predecessor has become available,
    /// repeatedly, and returns the identifiers stored, in storage order.
    /// Afterwards no queued block has an available predecessor.
    pub fn promote_ready(&mut self) -> (r: Vec<u128>)
        requires
            old(self).wf(),
        ensures
            final(self).wf(),
            final(self).public_keys() == old(self).public_keys(),
            final(self).queue_capacity() == old(self).queue_capacity(),
            final(self).storage_order() == old(self).storage_order() + r@,
            forall|id: u128| #[trigger] old(self).stored().contains_key(id) ==> final(self).stored().contains_key(id) && final(self).stored()[id] == old(self).stored()[id],
            forall|i: int| 0 <= i < final(self).queue().len() ==> !link_resolved(
                final(self).stored(),
                #[trigger] final(self).queue()[i].previous_hash,
            ),
            final(self).queue().len() <= old(self).queue().len(),
            r@.len() == 0 ==> final(self).stored() == old(self).stored(),
    {
        let mut promoted: Vec<u128> = Vec::new();
        loop
            invariant
                self.wf(),
                self.public_keys() == old(self).public_keys(),
                self.queue_capacity() == old(self).queue_capacity(),
                self.storage_order() == old(self).storage_order() + promoted@,
                forall|id: u128| #[trigger] old(self).stored().contains_key(id) ==> self.stored().contains_key(id)
                    && self.stored()[id] == old(self).stored()[id],
                self.queue().len() <= old(self).queue().len(),
                promoted@.len() == 0 ==> self.stored() == old(self).stored(),
            ensures
                self.wf(),
                self.public_keys() == old(self).public_keys(),
                self.queue_capacity() == old(self).queue_capacity(),
                self.storage_order() == old(self).storage_order() + promoted@,
                forall|id: u128| #[trigger] old(self).stored().contains_key(id) ==> self.stored().contains_key(id)
                    && self.stored()[id] == old(self).stored()[id],
                self.queue().len() <= old(self).queue().len(),
                promoted@.len() == 0 ==> self.stored() == old(self).stored(),
                forall|i: int| 0 <= i < self.queue().len() ==> !link_resolved(
                    self.stored(),
                    #[trigger] self.queue()[i].previous_hash,
                ),
            decreases self.queued@.len(),
        {
            match self.find_ready() {
                None => {
                    break ;
                },
                Some(i) => {
                    let ghost before = *self;
                    let b = self.queued.remove(i);
                    proof {
                        assert(self.queue() =~= before.queue().remove(i as int));
                        Ledger::lemma_same_store(&before, self);
                    }
                    if self.is_new(b.id) {
                        let id = b.id;
                        self.store(b);
                        promoted.push(id);
                        assert(self.storage_order() =~= old(self).storage_order() + promoted@);
                    }
                },
            }
        }
        promoted
    }

    /// Drops the queued blocks created before `cutoff`; stored blocks are never touched.
    pub fn prune_queue(&mut self, cutoff: i64)
        requires
            old(self).wf(),
        ensures
            final(self).wf(),
            final(self).queue() == created_from(old(self).queue(), cutoff),
            final(self).stored() == old(self).stored(),
            final(self).storage_order() == old(self).storage_order(),
            final(self).public_keys() == old(self).public_keys(),
            final(self).queue_capacity() == old(self).queue_capacity(),
    {
        let ghost start = *self;
        let ghost q = self.queue();
        let mut taken: Vec<SyncBlock> = Vec::new();
        std::mem::swap(&mut taken, &mut self.queued);
        assert(taken@.map_values(|b: SyncBlock| b@) == q);
        let mut kept: Vec<SyncBlock> = Vec::new();
        let mut i: usize = 0;
        let n = taken.len();
        let mut rest: Vec<SyncBlock> = taken;
        // Move the blocks out one at a time, from the back, then restore the order.
        let mut back: Vec<SyncBlock> = Vec::new();
        while rest.len() > 0
            invariant
                rest@.len() + back@.len() == n,
                n == q.len(),
                forall|j: int| 0 <= j < rest@.len() ==> (#[trigger] rest@[j])@ == q[j],
                forall|j: int| 0 <= j < back@.len() ==> (#[trigger] back@[j])@ == q[n - 1 - j],
            decreases rest@.len(),
        {
            let b = rest.pop().unwrap();
            back.push(b);
        }
        while i < n
            invariant
                i <= n,
                n == q.len(),
                back@.len() == n - i,
                forall|j: int| 0 <= j < back@.len() ==> (#[trigger] back@[j])@ == q[n - 1 - j],
                kept@.map_values(|b: SyncBlock| b@) == created_from(q.subrange(0, i as int), cutoff),
                kept@.len() <= i,
            decreases n - i,
        {
            let b = back.pop().unwrap();
            let ghost bv = b@;
            assert(bv == q[i as int]);
            let ghost prev = kept@;
            if b.timestamp >= cutoff {
                kept.push(b);
                assert(kept@.map_values(|x: SyncBlock| x@) =~= prev.map_values(|x: SyncBlock| x@).push(
                    bv,
                ));
            }
            assert(q.subrange(0, i + 1).drop_last() =~= q.subrange(0, i as int));
            i = i + 1;
        }
        assert(q.subrange(0, n as int) =~= q);
        self.queued = kept;
        proof {
            Ledger::lemma_same_store(&start, self);
        }
    }

    /// The stored blocks created after `since`, in the order they were stored:
    /// the answer to a backfill request.
    pub fn blocks_since(&self, since: i64) -> (r: Vec<SyncBlock>)
        requires
            self.wf(),
        ensures
            r@.map_values(|b: SyncBlock| b@) == produced_since(self.storage_order(), self.stored(), since),
    {
        let mut out: Vec<SyncBlock> = Vec::new();
        let mut i: usize = 0;
        while i < self.order.len()
            invariant
                self.wf(),
                i <= self.order@.len(),
                out@.map_values(|b: SyncBlock| b@) == produced_since(
                    self.order@.subrange(0, i as int),
                    self.stored(),
                    since,
                ),
            decreases self.order@.len() - i,
        {
            let id = self.order[i];
            assert(self.blocks@.contains_key(self.order@[i as int]));
            let b = self.blocks.get(&id).unwrap();
            let ghost prev = out@;
            assert(self.order@.subrange(0, i + 1).drop_last() =~= self.order@.subrange(0, i as int));
            if b.timestamp > since {
                let c = b.duplicate();
                out.push(c);
                assert(out@.map_values(|x: SyncBlock| x@) =~= prev.map_values(|x: SyncBlock| x@).push(
                    self.stored()[id],
                ));
            }
            i = i + 1;
        }
        assert(self.order@.subrange(0, self.order@.len() as int) =~= self.order@);
        out
    }
}

/// The position of the block created last; the first such block on a tie.
pub fn select_latest(blocks: &Vec<SyncBlock>) -> (r: Option<usize>)
    ensures
        blocks@.len() == 0 <==> r is None,
        match r {
            Some(i) => i < blocks@.len() && (forall|j: int|
                0 <= j < blocks@.len() ==> #[trigger] blocks@[j].timestamp <= blocks@[i as int].timestamp)
                && (forall|j: int| 0 <= j < i ==> #[trigger] blocks@[j].timestamp < blocks@[i as int].timestamp),
            None => true,
        },
{
    if blocks.len() == 0 {
        return None;
    }
    let mut best: usize = 0;
    let mut i: usize = 1;
    while i < blocks.len()
        invariant
            0 < blocks@.len(),
            best < i <= blocks@.len(),
            forall|j: int| 0 <= j < i ==> #[trigger] blocks@[j].timestamp <= blocks@[best as int].timestamp,
            forall|j: int| 0 <= j < best ==> #[trigger] blocks@[j].timestamp < blocks@[best as int].timestamp,
        decreases blocks@.len() - i,
    {
        if blocks[i].timestamp > blocks[best].timestamp {
            best = i;
        }
        i = i + 1;
    }
    Some(best)
}

/// Chain integrity: in a well-formed ledger every stored block whose
/// predecessor is not genesis has that predecessor stored, and stored earlier.
pub proof fn lemma_chain_integrity(l: &Ledger)
    requires
        l.wf(),
    ensures
        l.chained(),
{
    assert forall|id: u128| #[trigger] l.stored().contains_key(id) implies match l.stored()[id].previous_hash {
        BlockLink::Genesis => true,
        BlockLink::After(p) => l.stored().contains_key(p) && exists|i: int, j: int|
            0 <= j < i < l.storage_order().len() && l.storage_order()[i] == id
                && l.storage_order()[j] == p,
    } by {
        assert(l.blocks@.contains_key(id));
        let i = choose|i: int| 0 <= i < l.order@.len() && l.order@[i] == id;
        assert(l.linked_before(i));
        match l.blocks@[id].previous_hash {
            BlockLink::Genesis => {},
            BlockLink::After(p) => {
                let j = choose|j: int| 0 <= j < i && l.order@[j] == p;
                assert(l.blocks@.contains_key(l.order@[j]));
                assert(l.stored()[id].previous_hash == BlockLink::After(p));
                assert(l.stored().contains_key(p));
                assert(0 <= j < i < l.storage_order().len() && l.storage_order()[i] == id
                    && l.storage_order()[j] == p);
            },
        }
    }
}

/// Storing the same block twice leaves the same stored state as storing it once.
pub proof fn lemma_accept_idempotent(stored: Map<u128, BlockView>, b: BlockView)
    ensures
        accept(accept(stored, b), b) == accept(stored, b),
{
}

/// Two blocks with different identifiers can be stored in either order with
/// the same result.
pub proof fn lemma_accept_commutes(stored: Map<u128, BlockView>, a: BlockView, b: BlockView)
    requires
        a.id != b.id,
    ensures
        accept(accept(stored, a), b) == accept(accept(stored, b), a),
{
    if !stored.contains_key(a.id) && !stored.contains_key(b.id) {
        assert(stored.insert(a.id, a).insert(b.id, b) =~= stored.insert(b.id, b).insert(a.id, a));
    }
}

} // verus!
