//! Per-producer progress counters.
use vstd::prelude::*;
use std::collections::HashMap;

verus! {

broadcast use vstd::std_specs::hash::group_hash_axioms;

pub open spec fn max_u64(a: u64, b: u64) -> u64 {
    if a >= b { a } else { b }
}

/// The counter a map records for `node`; zero where it records none.
pub open spec fn counter_in(m: Map<u128, u64>, node: u128) -> u64 {
    if m.contains_key(node) {
        m[node]
    } else {
        0
    }
}

/// A vector clock: a counter for every node, zero unless raised.
pub struct VectorClock {
    counters: HashMap<u128, u64>,
}

impl VectorClock {
    /// Any map of counters is a valid clock.
    pub closed spec fn wf(&self) -> bool {
        true
    }

    /// The counter recorded for `node`.
    pub closed spec fn counter(&self, node: u128) -> u64 {
        counter_in(self.counters@, node)
    }

    /// Every counter of `other` is at most the matching counter of `self`.
    pub open spec fn dominates(&self, other: &VectorClock) -> bool {
        forall|n: u128| #[trigger] other.counter(n) <= self.counter(n)
    }

    /// No counter of `self` is below the matching counter of `before`.
    pub open spec fn no_lower_than(&self, before: &VectorClock) -> bool {
        self.dominates(before)
    }

    /// A clock with every counter at zero.
    pub fn new() -> (r: VectorClock)
        ensures
            r.wf(),
            forall|n: u128| #[trigger] r.counter(n) == 0,
    {
        VectorClock { counters: HashMap::new() }
    }

    /// The counter recorded for `node`.
    pub fn get(&self, node: u128) -> (r: u64)
        requires
            self.wf(),
        ensures
            r == self.counter(node),
    {
        match self.counters.get(&node) {
            Some(v) => *v,
            None => 0,
        }
    }

    /// Raises the counter of `node` to `value` if it is lower; never lowers it.
    pub fn observe(&mut self, node: u128, value: u64)
        requires
            old(self).wf(),
        ensures
            final(self).wf(),
            final(self).counter(node) == max_u64(old(self).counter(node), value),
            forall|n: u128| n != node ==> #[trigger] final(self).counter(n) == old(self).counter(n),
            final(self).no_lower_than(old(self)),
    {
        let current = self.get(node);
        if value > current {
            self.counters.insert(node, value);
        }
    }

    /// Advances the counter of `node` by one, staying at `u64::MAX` once there.
    pub fn advance(&mut self, node: u128)
        requires
            old(self).wf(),
        ensures
            final(self).wf(),
            old(self).counter(node) < u64::MAX ==> final(self).counter(node) == old(self).counter(node) + 1,
            old(self).counter(node) == u64::MAX ==> final(self).counter(node) == u64::MAX,
            forall|n: u128| n != node ==> #[trigger] final(self).counter(n) == old(self).counter(n),
            final(self).no_lower_than(old(self)),
    {
        let current = self.get(node);
        if current < u64::MAX {
            self.counters.insert(node, current + 1);
        }
    }

    /// Joins `other` into `self`: every counter becomes the larger of the two.
    pub fn merge(&mut self, other: &VectorClock)
        requires
            old(self).wf(),
            other.wf(),
        ensures
            final(self).wf(),
            forall|n: u128| #[trigger] final(self).counter(n) == max_u64(
                old(self).counter(n),
                other.counter(n),
            ),
            final(self).no_lower_than(old(self)),
            final(self).dominates(other),
    {
        let ghost start = *self;
        proof {
            vstd::std_specs::hash::axiom_spec_keys_iter(&other.counters);
        }
        for k in it: other.counters.keys()
            invariant
                it.seq().unref().to_set() == other.counters@.dom(),
                forall|n: u128|
                    (exists|j: int| 0 <= j < it.index() && *it.seq()[j] == n) ==> #[trigger] self.counter(n)
                        == max_u64(start.counter(n), other.counter(n)),
                forall|n: u128|
                    !(exists|j: int| 0 <= j < it.index() && *it.seq()[j] == n) ==> #[trigger] self.counter(n)
                        == start.counter(n),
                forall|n: u128|
                    #[trigger] self.counter(n) == max_u64(start.counter(n), other.counter(n)) || (exists|
                        j: int,
                    | it.index() <= j < it.seq().len() && *it.seq()[j] == n),
        {
            let ghost idx = it.index();
            let ghost sq = it.seq();
            let ghost before = *self;
            assert(*k == *sq[idx]);
            let node = *k;
            let value = other.get(node);
            self.observe(node, value);
            proof {
                assert forall|n: u128|
                    (exists|j: int| 0 <= j < idx + 1 && *sq[j] == n) implies #[trigger] self.counter(n)
                        == max_u64(start.counter(n), other.counter(n)) by {
                    if n != node {
                        let j = choose|j: int| 0 <= j < idx + 1 && *sq[j] == n;
                        assert(j < idx);
                        assert(exists|j: int| 0 <= j < idx && *sq[j] == n);
                    } else if !(exists|j: int| 0 <= j < idx && *sq[j] == n) {
                        assert(before.counter(n) == start.counter(n));
                    }
                }
                assert forall|n: u128|
                    !(exists|j: int| 0 <= j < idx + 1 && *sq[j] == n) implies #[trigger] self.counter(n)
                        == start.counter(n) by {
                    if n == node {
                        assert(*sq[idx] == n);
                    }
                }
            }
        }
    }

    /// Whether every counter of `other` is at most the matching counter of `self`,
    /// that is, whether nothing needs to be fetched from the holder of `other`.
    pub fn covers(&self, other: &VectorClock) -> (r: bool)
        requires
            self.wf(),
            other.wf(),
        ensures
            r == self.dominates(other),
    {
        proof {
            vstd::std_specs::hash::axiom_spec_keys_iter(&other.counters);
        }
        for k in it: other.counters.keys()
            invariant
                it.seq().unref().to_set() == other.counters@.dom(),
                forall|n: u128|
                    #[trigger] other.counter(n) <= self.counter(n) || (exists|j: int|
                        it.index() <= j < it.seq().len() && *it.seq()[j] == n),
        {
            let ghost idx = it.index();
            let ghost sq = it.seq();
            assert(*k == *sq[idx]);
            let node = *k;
            if other.get(node) > self.get(node) {
                assert(other.counter(node) > self.counter(node));
                return false;
            }
            proof {
                assert forall|n: u128|
                    #[trigger] other.counter(n) <= self.counter(n) || (exists|j: int|
                        idx + 1 <= j < sq.len() && *sq[j] == n) by {
                    if other.counter(n) > self.counter(n) {
                        let j = choose|j: int| idx <= j < sq.len() && *sq[j] == n;
                        if j == idx {
                            assert(n == node);
                        }
                    }
                }
            }
        }
        true
    }
}

/// Counters never go down along a run: if each clock is no lower than the
/// one before it, the last is no lower than the first.
pub proof fn lemma_monotone_chain(a: &VectorClock, b: &VectorClock, c: &VectorClock)
    requires
        b.no_lower_than(a),
        c.no_lower_than(b),
    ensures
        c.no_lower_than(a),
{
    assert forall|n: u128| #[trigger] a.counter(n) <= c.counter(n) by {
        assert(a.counter(n) <= b.counter(n));
        assert(b.counter(n) <= c.counter(n));
    }
}

/// Joining clocks is commutative, associative and idempotent, counter by counter.
pub proof fn lemma_join_laws(a: u64, b: u64, c: u64)
    ensures
        max_u64(a, b) == max_u64(b, a),
        max_u64(max_u64(a, b), c) == max_u64(a, max_u64(b, c)),
        max_u64(a, a) == a,
        a <= max_u64(a, b),
{
}

} // verus!
