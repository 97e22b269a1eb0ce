//! Deterministic choice between two records that describe the same entity.
use vstd::prelude::*;
use crate::models::{RecordView, SyncRecord};

verus! {

/// `a` is below `b` as an unsigned big-endian number of the same width,
/// that is, in lexicographic byte order (a proper prefix is below).
pub open spec fn bytes_below(a: Seq<u8>, b: Seq<u8>) -> bool {
    exists|k: int| #[trigger] first_split(a, b, k) && ((k < a.len() && k < b.len() && a[k] < b[k]) || (k
        == a.len() && k < b.len()))
}

/// `a` and `b` agree on their first `k` bytes, and both have at least `k`.
pub open spec fn first_split(a: Seq<u8>, b: Seq<u8>, k: int) -> bool {
    0 <= k <= a.len() && k <= b.len() && a.subrange(0, k) == b.subrange(0, k)
}

/// The record that survives: the one with the strictly greater digest,
/// the second one when neither digest is greater.
pub open spec fn winner(local: RecordView, remote: RecordView) -> RecordView {
    if bytes_below(remote.hash, local.hash) {
        local
    } else {
        remote
    }
}

proof fn lemma_split_unique(a: Seq<u8>, b: Seq<u8>, k: int, m: int)
    requires
        first_split(a, b, k),
        first_split(a, b, m),
        k < m,
    ensures
        k < a.len() && k < b.len() && a[k] == b[k],
{
    assert(a.subrange(0, m)[k] == b.subrange(0, m)[k]);
}

proof fn lemma_below_asymmetric(a: Seq<u8>, b: Seq<u8>)
    ensures
        !(bytes_below(a, b) && bytes_below(b, a)),
{
    if bytes_below(a, b) && bytes_below(b, a) {
        let k = choose|k: int| #[trigger] first_split(a, b, k) && ((k < a.len() && k < b.len() && a[k]
            < b[k]) || (k == a.len() && k < b.len()));
        let m = choose|m: int| #[trigger] first_split(b, a, m) && ((m < b.len() && m < a.len() && b[m]
            < a[m]) || (m == b.len() && m < a.len()));
        assert(first_split(a, b, m));
        if k < m {
            lemma_split_unique(a, b, k, m);
        } else if m < k {
            lemma_split_unique(a, b, m, k);
        }
    }
}

proof fn lemma_below_total_from(a: Seq<u8>, b: Seq<u8>, i: int)
    requires
        first_split(a, b, i),
        a != b,
    ensures
        bytes_below(a, b) || bytes_below(b, a),
    decreases a.len() - i,
{
    if i == a.len() || i == b.len() {
        if i == a.len() && i == b.len() {
            assert(a =~= a.subrange(0, i));
            assert(b =~= b.subrange(0, i));
        }
        assert(first_split(b, a, i));
    } else if a[i] != b[i] {
        assert(first_split(b, a, i));
    } else {
        assert(a.subrange(0, i + 1) =~= a.subrange(0, i).push(a[i]));
        assert(b.subrange(0, i + 1) =~= b.subrange(0, i).push(b[i]));
        lemma_below_total_from(a, b, i + 1);
    }
}

/// Whether `a` is below `b` in lexicographic byte order.
pub fn hash_below(a: &Vec<u8>, b: &Vec<u8>) -> (r: bool)
    ensures
        r == bytes_below(a@, b@),
{
    let mut i: usize = 0;
    assert(a@.subrange(0, 0) =~= b@.subrange(0, 0));
    while i < a.len() && i < b.len() && a[i] == b[i]
        invariant
            first_split(a@, b@, i as int),
        decreases a@.len() - i,
    {
        assert(a@.subrange(0, i + 1) =~= a@.subrange(0, i as int).push(a@[i as int]));
        assert(b@.subrange(0, i + 1) =~= b@.subrange(0, i as int).push(b@[i as int]));
        i = i + 1;
    }
    let r = if i < a.len() && i < b.len() {
        a[i] < b[i]
    } else {
        i == a.len() && i < b.len()
    };
    proof {
        let k = i as int;
        if r {
            assert(first_split(a@, b@, k));
        } else if bytes_below(a@, b@) {
            let m = choose|m: int| #[trigger] first_split(a@, b@, m) && ((m < a@.len() && m < b@.len()
                && a@[m] < b@[m]) || (m == a@.len() && m < b@.len()));
            if m < k {
                lemma_split_unique(a@, b@, m, k);
            } else if k < m {
                lemma_split_unique(a@, b@, k, m);
            }
        }
    }
    r
}

/// Picks between two conflicting records: the one whose digest is strictly
/// greater wins; when neither is greater the remote record is kept.
pub fn resolve_conflicts(local: &SyncRecord, remote: &SyncRecord) -> (r: SyncRecord)
    ensures
        r@ == winner(local@, remote@),
{
    if hash_below(&remote.hash, &local.hash) {
        local.duplicate()
    } else {
        remote.duplicate()
    }
}

/// The winner does not depend on the order of the arguments, for records
/// with different digests or identical records.
pub proof fn lemma_winner_symmetric(a: RecordView, b: RecordView)
    requires
        a.hash != b.hash || a == b,
    ensures
        winner(a, b) == winner(b, a),
{
    lemma_below_asymmetric(a.hash, b.hash);
    if a.hash != b.hash {
        assert(a.hash.subrange(0, 0) =~= b.hash.subrange(0, 0));
        assert(first_split(a.hash, b.hash, 0));
        lemma_below_total_from(a.hash, b.hash, 0);
    }
}

/// Keeping the winner again changes nothing.
pub proof fn lemma_winner_idempotent(a: RecordView, b: RecordView)
    ensures
        winner(winner(a, b), b) == winner(a, b),
        winner(a, a) == a,
{
    lemma_below_asymmetric(a.hash, b.hash);
    lemma_below_asymmetric(a.hash, a.hash);
}

} // verus!
