//! The time-bucketed, retention-pruned transaction store.
//!
//! Transactions are grouped into buckets keyed by
//! `window_of(timestamp) = floor(timestamp / 120)`. Each bucket remembers a
//! `representative` timestamp — that of the first transaction ever inserted
//! into it, never updated afterward — and every bucket whose representative
//! is older than `RETENTION_SECONDS` against the current time supplied to
//! the insert is evicted as a side effect of that insert. The current time
//! is an explicit parameter rather than an ambient clock read, so that
//! offline and historical analysis stays deterministic and testable.

use vstd::prelude::*;
use crate::transaction::{Transaction, window_of, RETENTION_SECONDS, WINDOW_SECONDS};

verus! {

/// One time-window bucket: an insertion-ordered sequence of transactions,
/// its window id, and the timestamp of its first-ever member.
pub struct TransactionCluster {
    pub transactions: Vec<Transaction>,
    pub cluster_id: u64,
    pub timestamp: u64,
}

/// Mathematical model of a bucket.
pub ghost struct ClusterModel {
    pub transactions: Seq<Transaction>,
    pub cluster_id: u64,
    pub timestamp: u64,
}

impl View for TransactionCluster {
    type V = ClusterModel;

    open spec fn view(&self) -> ClusterModel {
        ClusterModel {
            transactions: self.transactions@,
            cluster_id: self.cluster_id,
            timestamp: self.timestamp,
        }
    }
}

/// A bucket is well formed when it is nonempty, its representative timestamp
/// is that of its first member, and every member's timestamp maps to the
/// bucket's own window id.
pub open spec fn cluster_wf(c: ClusterModel) -> bool {
    &&& c.transactions.len() >= 1
    &&& c.timestamp == c.transactions[0].timestamp
    &&& forall|k: int|
        0 <= k < c.transactions.len() ==> window_of(
            #[trigger] c.transactions[k].timestamp,
        ) == c.cluster_id
}

/// The store is well formed when every bucket is and no two buckets share a
/// window id.
pub open spec fn clusters_wf(cs: Seq<ClusterModel>) -> bool {
    &&& forall|i: int| 0 <= i < cs.len() ==> cluster_wf(#[trigger] cs[i])
    &&& forall|i: int, j: int|
        0 <= i < j < cs.len() ==> (#[trigger] cs[i]).cluster_id != (#[trigger] cs[j]).cluster_id
}

/// A bucket whose representative timestamp is older than the retention
/// horizon, measured against `now`, is stale and due for eviction.
pub open spec fn is_stale(representative: u64, now: u64) -> bool {
    representative + RETENTION_SECONDS < now
}

/// The store after eviction: the stale buckets removed, order kept.
pub open spec fn spec_cleanup(cs: Seq<ClusterModel>, now: u64) -> Seq<ClusterModel>
    decreases cs.len(),
{
    if cs.len() == 0 {
        Seq::empty()
    } else {
        let rest = spec_cleanup(cs.drop_first(), now);
        if is_stale(cs[0].timestamp, now) {
            rest
        } else {
            seq![cs[0]] + rest
        }
    }
}

/// Index of the first bucket keyed by window id `w`, if any.
pub open spec fn find_cluster(cs: Seq<ClusterModel>, w: u64) -> Option<int>
    decreases cs.len(),
{
    if cs.len() == 0 {
        None
    } else if cs[0].cluster_id == w {
        Some(0)
    } else {
        match find_cluster(cs.drop_first(), w) {
            Some(j) => Some(j + 1),
            None => None,
        }
    }
}

/// The store after appending `tx` to its window's bucket, creating that
/// bucket first when absent (its representative timestamp is then `tx`'s).
pub open spec fn spec_insert(cs: Seq<ClusterModel>, tx: Transaction) -> Seq<ClusterModel> {
    let w = window_of(tx.timestamp);
    match find_cluster(cs, w) {
        Some(j) => cs.update(
            j,
            ClusterModel {
                transactions: cs[j].transactions.push(tx),
                cluster_id: cs[j].cluster_id,
                timestamp: cs[j].timestamp,
            },
        ),
        None => cs.push(
            ClusterModel { transactions: seq![tx], cluster_id: w, timestamp: tx.timestamp },
        ),
    }
}

/// One full insert: bucket the transaction, then evict every stale bucket
/// against the supplied current time.
pub open spec fn spec_process(cs: Seq<ClusterModel>, tx: Transaction, now: u64) -> Seq<
    ClusterModel,
> {
    spec_cleanup(spec_insert(cs, tx), now)
}

/// `find_cluster` returns the first index keyed by `w`, and `None` exactly
/// when no bucket is.
pub proof fn lemma_find_cluster(cs: Seq<ClusterModel>, w: u64)
    ensures
        match find_cluster(cs, w) {
            Some(j) => 0 <= j < cs.len() && cs[j].cluster_id == w && forall|k: int|
                0 <= k < j ==> (#[trigger] cs[k]).cluster_id != w,
            None => forall|k: int| 0 <= k < cs.len() ==> (#[trigger] cs[k]).cluster_id != w,
        },
    decreases cs.len(),
{
    if cs.len() > 0 && cs[0].cluster_id != w {
        lemma_find_cluster(cs.drop_first(), w);
        let rest = cs.drop_first();
        match find_cluster(rest, w) {
            Some(j) => {
                assert(cs[j + 1] == rest[j]);
                assert forall|k: int| 0 <= k < j + 1 implies (#[trigger] cs[k]).cluster_id
                    != w by {
                    if k > 0 {
                        assert(rest[k - 1] == cs[k]);
                    }
                }
            },
            None => {
                assert forall|k: int| 0 <= k < cs.len() implies (#[trigger] cs[k]).cluster_id
                    != w by {
                    if k > 0 {
                        assert(rest[k - 1] == cs[k]);
                    }
                }
            },
        }
    }
}

/// Eviction appends: removing the stale buckets of `s.push(c)` removes those
/// of `s` and then keeps or drops `c` by its own staleness.
pub proof fn lemma_cleanup_push(s: Seq<ClusterModel>, c: ClusterModel, now: u64)
    ensures
        spec_cleanup(s.push(c), now) == spec_cleanup(s, now) + (if is_stale(c.timestamp, now) {
            Seq::<ClusterModel>::empty()
        } else {
            seq![c]
        }),
    decreases s.len(),
{
    let tail = if is_stale(c.timestamp, now) {
        Seq::<ClusterModel>::empty()
    } else {
        seq![c]
    };
    if s.len() == 0 {
        assert(s.push(c).drop_first() =~= Seq::<ClusterModel>::empty());
        assert(spec_cleanup(s.push(c).drop_first(), now) =~= Seq::<ClusterModel>::empty());
        if !is_stale(c.timestamp, now) {
            assert(seq![s.push(c)[0]] + Seq::<ClusterModel>::empty() =~= tail);
        }
        assert(spec_cleanup(s, now) + tail =~= tail);
    } else {
        assert(s.push(c).drop_first() =~= s.drop_first().push(c));
        lemma_cleanup_push(s.drop_first(), c, now);
        assert(s.push(c)[0] == s[0]);
        if !is_stale(s[0].timestamp, now) {
            assert(seq![s[0]] + (spec_cleanup(s.drop_first(), now) + tail) =~= (seq![s[0]]
                + spec_cleanup(s.drop_first(), now)) + tail);
        }
    }
}

/// Every bucket that survives eviction was in the store before it.
pub proof fn lemma_cleanup_elements(cs: Seq<ClusterModel>, now: u64)
    ensures
        forall|i: int|
            0 <= i < spec_cleanup(cs, now).len() ==> cs.contains(
                #[trigger] spec_cleanup(cs, now)[i],
            ),
    decreases cs.len(),
{
    if cs.len() > 0 {
        lemma_cleanup_elements(cs.drop_first(), now);
        let rest = spec_cleanup(cs.drop_first(), now);
        assert forall|i: int| 0 <= i < spec_cleanup(cs, now).len() implies cs.contains(
            spec_cleanup(cs, now)[i],
        ) by {
            let r = spec_cleanup(cs, now);
            if is_stale(cs[0].timestamp, now) || i > 0 {
                let e = if is_stale(cs[0].timestamp, now) {
                    rest[i]
                } else {
                    rest[i - 1]
                };
                assert(cs.drop_first().contains(e));
                let k = choose|k: int| 0 <= k < cs.drop_first().len() && cs.drop_first()[k] == e;
                assert(cs[k + 1] == e);
            } else {
                assert(r[0] == cs[0]);
            }
        }
    }
}

/// A surviving bucket is not stale.
pub proof fn lemma_cleanup_not_stale(cs: Seq<ClusterModel>, now: u64)
    ensures
        forall|i: int|
            0 <= i < spec_cleanup(cs, now).len() ==> !is_stale(
                (#[trigger] spec_cleanup(cs, now)[i]).timestamp,
                now,
            ),
    decreases cs.len(),
{
    if cs.len() > 0 {
        lemma_cleanup_not_stale(cs.drop_first(), now);
        let rest = spec_cleanup(cs.drop_first(), now);
        assert forall|i: int| 0 <= i < spec_cleanup(cs, now).len() implies !is_stale(
            (#[trigger] spec_cleanup(cs, now)[i]).timestamp,
            now,
        ) by {
            if is_stale(cs[0].timestamp, now) {
                assert(spec_cleanup(cs, now)[i] == rest[i]);
            } else if i > 0 {
                assert(spec_cleanup(cs, now)[i] == rest[i - 1]);
            }
        }
    }
}

/// Every bucket that is not stale survives eviction.
pub proof fn lemma_cleanup_keeps(cs: Seq<ClusterModel>, now: u64, i: int)
    requires
        0 <= i < cs.len(),
        !is_stale(cs[i].timestamp, now),
    ensures
        spec_cleanup(cs, now).contains(cs[i]),
    decreases cs.len(),
{
    if i == 0 {
        assert(spec_cleanup(cs, now)[0] == cs[0]);
    } else {
        lemma_cleanup_keeps(cs.drop_first(), now, i - 1);
        let rest = spec_cleanup(cs.drop_first(), now);
        let k = choose|k: int| 0 <= k < rest.len() && rest[k] == cs.drop_first()[i - 1];
        if is_stale(cs[0].timestamp, now) {
            assert(spec_cleanup(cs, now)[k] == cs[i]);
        } else {
            assert(spec_cleanup(cs, now)[k + 1] == cs[i]);
        }
    }
}

/// Eviction preserves well-formedness of the store.
pub proof fn lemma_cleanup_wf(cs: Seq<ClusterModel>, now: u64)
    requires
        clusters_wf(cs),
    ensures
        clusters_wf(spec_cleanup(cs, now)),
    decreases cs.len(),
{
    if cs.len() > 0 {
        assert(forall|k: int| 0 <= k < cs.drop_first().len() ==> cs.drop_first()[k] == cs[k + 1]);
        assert(clusters_wf(cs.drop_first()));
        lemma_cleanup_wf(cs.drop_first(), now);
        lemma_cleanup_elements(cs.drop_first(), now);
        let rest = spec_cleanup(cs.drop_first(), now);
        if !is_stale(cs[0].timestamp, now) {
            let r = seq![cs[0]] + rest;
            assert forall|i: int, j: int| 0 <= i < j < r.len() implies (#[trigger] r[i]).cluster_id
                != (#[trigger] r[j]).cluster_id by {
                if i == 0 {
                    assert(cs.drop_first().contains(rest[j - 1]));
                    let k = choose|k: int|
                        0 <= k < cs.drop_first().len() && cs.drop_first()[k] == rest[j - 1];
                    assert(cs[k + 1] == rest[j - 1]);
                }
            }
        }
    }
}

/// Same bucket if and only if same window: two stored transactions sit in
/// the same bucket exactly when their timestamps map to the same window id.
pub proof fn lemma_same_bucket_iff_same_window(
    cs: Seq<ClusterModel>,
    i: int,
    j: int,
    a: int,
    b: int,
)
    requires
        clusters_wf(cs),
        0 <= i < cs.len(),
        0 <= j < cs.len(),
        0 <= a < cs[i].transactions.len(),
        0 <= b < cs[j].transactions.len(),
    ensures
        (i == j) <==> window_of(cs[i].transactions[a].timestamp) == window_of(
            cs[j].transactions[b].timestamp,
        ),
{
    assert(window_of(cs[i].transactions[a].timestamp) == cs[i].cluster_id);
    assert(window_of(cs[j].transactions[b].timestamp) == cs[j].cluster_id);
}

/// Retention: on an insert at time `now`, a bucket whose representative
/// timestamp is older than the retention horizon is evicted — no bucket
/// with its window id remains — and one within the horizon survives with
/// its representative timestamp unchanged.
pub proof fn lemma_retention(cs: Seq<ClusterModel>, tx: Transaction, now: u64, i: int)
    requires
        clusters_wf(cs),
        0 <= i < cs.len(),
    ensures
        is_stale(cs[i].timestamp, now) ==> forall|j: int|
            0 <= j < spec_process(cs, tx, now).len() ==> (#[trigger] spec_process(
                cs,
                tx,
                now,
            )[j]).cluster_id != cs[i].cluster_id,
        !is_stale(cs[i].timestamp, now) ==> exists|j: int|
            0 <= j < spec_process(cs, tx, now).len() && (#[trigger] spec_process(
                cs,
                tx,
                now,
            )[j]).cluster_id == cs[i].cluster_id && spec_process(cs, tx, now)[j].timestamp
                == cs[i].timestamp,
{
    let w = window_of(tx.timestamp);
    let ins = spec_insert(cs, tx);
    let r = spec_process(cs, tx, now);
    lemma_find_cluster(cs, w);
    if is_stale(cs[i].timestamp, now) {
        lemma_cleanup_elements(ins, now);
        lemma_cleanup_not_stale(ins, now);
        assert forall|j: int| 0 <= j < r.len() implies (#[trigger] r[j]).cluster_id
            != cs[i].cluster_id by {
            assert(ins.contains(r[j]));
            let k = choose|k: int| 0 <= k < ins.len() && ins[k] == r[j];
            // Whatever the insert did at index k, the bucket there keeps the
            // id and representative timestamp of cs[k], or is the fresh
            // bucket for a window id no existing bucket had.
            match find_cluster(cs, w) {
                Some(m) => {
                    assert(ins[k].cluster_id == cs[k].cluster_id);
                    assert(ins[k].timestamp == cs[k].timestamp);
                    if cs[k].cluster_id == cs[i].cluster_id {
                        assert(k == i);
                    }
                },
                None => {
                    if k < cs.len() {
                        if cs[k].cluster_id == cs[i].cluster_id {
                            assert(k == i);
                        }
                    } else {
                        assert(ins[k].cluster_id == w);
                    }
                },
            }
        }
    } else {
        match find_cluster(cs, w) {
            Some(m) => {
                if m == i {
                    assert(!is_stale(ins[i].timestamp, now));
                    lemma_cleanup_keeps(ins, now, i);
                    let j = choose|j: int|
                        0 <= j < spec_cleanup(ins, now).len() && spec_cleanup(ins, now)[j]
                            == ins[i];
                    assert(r[j].cluster_id == cs[i].cluster_id);
                } else {
                    assert(ins[i] == cs[i]);
                    lemma_cleanup_keeps(ins, now, i);
                    let j = choose|j: int|
                        0 <= j < spec_cleanup(ins, now).len() && spec_cleanup(ins, now)[j]
                            == ins[i];
                    assert(r[j].cluster_id == cs[i].cluster_id);
                }
            },
            None => {
                assert(ins[i] == cs[i]);
                lemma_cleanup_keeps(ins, now, i);
                let j = choose|j: int|
                    0 <= j < spec_cleanup(ins, now).len() && spec_cleanup(ins, now)[j] == ins[i];
                assert(r[j].cluster_id == cs[i].cluster_id);
            },
        }
    }
}

/// Inserting a transaction preserves well-formedness of the store.
pub proof fn lemma_insert_wf(cs: Seq<ClusterModel>, tx: Transaction)
    requires
        clusters_wf(cs),
    ensures
        clusters_wf(spec_insert(cs, tx)),
{
    let w = window_of(tx.timestamp);
    lemma_find_cluster(cs, w);
    match find_cluster(cs, w) {
        Some(j) => {
            let c = ClusterModel {
                transactions: cs[j].transactions.push(tx),
                cluster_id: cs[j].cluster_id,
                timestamp: cs[j].timestamp,
            };
            assert(cluster_wf(c));
        },
        None => {
            let c = ClusterModel {
                transactions: seq![tx],
                cluster_id: w,
                timestamp: tx.timestamp,
            };
            assert(cluster_wf(c));
        },
    }
}

/// The clustering engine: the store of live buckets. Detection scans are on
/// `detect_mev_attacks`; the store itself only ingests and prunes.
pub struct MEVEngine {
    pub clusters: Vec<TransactionCluster>,
}

impl View for MEVEngine {
    type V = Seq<ClusterModel>;

    open spec fn view(&self) -> Seq<ClusterModel> {
        self.clusters@.map_values(|c: TransactionCluster| c@)
    }
}

impl MEVEngine {
    /// A fresh session with no live buckets.
    pub fn new() -> (r: MEVEngine)
        ensures
            r@ == Seq::<ClusterModel>::empty(),
            clusters_wf(r@),
    {
        let r = MEVEngine { clusters: Vec::new() };
        proof {
            assert(r@ =~= Seq::<ClusterModel>::empty());
        }
        r
    }

    /// The number of live buckets. Pure read, no side effects.
    pub fn get_cluster_count(&self) -> (r: usize)
        ensures
            r == self@.len(),
    {
        self.clusters.len()
    }

    /// The window id a transaction belongs to.
    pub fn get_cluster_key(&self, tx: &Transaction) -> (r: u64)
        ensures
            r == window_of(tx.timestamp),
    {
        tx.timestamp / WINDOW_SECONDS
    }

    /// Evict every bucket whose representative timestamp is older than the
    /// retention horizon against `now`.
    pub fn cleanup_old_clusters(&mut self, now: u64)
        ensures
            final (self)@ == spec_cleanup(old(self)@, now),
    {
        let ghost orig = self@;
        let ghost mut k: int = 0;
        let mut i: usize = 0;
        while i < self.clusters.len()
            invariant
                0 <= k <= orig.len(),
                i == spec_cleanup(orig.take(k), now).len(),
                i <= self.clusters@.len(),
                self@ =~= spec_cleanup(orig.take(k), now) + orig.skip(k),
            decreases orig.len() - k,
        {
            proof {
                assert(orig.take(k + 1).drop_last() =~= orig.take(k));
                assert(orig.take(k + 1) =~= orig.take(k).push(orig[k]));
                lemma_cleanup_push(orig.take(k), orig[k], now);
                assert(self@[i as int] == orig[k]);
            }
            let stale = {
                let rep = self.clusters[i].timestamp;
                now >= RETENTION_SECONDS && rep < now - RETENTION_SECONDS
            };
            if stale {
                let ghost prev = self@;
                let _ = self.clusters.remove(i);
                proof {
                    assert(self@ =~= prev.remove(i as int));
                    assert(prev.remove(i as int) =~= spec_cleanup(orig.take(k), now) + orig.skip(
                        k + 1,
                    ));
                    assert(self@ =~= spec_cleanup(orig.take(k + 1), now) + orig.skip(k + 1));
                }
            } else {
                i = i + 1;
                proof {
                    assert(self@ =~= spec_cleanup(orig.take(k + 1), now) + orig.skip(k + 1));
                }
            }
            proof {
                k = k + 1;
            }
        }
        proof {
            assert(orig.take(k) =~= orig);
            assert(final (self)@ =~= spec_cleanup(orig, now));
        }
    }

    /// Insert one transaction: bucket it by its window id (creating the
    /// bucket when absent), then prune stale buckets against `now`.
    pub fn process_transaction(&mut self, tx: Transaction, now: u64)
        requires
            clusters_wf(old(self)@),
        ensures
            final (self)@ == spec_process(old(self)@, tx, now),
            clusters_wf(final (self)@),
    {
        proof {
            lemma_insert_wf(old(self)@, tx);
            lemma_cleanup_wf(spec_insert(old(self)@, tx), now);
            lemma_find_cluster(old(self)@, window_of(tx.timestamp));
        }
        let w = self.get_cluster_key(&tx);
        let mut j: usize = 0;
        let mut found = false;
        while j < self.clusters.len() && !found
            invariant
                0 <= j <= self.clusters@.len(),
                !found ==> forall|k: int|
                    0 <= k < j ==> (#[trigger] self@[k]).cluster_id != w,
                found ==> j < self.clusters@.len() && self@[j as int].cluster_id == w,
                self@ == old(self)@,
                self.clusters@ == old(self).clusters@,
            decreases self.clusters@.len() - j + (if found {
                0int
            } else {
                1int
            }),
        {
            if self.clusters[j].cluster_id == w {
                found = true;
            } else {
                j = j + 1;
            }
        }
        if found {
            let mut c = self.clusters.remove(j);
            c.transactions.push(tx);
            self.clusters.insert(j, c);
            proof {
                assert(find_cluster(old(self)@, w) == Some(j as int));
                assert(self@ =~= spec_insert(old(self)@, tx));
            }
        } else {
            let mut txs: Vec<Transaction> = Vec::new();
            let rep = tx.timestamp;
            txs.push(tx);
            self.clusters.push(TransactionCluster { transactions: txs, cluster_id: w, timestamp: rep });
            proof {
                assert(find_cluster(old(self)@, w) is None);
                assert(self@ =~= spec_insert(old(self)@, tx));
            }
        }
        self.cleanup_old_clusters(now);
    }

    /// Ingest one transaction record at the supplied current time. Always
    /// succeeds for a well-formed record; the only side effects are the
    /// bucketing of `tx` and the retention pruning.
    pub fn add_transaction(&mut self, tx: Transaction, now: u64)
        requires
            clusters_wf(old(self)@),
        ensures
            final (self)@ == spec_process(old(self)@, tx, now),
            clusters_wf(final (self)@),
    {
        self.process_transaction(tx, now);
    }
}

} // verus!

