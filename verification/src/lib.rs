//! Detection of MEV (miner/validator-extractable-value) exploitation
//! patterns — sandwich attacks and front-running — over a time-windowed,
//! retention-pruned store of blockchain transactions.
//!
//! A caller inserts transactions into a [`cluster::MEVEngine`]; the store
//! groups them into 120-second window buckets and prunes buckets older than
//! the 600-second retention horizon against the current time the caller
//! supplies. A scan then reports, per bucket, the first qualifying sandwich
//! triple and the first qualifying front-running pair in stable timestamp
//! order, with heuristic profit proxies in the smallest native unit.

pub mod cluster;
pub mod detect;
pub mod numeric;
pub mod sort;
pub mod transaction;

pub use cluster::{MEVEngine, TransactionCluster};
pub use detect::{AttackType, MEVAttack};
pub use transaction::Transaction;

use vstd::prelude::*;
use crate::cluster::{clusters_wf, spec_process, ClusterModel};
use crate::detect::spec_analyze;

verus! {

/// The store a fresh session holds after ingesting `txs` in order, all
/// against the same current time `now`.
pub open spec fn spec_ingest_all(
    cs: Seq<ClusterModel>,
    txs: Seq<Transaction>,
    now: u64,
) -> Seq<ClusterModel>
    decreases txs.len(),
{
    if txs.len() == 0 {
        cs
    } else {
        spec_ingest_all(spec_process(cs, txs[0], now), txs.drop_first(), now)
    }
}

pub proof fn lemma_ingest_all_push(
    cs: Seq<ClusterModel>,
    txs: Seq<Transaction>,
    x: Transaction,
    now: u64,
)
    ensures
        spec_ingest_all(cs, txs.push(x), now) == spec_process(
            spec_ingest_all(cs, txs, now),
            x,
            now,
        ),
    decreases txs.len(),
{
    if txs.len() == 0 {
        assert(txs.push(x)[0] == x);
        assert(txs.push(x).drop_first() =~= Seq::<Transaction>::empty());
        assert(spec_ingest_all(cs, txs.push(x), now) == spec_ingest_all(
            spec_process(cs, x, now),
            Seq::<Transaction>::empty(),
            now,
        ));
        assert(spec_ingest_all(spec_process(cs, x, now), Seq::<Transaction>::empty(), now)
            == spec_process(cs, x, now));
        assert(spec_ingest_all(cs, txs, now) == cs);
    } else {
        assert(txs.push(x)[0] == txs[0]);
        assert(txs.push(x).drop_first() =~= txs.drop_first().push(x));
        lemma_ingest_all_push(spec_process(cs, txs[0], now), txs.drop_first(), x, now);
        assert(spec_ingest_all(cs, txs.push(x), now) == spec_ingest_all(
            spec_process(cs, txs[0], now),
            txs.drop_first().push(x),
            now,
        ));
        assert(spec_ingest_all(cs, txs, now) == spec_ingest_all(
            spec_process(cs, txs[0], now),
            txs.drop_first(),
            now,
        ));
    }
}

/// The batch entry point: ingest an ordered batch of transactions into one
/// fresh session, all against the same current time `now`, and return the
/// scan of the resulting store.
pub fn detect_mev(tx_batch: Vec<Transaction>, now: u64) -> (r: Vec<MEVAttack>)
    ensures
        r@.map_values(|a: MEVAttack| a@) == spec_analyze(
            spec_ingest_all(Seq::empty(), tx_batch@, now),
        ),
{
    let mut engine = MEVEngine::new();
    let mut i: usize = 0;
    while i < tx_batch.len()
        invariant
            i <= tx_batch@.len(),
            engine@ == spec_ingest_all(Seq::empty(), tx_batch@.take(i as int), now),
            clusters_wf(engine@),
        decreases tx_batch@.len() - i,
    {
        let tx = tx_batch[i].clone();
        proof {
            lemma_ingest_all_push(Seq::empty(), tx_batch@.take(i as int), tx_batch@[i as int], now);
            assert(tx_batch@.take(i + 1) =~= tx_batch@.take(i as int).push(tx_batch@[i as int]));
        }
        engine.add_transaction(tx, now);
        i = i + 1;
    }
    proof {
        assert(tx_batch@.take(tx_batch@.len() as int) =~= tx_batch@);
    }
    engine.detect_mev_attacks()
}

} // verus!
