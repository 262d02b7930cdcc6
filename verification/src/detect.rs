//! Sandwich and front-running pattern detection over the live buckets.
//!
//! Each bucket's transactions are scanned in stable timestamp order. Per
//! bucket and per pattern at most one record is reported: the first
//! qualifying match in that order (a documented policy, not an enumeration
//! of all overlapping matches). Profit figures are coarse proxies in the
//! smallest native unit, never decoded swap economics.

use vstd::prelude::*;
use crate::cluster::{ClusterModel, MEVEngine, TransactionCluster};
use crate::numeric::parse_decimal_u128;
use crate::sort::{sort_by_timestamp, stable_sort_by_ts};
use crate::transaction::{gas_value, value_wei, Transaction};

verus! {

/// Which of the two patterns a record reports.
#[derive(Clone, Copy, PartialEq, Eq, Structural, Debug)]
pub enum AttackType {
    Sandwich,
    Frontrunning,
}

/// One suspected attack. `timestamp` is the victim transaction's;
/// `backrun_tx` is empty for a front-running record. `profit_wei` is the
/// heuristic profit proxy in the smallest native unit.
pub struct MEVAttack {
    pub victim: String,
    pub attacker: String,
    pub profit_wei: u128,
    pub timestamp: u64,
    pub attack_type: AttackType,
    pub frontrun_tx: String,
    pub backrun_tx: String,
}

/// Mathematical model of an attack record.
pub ghost struct AttackModel {
    pub victim: Seq<char>,
    pub attacker: Seq<char>,
    pub profit_wei: u128,
    pub timestamp: u64,
    pub attack_type: AttackType,
    pub frontrun_tx: Seq<char>,
    pub backrun_tx: Seq<char>,
}

impl View for MEVAttack {
    type V = AttackModel;

    open spec fn view(&self) -> AttackModel {
        AttackModel {
            victim: self.victim@,
            attacker: self.attacker@,
            profit_wei: self.profit_wei,
            timestamp: self.timestamp,
            attack_type: self.attack_type,
            frontrun_tx: self.frontrun_tx@,
            backrun_tx: self.backrun_tx@,
        }
    }
}

/// The adjacent triple `(frontrun, victim, backrun)` looks like a sandwich:
/// same attacker on both ends, a distinct victim, the two attacker
/// transactions within 120 seconds in order, a victim payload long enough to
/// be a contract call, and the attacker outbidding the victim's gas price on
/// both ends (unparsable gas counts as 0).
pub open spec fn is_sandwich_pattern(f: Transaction, v: Transaction, b: Transaction) -> bool {
    &&& f.from@ == b.from@
    &&& v.from@ != f.from@
    &&& f.timestamp <= b.timestamp
    &&& b.timestamp - f.timestamp <= 120
    &&& v.data@.len() >= 10
    &&& gas_value(f) > gas_value(v)
    &&& gas_value(b) > gas_value(v)
}

/// The adjacent pair `(frontrun, victim)` looks like front-running: distinct
/// senders, the victim within 30 seconds after the frontrun, both payloads
/// long enough to be contract calls, and the frontrun outbidding the
/// victim's gas price (unparsable gas counts as 0).
pub open spec fn is_frontrunning_pattern(f: Transaction, v: Transaction) -> bool {
    &&& f.from@ != v.from@
    &&& f.timestamp <= v.timestamp
    &&& v.timestamp - f.timestamp <= 30
    &&& f.data@.len() >= 10
    &&& v.data@.len() >= 10
    &&& gas_value(f) > gas_value(v)
}

/// Sandwich profit proxy: the backrun amount minus the frontrun amount, in
/// the smallest native unit, floored at zero.
pub open spec fn spec_sandwich_profit(f: Transaction, b: Transaction) -> u128 {
    if value_wei(b) >= value_wei(f) {
        (value_wei(b) - value_wei(f)) as u128
    } else {
        0
    }
}

/// Front-running profit proxy: one percent of the victim's amount, in the
/// smallest native unit (integer division).
pub open spec fn spec_frontrun_profit(v: Transaction) -> u128 {
    value_wei(v) / 100
}

/// The record emitted for a sandwich match at victim position `i`.
pub open spec fn sandwich_record(s: Seq<Transaction>, i: int) -> AttackModel {
    AttackModel {
        victim: s[i].from@,
        attacker: s[i - 1].from@,
        profit_wei: spec_sandwich_profit(s[i - 1], s[i + 1]),
        timestamp: s[i].timestamp,
        attack_type: AttackType::Sandwich,
        frontrun_tx: s[i - 1].hash@,
        backrun_tx: s[i + 1].hash@,
    }
}

/// The record emitted for a front-running match at frontrun position `i`.
pub open spec fn frontrun_record(s: Seq<Transaction>, i: int) -> AttackModel {
    AttackModel {
        victim: s[i + 1].from@,
        attacker: s[i].from@,
        profit_wei: spec_frontrun_profit(s[i + 1]),
        timestamp: s[i + 1].timestamp,
        attack_type: AttackType::Frontrunning,
        frontrun_tx: s[i].hash@,
        backrun_tx: Seq::empty(),
    }
}

/// The first victim position `>= i` whose adjacent triple matches the
/// sandwich pattern.
pub open spec fn first_sandwich_from(s: Seq<Transaction>, i: int) -> Option<int>
    decreases s.len() - i,
{
    if i < 1 || i + 1 >= s.len() {
        None
    } else if is_sandwich_pattern(s[i - 1], s[i], s[i + 1]) {
        Some(i)
    } else {
        first_sandwich_from(s, i + 1)
    }
}

/// The first frontrun position `>= i` whose adjacent pair matches the
/// front-running pattern.
pub open spec fn first_frontrun_from(s: Seq<Transaction>, i: int) -> Option<int>
    decreases s.len() - i,
{
    if i < 0 || i + 1 >= s.len() {
        None
    } else if is_frontrunning_pattern(s[i], s[i + 1]) {
        Some(i)
    } else {
        first_frontrun_from(s, i + 1)
    }
}

/// The sandwich record a timestamp-sorted bucket yields, if any: the first
/// qualifying adjacent triple wins.
pub open spec fn spec_detect_sandwich(s: Seq<Transaction>) -> Option<AttackModel> {
    match first_sandwich_from(s, 1) {
        Some(i) => Some(sandwich_record(s, i)),
        None => None,
    }
}

/// The front-running record a timestamp-sorted bucket yields, if any: the
/// first qualifying adjacent pair wins.
pub open spec fn spec_detect_frontrunning(s: Seq<Transaction>) -> Option<AttackModel> {
    match first_frontrun_from(s, 0) {
        Some(i) => Some(frontrun_record(s, i)),
        None => None,
    }
}

/// The view of an optional record.
pub open spec fn opt_view(r: Option<MEVAttack>) -> Option<AttackModel> {
    match r {
        Some(a) => Some(a@),
        None => None,
    }
}

/// An optional record as a sequence of zero or one records.
pub open spec fn opt_seq(o: Option<AttackModel>) -> Seq<AttackModel> {
    match o {
        Some(a) => seq![a],
        None => Seq::empty(),
    }
}

/// Everything one bucket contributes to a scan: its sandwich record, if any,
/// then its front-running record, if any, both over the stable timestamp
/// sort of its transactions.
pub open spec fn cluster_attacks(c: ClusterModel) -> Seq<AttackModel> {
    let sorted = stable_sort_by_ts(c.transactions);
    opt_seq(spec_detect_sandwich(sorted)) + opt_seq(spec_detect_frontrunning(sorted))
}

/// The full scan: each live bucket's contribution, in stored bucket order —
/// a pure function of the store's contents.
pub open spec fn spec_analyze(cs: Seq<ClusterModel>) -> Seq<AttackModel>
    decreases cs.len(),
{
    if cs.len() == 0 {
        Seq::empty()
    } else {
        cluster_attacks(cs[0]) + spec_analyze(cs.drop_first())
    }
}

pub proof fn lemma_analyze_push(cs: Seq<ClusterModel>, c: ClusterModel)
    ensures
        spec_analyze(cs.push(c)) == spec_analyze(cs) + cluster_attacks(c),
    decreases cs.len(),
{
    if cs.len() == 0 {
        assert(cs.push(c).drop_first() =~= Seq::<ClusterModel>::empty());
        assert(cs.push(c)[0] == c);
        assert(spec_analyze(Seq::<ClusterModel>::empty()) == Seq::<AttackModel>::empty());
        assert(cs =~= Seq::<ClusterModel>::empty());
        assert(cluster_attacks(c) + Seq::<AttackModel>::empty() =~= Seq::<AttackModel>::empty()
            + cluster_attacks(c));
    } else {
        assert(cs.push(c).drop_first() =~= cs.drop_first().push(c));
        lemma_analyze_push(cs.drop_first(), c);
        assert(cluster_attacks(cs[0]) + (spec_analyze(cs.drop_first()) + cluster_attacks(c))
            =~= (cluster_attacks(cs[0]) + spec_analyze(cs.drop_first())) + cluster_attacks(c));
    }
}

/// Determinism: the scan result is a function of the store state alone, so
/// two scans of the same state agree.
pub proof fn lemma_detect_deterministic(
    cs: Seq<ClusterModel>,
    r1: Seq<AttackModel>,
    r2: Seq<AttackModel>,
)
    requires
        r1 == spec_analyze(cs),
        r2 == spec_analyze(cs),
    ensures
        r1 == r2,
{
}

/// Size floor: a bucket of exactly two transactions never yields a sandwich
/// record — no adjacent triple exists — though it may yield a front-running
/// record.
pub proof fn lemma_size_floor(c: ClusterModel)
    requires
        c.transactions.len() == 2,
    ensures
        forall|k: int|
            0 <= k < cluster_attacks(c).len() ==> (#[trigger] cluster_attacks(c)[k]).attack_type
                == AttackType::Frontrunning,
{
    crate::sort::lemma_stable_sort_len(c.transactions);
    let sorted = stable_sort_by_ts(c.transactions);
    assert(first_sandwich_from(sorted, 1) is None);
    assert forall|k: int| 0 <= k < cluster_attacks(c).len() implies (#[trigger] cluster_attacks(
        c,
    )[k]).attack_type == AttackType::Frontrunning by {
        let fr = opt_seq(spec_detect_frontrunning(sorted));
        assert(cluster_attacks(c) =~= fr);
    }
}

impl MEVEngine {
    /// Whether the adjacent triple matches the sandwich pattern.
    pub fn is_sandwich_pattern(
        &self,
        frontrun: &Transaction,
        victim: &Transaction,
        backrun: &Transaction,
    ) -> (r: bool)
        ensures
            r == is_sandwich_pattern(*frontrun, *victim, *backrun),
    {
        if !(frontrun.from == backrun.from) {
            return false;
        }
        if victim.from == frontrun.from {
            return false;
        }
        if backrun.timestamp < frontrun.timestamp {
            return false;
        }
        if backrun.timestamp - frontrun.timestamp > 120 {
            return false;
        }
        if victim.data.as_str().unicode_len() < 10 {
            return false;
        }
        let frontrun_gas = parse_decimal_u128(frontrun.gas_price.as_str());
        let victim_gas = parse_decimal_u128(victim.gas_price.as_str());
        let backrun_gas = parse_decimal_u128(backrun.gas_price.as_str());
        frontrun_gas > victim_gas && backrun_gas > victim_gas
    }

    /// Whether the adjacent pair matches the front-running pattern.
    pub fn is_frontrunning_pattern(&self, frontrun: &Transaction, victim: &Transaction) -> (r:
        bool)
        ensures
            r == is_frontrunning_pattern(*frontrun, *victim),
    {
        if frontrun.from == victim.from {
            return false;
        }
        if victim.timestamp < frontrun.timestamp {
            return false;
        }
        if victim.timestamp - frontrun.timestamp > 30 {
            return false;
        }
        if frontrun.data.as_str().unicode_len() < 10 || victim.data.as_str().unicode_len() < 10 {
            return false;
        }
        let frontrun_gas = parse_decimal_u128(frontrun.gas_price.as_str());
        let victim_gas = parse_decimal_u128(victim.gas_price.as_str());
        frontrun_gas > victim_gas
    }

    /// Sandwich profit proxy, in the smallest native unit.
    pub fn calculate_profit(
        &self,
        frontrun: &Transaction,
        victim: &Transaction,
        backrun: &Transaction,
    ) -> (r: u128)
        ensures
            r == spec_sandwich_profit(*frontrun, *backrun),
    {
        let frontrun_value = parse_decimal_u128(frontrun.value.as_str());
        let backrun_value = parse_decimal_u128(backrun.value.as_str());
        if backrun_value >= frontrun_value {
            backrun_value - frontrun_value
        } else {
            0
        }
    }

    /// Front-running profit proxy, in the smallest native unit.
    pub fn calculate_frontrun_profit(&self, frontrun: &Transaction, victim: &Transaction) -> (r:
        u128)
        ensures
            r == spec_frontrun_profit(*victim),
    {
        let victim_value = parse_decimal_u128(victim.value.as_str());
        victim_value / 100
    }

    /// Scan a timestamp-sorted sequence for the first sandwich triple.
    pub fn detect_sandwich_attack(&self, transactions: &Vec<Transaction>) -> (r: Option<
        MEVAttack,
    >)
        ensures
            opt_view(r) == spec_detect_sandwich(transactions@),
    {
        let n = transactions.len();
        if n < 3 {
            return None;
        }
        let mut i: usize = 1;
        while i + 1 < n
            invariant
                n == transactions@.len(),
                1 <= i,
                i + 1 <= n,
                first_sandwich_from(transactions@, 1) == first_sandwich_from(
                    transactions@,
                    i as int,
                ),
            decreases n - i,
        {
            let frontrun = &transactions[i - 1];
            let victim = &transactions[i];
            let backrun = &transactions[i + 1];
            if self.is_sandwich_pattern(frontrun, victim, backrun) {
                let profit = self.calculate_profit(frontrun, victim, backrun);
                let record = MEVAttack {
                    victim: victim.from.clone(),
                    attacker: frontrun.from.clone(),
                    profit_wei: profit,
                    timestamp: victim.timestamp,
                    attack_type: AttackType::Sandwich,
                    frontrun_tx: frontrun.hash.clone(),
                    backrun_tx: backrun.hash.clone(),
                };
                proof {
                    assert(first_sandwich_from(transactions@, i as int) == Some(i as int));
                }
                return Some(record);
            }
            i = i + 1;
        }
        None
    }

    /// Scan a timestamp-sorted sequence for the first front-running pair.
    pub fn detect_frontrunning(&self, transactions: &Vec<Transaction>) -> (r: Option<MEVAttack>)
        ensures
            opt_view(r) == spec_detect_frontrunning(transactions@),
    {
        let n = transactions.len();
        if n < 2 {
            return None;
        }
        let mut i: usize = 0;
        while i + 1 < n
            invariant
                n == transactions@.len(),
                0 <= i,
                i + 1 <= n,
                first_frontrun_from(transactions@, 0) == first_frontrun_from(
                    transactions@,
                    i as int,
                ),
            decreases n - i,
        {
            let frontrun = &transactions[i];
            let victim = &transactions[i + 1];
            if self.is_frontrunning_pattern(frontrun, victim) {
                let profit = self.calculate_frontrun_profit(frontrun, victim);
                let record = MEVAttack {
                    victim: victim.from.clone(),
                    attacker: frontrun.from.clone(),
                    profit_wei: profit,
                    timestamp: victim.timestamp,
                    attack_type: AttackType::Frontrunning,
                    frontrun_tx: frontrun.hash.clone(),
                    backrun_tx: String::new(),
                };
                proof {
                    assert(first_frontrun_from(transactions@, i as int) == Some(i as int));
                    assert(record@ == frontrun_record(transactions@, i as int));
                }
                return Some(record);
            }
            i = i + 1;
        }
        None
    }

    /// Scan every live bucket in stored order; each contributes its sandwich
    /// record, if any, then its front-running record, if any.
    pub fn analyze_clusters(&self) -> (r: Vec<MEVAttack>)
        ensures
            r@.map_values(|a: MEVAttack| a@) == spec_analyze(self@),
    {
        let mut out: Vec<MEVAttack> = Vec::new();
        let mut i: usize = 0;
        proof {
            assert(out@.map_values(|a: MEVAttack| a@) =~= spec_analyze(self@.take(0)));
        }
        while i < self.clusters.len()
            invariant
                i <= self.clusters@.len(),
                self@.len() == self.clusters@.len(),
                out@.map_values(|a: MEVAttack| a@) == spec_analyze(self@.take(i as int)),
            decreases self.clusters@.len() - i,
        {
            let ghost prev = out@.map_values(|a: MEVAttack| a@);
            let sorted = sort_by_timestamp(&self.clusters[i].transactions);
            let sandwich = self.detect_sandwich_attack(&sorted);
            match sandwich {
                Some(a) => {
                    out.push(a);
                },
                None => {},
            }
            let front = self.detect_frontrunning(&sorted);
            match front {
                Some(a) => {
                    out.push(a);
                },
                None => {},
            }
            proof {
                lemma_analyze_push(self@.take(i as int), self@[i as int]);
                assert(self@.take(i + 1) =~= self@.take(i as int).push(self@[i as int]));
                assert(out@.map_values(|a: MEVAttack| a@) =~= prev + cluster_attacks(
                    self@[i as int],
                ));
            }
            i = i + 1;
        }
        proof {
            assert(self@.take(self@.len() as int) =~= self@);
        }
        out
    }

    /// Compute the suspected attacks over the current store state: a pure
    /// function of the store's contents, identical on repeated calls.
    pub fn detect_mev_attacks(&self) -> (r: Vec<MEVAttack>)
        ensures
            r@.map_values(|a: MEVAttack| a@) == spec_analyze(self@),
    {
        self.analyze_clusters()
    }
}

} // verus!
