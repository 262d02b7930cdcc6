use mev_detect::cluster::MEVEngine;
use mev_detect::detect::AttackType;
use mev_detect::numeric::parse_decimal_u128;
use mev_detect::transaction::Transaction;
use mev_detect::detect_mev;

fn mk_tx(
    hash: &str,
    from: &str,
    value: &str,
    gas_price: &str,
    data: &str,
    timestamp: u64,
) -> Transaction {
    Transaction {
        hash: hash.to_string(),
        from: from.to_string(),
        to: "0xpool".to_string(),
        value: value.to_string(),
        gas_price: gas_price.to_string(),
        gas_limit: "21000".to_string(),
        nonce: 0,
        data: data.to_string(),
        timestamp,
        block_number: Some(1),
    }
}

const ETH: u128 = 1_000_000_000_000_000_000;

// Windowing: timestamps land in the same bucket iff floor(t/120) agrees.

#[test]
fn same_window_shares_bucket() {
    let mut engine = MEVEngine::new();
    engine.add_transaction(mk_tx("a", "X", "0", "1", "0x", 0), 0);
    engine.add_transaction(mk_tx("b", "Y", "0", "1", "0x", 119), 0);
    assert_eq!(engine.get_cluster_count(), 1);
}

#[test]
fn different_window_makes_new_bucket() {
    let mut engine = MEVEngine::new();
    engine.add_transaction(mk_tx("a", "X", "0", "1", "0x", 119), 0);
    engine.add_transaction(mk_tx("b", "Y", "0", "1", "0x", 120), 0);
    assert_eq!(engine.get_cluster_count(), 2);
}

#[test]
fn window_key_is_timestamp_div_120() {
    let engine = MEVEngine::new();
    assert_eq!(engine.get_cluster_key(&mk_tx("a", "X", "0", "1", "0x", 0)), 0);
    assert_eq!(engine.get_cluster_key(&mk_tx("a", "X", "0", "1", "0x", 119)), 0);
    assert_eq!(engine.get_cluster_key(&mk_tx("a", "X", "0", "1", "0x", 120)), 1);
    assert_eq!(engine.get_cluster_key(&mk_tx("a", "X", "0", "1", "0x", 241)), 2);
}

// Retention: a bucket whose representative timestamp is older than
// now - 600 is evicted on the next insert; one at the horizon survives.

#[test]
fn stale_bucket_evicted_on_insert() {
    let mut engine = MEVEngine::new();
    engine.add_transaction(mk_tx("a", "X", "0", "1", "0x", 100), 0);
    assert_eq!(engine.get_cluster_count(), 1);
    // 100 + 600 < 701: the old bucket goes; the new one stays.
    engine.add_transaction(mk_tx("b", "Y", "0", "1", "0x", 701), 701);
    assert_eq!(engine.get_cluster_count(), 1);
}

#[test]
fn bucket_at_horizon_survives() {
    let mut engine = MEVEngine::new();
    engine.add_transaction(mk_tx("a", "X", "0", "1", "0x", 101), 0);
    // 101 + 600 == 701, not strictly older: both buckets live.
    engine.add_transaction(mk_tx("b", "Y", "0", "1", "0x", 701), 701);
    assert_eq!(engine.get_cluster_count(), 2);
}

#[test]
fn insert_into_stale_window_evicts_whole_bucket() {
    let mut engine = MEVEngine::new();
    // The new bucket's representative timestamp is already stale against
    // `now`, so the insert prunes it immediately.
    engine.add_transaction(mk_tx("a", "X", "0", "1", "0x", 10), 100_000);
    assert_eq!(engine.get_cluster_count(), 0);
}

// Sandwich scenario.

#[test]
fn sandwich_scenario() {
    let a = mk_tx("hash_a", "X", "2000000000000000000", "50", "0x1234567890", 100);
    let b = mk_tx("hash_b", "Y", "0", "10", "0x1234567890", 110);
    let c = mk_tx("hash_c", "X", "3000000000000000000", "60", "0x", 115);
    let mut engine = MEVEngine::new();
    engine.add_transaction(a, 0);
    engine.add_transaction(b, 0);
    engine.add_transaction(c, 0);
    assert_eq!(engine.get_cluster_count(), 1);
    let attacks = engine.detect_mev_attacks();
    let sandwiches: Vec<_> =
        attacks.iter().filter(|r| r.attack_type == AttackType::Sandwich).collect();
    assert_eq!(sandwiches.len(), 1);
    let s = sandwiches[0];
    assert_eq!(s.attacker, "X");
    assert_eq!(s.victim, "Y");
    assert_eq!(s.frontrun_tx, "hash_a");
    assert_eq!(s.backrun_tx, "hash_c");
    assert_eq!(s.timestamp, 110);
    assert_eq!(s.profit_wei, ETH); // 3.0 - 2.0 native units
}

#[test]
fn sandwich_profit_floors_at_zero() {
    // Backrun moves less than the frontrun: profit 0, not negative.
    let a = mk_tx("a", "X", "3000000000000000000", "50", "0x1234567890", 100);
    let b = mk_tx("b", "Y", "0", "10", "0x1234567890", 110);
    let c = mk_tx("c", "X", "2000000000000000000", "60", "0x", 115);
    let mut engine = MEVEngine::new();
    engine.add_transaction(a, 0);
    engine.add_transaction(b, 0);
    engine.add_transaction(c, 0);
    let attacks = engine.detect_mev_attacks();
    let s = attacks.iter().find(|r| r.attack_type == AttackType::Sandwich).unwrap();
    assert_eq!(s.profit_wei, 0);
}

#[test]
fn sandwich_first_match_wins() {
    // Two qualifying triples in one bucket: only the earliest is reported.
    let txs = vec![
        mk_tx("f1", "X", "1000000000000000000", "50", "0x", 0),
        mk_tx("v1", "Y", "0", "1", "0x1234567890", 1),
        mk_tx("f2", "X", "2000000000000000000", "50", "0x", 2),
        mk_tx("v2", "Z", "0", "1", "0x1234567890", 3),
        mk_tx("f3", "X", "5000000000000000000", "60", "0x", 4),
    ];
    let mut engine = MEVEngine::new();
    for tx in txs {
        engine.add_transaction(tx, 0);
    }
    let attacks = engine.detect_mev_attacks();
    let sandwiches: Vec<_> =
        attacks.iter().filter(|r| r.attack_type == AttackType::Sandwich).collect();
    assert_eq!(sandwiches.len(), 1);
    assert_eq!(sandwiches[0].victim, "Y");
    assert_eq!(sandwiches[0].frontrun_tx, "f1");
    assert_eq!(sandwiches[0].backrun_tx, "f2");
    assert_eq!(sandwiches[0].profit_wei, ETH);
}

#[test]
fn sandwich_needs_attacker_on_both_ends() {
    let a = mk_tx("a", "X", "0", "50", "0x1234567890", 100);
    let b = mk_tx("b", "Y", "0", "10", "0x1234567890", 110);
    let c = mk_tx("c", "Z", "0", "60", "0x", 115);
    let mut engine = MEVEngine::new();
    engine.add_transaction(a, 0);
    engine.add_transaction(b, 0);
    engine.add_transaction(c, 0);
    let attacks = engine.detect_mev_attacks();
    assert!(attacks.iter().all(|r| r.attack_type != AttackType::Sandwich));
}

// Front-running scenario.

#[test]
fn frontrunning_scenario() {
    let d = mk_tx("hash_d", "X", "0", "40", "0xdeadbeef00", 200);
    let e = mk_tx("hash_e", "Y", "1000000000000000000", "5", "0xdeadbeef00", 210);
    let mut engine = MEVEngine::new();
    engine.add_transaction(d, 0);
    engine.add_transaction(e, 0);
    let attacks = engine.detect_mev_attacks();
    assert_eq!(attacks.len(), 1);
    let r = &attacks[0];
    assert_eq!(r.attack_type, AttackType::Frontrunning);
    assert_eq!(r.attacker, "X");
    assert_eq!(r.victim, "Y");
    assert_eq!(r.frontrun_tx, "hash_d");
    assert_eq!(r.backrun_tx, "");
    assert_eq!(r.timestamp, 210);
    assert_eq!(r.profit_wei, ETH / 100); // 0.01 native units
}

#[test]
fn frontrunning_needs_both_payloads() {
    let d = mk_tx("d", "X", "0", "40", "0x", 200);
    let e = mk_tx("e", "Y", "1000000000000000000", "5", "0xdeadbeef00", 210);
    let mut engine = MEVEngine::new();
    engine.add_transaction(d, 0);
    engine.add_transaction(e, 0);
    assert!(engine.detect_mev_attacks().is_empty());
}

#[test]
fn frontrunning_outside_thirty_seconds_ignored() {
    let d = mk_tx("d", "X", "0", "40", "0xdeadbeef00", 200);
    let e = mk_tx("e", "Y", "1000000000000000000", "5", "0xdeadbeef00", 231);
    let mut engine = MEVEngine::new();
    engine.add_transaction(d, 0);
    engine.add_transaction(e, 0);
    assert!(engine.detect_mev_attacks().is_empty());
}

// Size floor: two transactions can never form a sandwich.

#[test]
fn two_transactions_never_sandwich() {
    let d = mk_tx("d", "X", "5000000000000000000", "40", "0xdeadbeef00", 200);
    let e = mk_tx("e", "Y", "1000000000000000000", "5", "0xdeadbeef00", 210);
    let mut engine = MEVEngine::new();
    engine.add_transaction(d, 0);
    engine.add_transaction(e, 0);
    let attacks = engine.detect_mev_attacks();
    assert!(attacks.iter().all(|r| r.attack_type != AttackType::Sandwich));
    assert!(attacks.iter().any(|r| r.attack_type == AttackType::Frontrunning));
}

// Unparsable-field tolerance.

#[test]
fn unparsable_victim_gas_counts_as_zero() {
    let a = mk_tx("a", "X", "2000000000000000000", "50", "0x1234567890", 100);
    let b = mk_tx("b", "Y", "0", "not_a_number", "0x1234567890", 110);
    let c = mk_tx("c", "X", "3000000000000000000", "60", "0x", 115);
    let mut engine = MEVEngine::new();
    engine.add_transaction(a, 0);
    engine.add_transaction(b, 0);
    engine.add_transaction(c, 0);
    // Victim gas degrades to 0, which 50 and 60 both exceed.
    let attacks = engine.detect_mev_attacks();
    assert!(attacks.iter().any(|r| r.attack_type == AttackType::Sandwich));
}

#[test]
fn unparsable_attacker_gas_suppresses_match() {
    let d = mk_tx("d", "X", "0", "not_a_number", "0xdeadbeef00", 200);
    let e = mk_tx("e", "Y", "1000000000000000000", "5", "0xdeadbeef00", 210);
    let mut engine = MEVEngine::new();
    engine.add_transaction(d, 0);
    engine.add_transaction(e, 0);
    // Attacker gas degrades to 0, which does not exceed 5: no match, no error.
    assert!(engine.detect_mev_attacks().is_empty());
}

#[test]
fn unparsable_value_gives_zero_profit() {
    let a = mk_tx("a", "X", "not_a_number", "50", "0x1234567890", 100);
    let b = mk_tx("b", "Y", "0", "10", "0x1234567890", 110);
    let c = mk_tx("c", "X", "also_not", "60", "0x", 115);
    let mut engine = MEVEngine::new();
    engine.add_transaction(a, 0);
    engine.add_transaction(b, 0);
    engine.add_transaction(c, 0);
    let attacks = engine.detect_mev_attacks();
    let s = attacks.iter().find(|r| r.attack_type == AttackType::Sandwich).unwrap();
    assert_eq!(s.profit_wei, 0);
}

// Determinism: repeated scans of a fixed store agree.

#[test]
fn repeated_scans_identical() {
    let mut engine = MEVEngine::new();
    engine.add_transaction(mk_tx("a", "X", "2000000000000000000", "50", "0x1234567890", 100), 0);
    engine.add_transaction(mk_tx("b", "Y", "0", "10", "0x1234567890", 110), 0);
    engine.add_transaction(mk_tx("c", "X", "3000000000000000000", "60", "0x", 115), 0);
    engine.add_transaction(mk_tx("d", "X", "0", "40", "0xdeadbeef00", 200), 0);
    engine.add_transaction(mk_tx("e", "Y", "1000000000000000000", "5", "0xdeadbeef00", 210), 0);
    let first = engine.detect_mev_attacks();
    let second = engine.detect_mev_attacks();
    assert_eq!(first.len(), second.len());
    for (x, y) in first.iter().zip(second.iter()) {
        assert_eq!(x.victim, y.victim);
        assert_eq!(x.attacker, y.attacker);
        assert_eq!(x.profit_wei, y.profit_wei);
        assert_eq!(x.timestamp, y.timestamp);
        assert_eq!(x.attack_type, y.attack_type);
        assert_eq!(x.frontrun_tx, y.frontrun_tx);
        assert_eq!(x.backrun_tx, y.backrun_tx);
    }
}

// Stable ordering: equal timestamps keep insertion order.

#[test]
fn equal_timestamps_keep_insertion_order() {
    let d = mk_tx("d", "X", "0", "40", "0xdeadbeef00", 200);
    let e = mk_tx("e", "Y", "1000000000000000000", "5", "0xdeadbeef00", 200);
    let mut engine = MEVEngine::new();
    engine.add_transaction(d, 0);
    engine.add_transaction(e, 0);
    let attacks = engine.detect_mev_attacks();
    assert_eq!(attacks.len(), 1);
    assert_eq!(attacks[0].attacker, "X");
    assert_eq!(attacks[0].victim, "Y");
}

// The batch entry point.

#[test]
fn batch_detects_like_incremental() {
    let batch = vec![
        mk_tx("hash_a", "X", "2000000000000000000", "50", "0x1234567890", 100),
        mk_tx("hash_b", "Y", "0", "10", "0x1234567890", 110),
        mk_tx("hash_c", "X", "3000000000000000000", "60", "0x", 115),
    ];
    let attacks = detect_mev(batch, 0);
    let sandwiches: Vec<_> =
        attacks.iter().filter(|r| r.attack_type == AttackType::Sandwich).collect();
    assert_eq!(sandwiches.len(), 1);
    assert_eq!(sandwiches[0].attacker, "X");
    assert_eq!(sandwiches[0].profit_wei, ETH);
}

#[test]
fn empty_store_detects_nothing() {
    let engine = MEVEngine::new();
    assert_eq!(engine.get_cluster_count(), 0);
    assert!(engine.detect_mev_attacks().is_empty());
}

// The decimal parser and its fallback-to-zero contract.

#[test]
fn parse_plain_decimal() {
    assert_eq!(parse_decimal_u128("0"), 0);
    assert_eq!(parse_decimal_u128("42"), 42);
    assert_eq!(parse_decimal_u128("2000000000000000000"), 2 * ETH);
    assert_eq!(parse_decimal_u128("00123"), 123);
}

#[test]
fn parse_rejects_non_digits() {
    assert_eq!(parse_decimal_u128(""), 0);
    assert_eq!(parse_decimal_u128("not_a_number"), 0);
    assert_eq!(parse_decimal_u128("+5"), 0);
    assert_eq!(parse_decimal_u128("-5"), 0);
    assert_eq!(parse_decimal_u128("12 3"), 0);
    assert_eq!(parse_decimal_u128("1.5"), 0);
}

#[test]
fn parse_saturates_to_zero_on_overflow() {
    assert_eq!(parse_decimal_u128("340282366920938463463374607431768211455"), u128::MAX);
    assert_eq!(parse_decimal_u128("340282366920938463463374607431768211456"), 0);
    assert_eq!(parse_decimal_u128("9999999999999999999999999999999999999999999"), 0);
}
