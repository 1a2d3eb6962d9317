use snapcoin_db_inspector::events::{
    SentinelAmountSummary, SentinelBlockContext, SentinelDeltaSummary, SentinelDisposition,
    SentinelEvent, SentinelEvidence, SentinelImpact, SentinelLinks, SentinelNetworkContext,
    SentinelObservedSummary,
};
use snapcoin_db_inspector::keys::{Address, TxId};
use snapcoin_db_inspector::outputs::TxOutput;
use snapcoin_db_inspector::rules::{
    evaluate_abnormal_output_value, evaluate_abnormal_tx_total, evaluate_all_tx_rules,
    evaluate_receiver_concentration, ReceiverAggregateFact, RuleSetResult, TxOutputFact,
    TxRuleInput, TxRuleThresholds,
};
use snapcoin_db_inspector::scanner::{
    build_decoded_tx_facts, evaluate_decoded_facts, evaluate_facts_at, now_rfc3339_like,
    scan_all_txs, scan_block, scan_range, stamp, BlockScanResult, ScanConfig,
};
use snapcoin_db_inspector::sentinel::{
    alert_lines, banner_lines, run_full_tx_scan, run_index_range_scan, run_index_scan,
    watch_next, watch_opening, watch_poll, SentinelConfig, WatchNext,
};
use snapcoin_db_inspector::store::{Entry, Snapshot};

const COIN: u64 = 100_000_000;

fn payee_key(n: u8) -> [u8; 32] {
    let mut key = [5u8; 32];
    key[31] = n;
    key
}

fn payee(n: u8) -> String {
    Address { key: payee_key(n) }.dump_base36()
}

fn out(amount: u64, n: u8) -> Option<TxOutput> {
    Some(TxOutput { amount, receiver: Address { key: payee_key(n) } })
}

fn txid_text(n: u8) -> String {
    let mut hash = [4u8; 32];
    hash[0] = n;
    TxId { hash }.dump_base36()
}

fn stored(n: u8, outputs: &[Option<(u64, u8)>]) -> Entry {
    let outputs: Vec<Option<snap_coin::core::transaction::TransactionOutput>> = outputs
        .iter()
        .map(|o| {
            o.map(|(amount, n)| snap_coin::core::transaction::TransactionOutput {
                amount,
                receiver: snap_coin::crypto::keys::Public::new_from_buf(&payee_key(n)),
            })
        })
        .collect();
    Entry {
        key: txid_text(n).into_bytes(),
        value: bincode::encode_to_vec(&outputs, bincode::config::standard()).unwrap(),
    }
}

fn three_txs() -> Snapshot {
    Snapshot {
        entries: vec![
            stored(1, &[Some((1, 1))]),
            stored(2, &[Some((2_000_000 * COIN, 1)), None]),
            stored(3, &[Some((3_000_000 * COIN, 2)), Some((3_000_000 * COIN, 2))]),
        ],
        len: 9,
        fault: None,
    }
}

fn faulty() -> Snapshot {
    Snapshot { entries: vec![], len: 0, fault: Some("io error".to_string()) }
}

fn rule_input() -> TxRuleInput {
    TxRuleInput {
        detected_at: "unix:5".to_string(),
        network: SentinelNetworkContext {
            chain: "c".to_string(),
            network_type: "n".to_string(),
            node_id: "i".to_string(),
            db_height: 3,
            best_tip_hash: "".to_string(),
        },
        block: SentinelBlockContext {
            height: 0,
            hash: "".to_string(),
            prev_hash: "".to_string(),
            timestamp: "".to_string(),
            tx_count: 1,
            coinbase_txid: "abc".to_string(),
        },
        txid: "abc".to_string(),
        output_count: 4,
        unspent_count: 3,
        spent_count: 1,
        tx_total_unspent_atomic: 60,
        largest_output_atomic: 30,
        largest_output_index: Some(2),
        largest_output_address: Some("b".to_string()),
        outputs: vec![fact(0, "a", 10), fact(1, "b", 20), fact(2, "b", 30)],
        receiver_aggregates: vec![aggregate("b", 2, 50), aggregate("a", 1, 10)],
    }
}

fn fact(index: u32, address: &str, amount: u64) -> TxOutputFact {
    TxOutputFact {
        index,
        address: address.to_string(),
        amount_atomic: amount,
        amount_display: format!("{amount} atoms"),
    }
}

fn aggregate(address: &str, count: usize, total: u64) -> ReceiverAggregateFact {
    ReceiverAggregateFact {
        address: address.to_string(),
        output_count: count,
        total_atomic: total,
        total_display: format!("{total} atoms"),
    }
}

fn thresholds(output: u64, total: u64, receiver: u64) -> TxRuleThresholds {
    TxRuleThresholds {
        abnormal_output_atomic: output,
        abnormal_tx_total_atomic: total,
        receiver_concentration_atomic: receiver,
    }
}

fn ids(events: &[SentinelEvent]) -> Vec<String> {
    events.iter().map(|e| e.event_id.clone()).collect()
}

#[test]
fn thresholds_have_usual_values() {
    let t = TxRuleThresholds::default();
    assert_eq!(t.abnormal_output_atomic, 1_000_000 * COIN);
    assert_eq!(t.abnormal_tx_total_atomic, 5_000_000 * COIN);
    assert_eq!(t.receiver_concentration_atomic, 1_000_000 * COIN);
}

#[test]
fn large_outputs_raise_events() {
    let found = evaluate_abnormal_output_value(&rule_input(), &thresholds(20, 0, 0));
    assert_eq!(found.len(), 2);
    let e = &found[0].event;
    assert_eq!(e.schema_version, "1.0.0");
    assert_eq!(e.event_id, "sentinel-abc-out-1-rule-output-001");
    assert_eq!(e.event_type, "abnormal_output_value");
    assert_eq!(e.severity, "high");
    assert_eq!(e.status, "open");
    assert_eq!(e.detected_at, "unix:5");
    assert_eq!(e.network.db_height, 3);
    assert_eq!(e.block.coinbase_txid, "abc");
    assert_eq!(e.anomaly.rule_id, "RULE-OUTPUT-001");
    assert_eq!(e.anomaly.rule_name, "single output exceeds abnormal output threshold");
    assert_eq!(e.anomaly.category, "tx-anomaly");
    assert_eq!(e.anomaly.confidence_percent, 98);
    assert!(e.anomaly.expected.extra.is_empty());
    assert_eq!(e.anomaly.observed.coinbase_output_count, Some(4));
    let observed = &e.anomaly.observed.extra;
    assert_eq!(observed.len(), 4);
    assert_eq!(observed.get("txid").unwrap().as_str(), Some("abc"));
    assert_eq!(observed.get("output_index").unwrap().as_u64(), Some(1));
    assert_eq!(observed.get("output_amount_atomic").unwrap().as_u64(), Some(20));
    assert_eq!(observed.get("output_address").unwrap().as_str(), Some("b"));
    assert_eq!(e.anomaly.delta.excess_atomic, Some(0));
    let ratio = e.anomaly.delta.reward_ratio.unwrap();
    assert_eq!((ratio.part, ratio.whole), (20, 20));
    assert_eq!(e.evidence.coinbase_outputs.len(), 1);
    assert_eq!(e.evidence.coinbase_outputs[0].amount_atomic, 20);
    assert_eq!(e.evidence.coinbase_outputs[0].amount_display, "20 atoms");
    assert_eq!(e.evidence.flags, vec!["abnormal_output_value", "tx_anomaly", "review_required"]);
    let impact = e.impact.as_ref().unwrap();
    assert_eq!(impact.potential_exchange_risk, Some(true));
    assert_eq!(impact.potential_consensus_risk, Some(false));
    let disposition = e.disposition.unwrap();
    assert_eq!(disposition.should_page, Some(true));
    assert_eq!(disposition.should_freeze_exchange, Some(false));
    assert_eq!(disposition.should_freeze_pool, Some(false));
    assert_eq!(disposition.requires_manual_review, Some(true));
    let links = e.links.as_ref().unwrap();
    assert_eq!(links.explorer_block_url, None);
    assert_eq!(links.explorer_tx_url, Some("/api/decode/abc".to_string()));
    assert_eq!(links.internal_api_url, Some("/api/get/abc".to_string()));
    assert_eq!(
        e.recommended_actions,
        vec!["inspect_tx_outputs", "trace_receiver_address", "review_exchange_flow"]
    );
    assert_eq!(
        e.notes,
        vec!["Detected by RULE-OUTPUT-001", "Single tx output exceeded configured threshold"]
    );
    assert_eq!(found[1].event.anomaly.delta.excess_atomic, Some(10));
}

#[test]
fn large_totals_raise_an_event() {
    assert!(evaluate_abnormal_tx_total(&rule_input(), &thresholds(0, 61, 0)).is_none());
    let e = evaluate_abnormal_tx_total(&rule_input(), &thresholds(0, 50, 0)).unwrap().event;
    assert_eq!(e.event_id, "sentinel-abc-rule-txtotal-001");
    assert_eq!(e.event_type, "supply_jump_detected");
    assert_eq!(e.severity, "critical");
    assert_eq!(e.anomaly.rule_id, "RULE-TXTOTAL-001");
    assert_eq!(e.anomaly.rule_name, "tx total unspent value exceeds abnormal tx threshold");
    assert_eq!(e.anomaly.confidence_percent, 99);
    let expected = &e.anomaly.expected.extra;
    assert_eq!(expected.get("abnormal_tx_total_threshold_atomic").unwrap().as_u64(), Some(50));
    let observed = &e.anomaly.observed.extra;
    assert_eq!(observed.get("tx_total_unspent_atomic").unwrap().as_u64(), Some(60));
    assert_eq!(observed.get("unspent_count").unwrap().as_u64(), Some(3));
    assert_eq!(observed.get("spent_count").unwrap().as_u64(), Some(1));
    assert_eq!(e.anomaly.delta.excess_atomic, Some(10));
    assert_eq!(e.evidence.coinbase_outputs.len(), 3);
    assert_eq!(
        e.evidence.flags,
        vec!["abnormal_tx_total", "large_value_cluster", "review_required"]
    );
    assert_eq!(e.impact.unwrap().potential_consensus_risk, Some(true));
    assert_eq!(e.recommended_actions.len(), 4);
    assert_eq!(e.notes[0], "Detected by RULE-TXTOTAL-001");
}

#[test]
fn large_receivers_raise_events() {
    let found = evaluate_receiver_concentration(&rule_input(), &thresholds(0, 0, 50));
    assert_eq!(found.len(), 1);
    let e = &found[0].event;
    assert_eq!(e.event_id, "sentinel-abc-recv-b-rule-recv-001");
    assert_eq!(e.event_type, "receiver_concentration_spike");
    assert_eq!(e.severity, "medium");
    assert_eq!(e.anomaly.category, "receiver-anomaly");
    assert_eq!(e.anomaly.confidence_percent, 96);
    assert_eq!(e.anomaly.observed.coinbase_output_count, Some(2));
    let expected = &e.anomaly.expected.extra;
    assert_eq!(
        expected.get("receiver_concentration_threshold_atomic").unwrap().as_u64(),
        Some(50)
    );
    let observed = &e.anomaly.observed.extra;
    assert_eq!(observed.get("receiver").unwrap().as_str(), Some("b"));
    assert_eq!(observed.get("receiver_total_atomic").unwrap().as_u64(), Some(50));
    assert_eq!(observed.get("receiver_output_count").unwrap().as_u64(), Some(2));
    let indices: Vec<u32> = e.evidence.coinbase_outputs.iter().map(|o| o.index).collect();
    assert_eq!(indices, vec![1, 2]);
    assert_eq!(e.disposition.unwrap().should_page, Some(false));
    assert_eq!(e.recommended_actions, vec!["inspect_receiver_cluster", "trace_address_activity"]);
    assert_eq!(
        e.notes[1],
        "One receiver accumulated an unusually large share of a tx entry"
    );
}

#[test]
fn all_rules_are_evaluated_in_order() {
    let found = evaluate_all_tx_rules(&rule_input(), &thresholds(30, 60, 10));
    assert!(!found.is_empty());
    let got: Vec<String> = found.matches.iter().map(|m| m.event.event_id.clone()).collect();
    assert_eq!(
        got,
        vec![
            "sentinel-abc-out-2-rule-output-001",
            "sentinel-abc-rule-txtotal-001",
            "sentinel-abc-recv-b-rule-recv-001",
            "sentinel-abc-recv-a-rule-recv-001",
        ]
    );
    assert!(evaluate_all_tx_rules(&rule_input(), &thresholds(31, 61, 51)).is_empty());
}

#[test]
fn thresholds_of_zero_are_always_reached() {
    let found = evaluate_all_tx_rules(&rule_input(), &thresholds(0, 0, 0));
    assert_eq!(found.matches.len(), 6);
    let ratio = found.matches[0].event.anomaly.delta.reward_ratio.unwrap();
    assert_eq!((ratio.part, ratio.whole), (10, 0));
}

#[test]
fn rule_sets_collect_matches() {
    let mut set = RuleSetResult::default();
    assert!(set.is_empty());
    set.push(evaluate_abnormal_tx_total(&rule_input(), &thresholds(0, 0, 0)).unwrap());
    assert!(!set.is_empty());
    assert_eq!(set.matches.len(), 1);
}

#[test]
fn event_parts_default_to_nothing() {
    assert!(SentinelAmountSummary::default().extra.is_empty());
    assert_eq!(SentinelObservedSummary::default().coinbase_output_count, None);
    assert_eq!(SentinelDeltaSummary::default().excess_atomic, None);
    assert!(SentinelEvidence::default().flags.is_empty());
    assert_eq!(SentinelImpact::default().potential_exchange_risk, None);
    assert_eq!(SentinelDisposition::default().should_page, None);
    assert_eq!(SentinelLinks::default().explorer_tx_url, None);
}

#[test]
fn events_are_copied_with_all_their_fields() {
    let e = evaluate_abnormal_tx_total(&rule_input(), &thresholds(0, 50, 0)).unwrap().event;
    let copy = e.clone();
    assert_eq!(format!("{e:?}"), format!("{copy:?}"));
    assert_eq!(copy.anomaly.observed.extra.len(), 4);
}

#[test]
fn facts_of_a_transaction_are_collected() {
    let outputs = vec![None, out(5, 1), out(7, 2), out(2, 1), None, out(7, 3)];
    let f = build_decoded_tx_facts("tx", &outputs);
    assert_eq!(f.txid, "tx");
    assert_eq!((f.output_count, f.unspent_count, f.spent_count), (6, 4, 2));
    assert_eq!(f.tx_total_unspent_atomic, 21);
    assert_eq!(f.largest_output_atomic, 7);
    assert_eq!(f.largest_output_index, Some(2));
    assert_eq!(f.largest_output_address, Some(payee(2)));
    let indices: Vec<u32> = f.outputs.iter().map(|o| o.index).collect();
    assert_eq!(indices, vec![1, 2, 3, 5]);
    assert_eq!(f.outputs[0].address, payee(1));
    assert_eq!(f.outputs[0].amount_atomic, 5);
    assert_eq!(f.outputs[0].amount_display, "0.00000005");
    let receivers: Vec<(String, usize, u64)> = f
        .receiver_aggregates
        .iter()
        .map(|r| (r.address.clone(), r.output_count, r.total_atomic))
        .collect();
    assert_eq!(receivers, vec![(payee(1), 2, 7), (payee(2), 1, 7), (payee(3), 1, 7)]);
    assert_eq!(f.receiver_aggregates[0].total_display, "0.00000007");
}

#[test]
fn facts_of_a_transaction_without_amounts() {
    let f = build_decoded_tx_facts("tx", &vec![out(0, 1), None]);
    assert_eq!(f.largest_output_atomic, 0);
    assert_eq!(f.largest_output_index, None);
    assert_eq!(f.largest_output_address, None);
    assert_eq!(f.receiver_aggregates.len(), 1);
    let f = build_decoded_tx_facts("tx", &vec![out(u64::MAX, 1), out(1, 1)]);
    assert_eq!(f.tx_total_unspent_atomic, u64::MAX);
    assert_eq!(f.receiver_aggregates[0].total_atomic, u64::MAX);
}

#[test]
fn stamps_count_seconds() {
    assert_eq!(stamp(Some(17)), "unix:17");
    assert_eq!(stamp(None), "unix:0");
    let now = now_rfc3339_like();
    let seconds: u64 = now.strip_prefix("unix:").unwrap().parse().unwrap();
    assert!(seconds > 1_600_000_000);
}

#[test]
fn facts_are_evaluated_at_a_given_time() {
    let cfg = ScanConfig::default();
    let facts = build_decoded_tx_facts("tx", &vec![out(1_000_000 * COIN, 1)]);
    let events = evaluate_facts_at(&cfg, 12, "unix:1".to_string(), &facts);
    assert_eq!(
        ids(&events),
        vec![
            "sentinel-tx-out-0-rule-output-001".to_string(),
            format!("sentinel-tx-recv-{}-rule-recv-001", payee(1)),
        ]
    );
    let e = &events[0];
    assert_eq!(e.detected_at, "unix:1");
    assert_eq!(e.network.chain, "snapcoin");
    assert_eq!(e.network.network_type, "mainnet");
    assert_eq!(e.network.node_id, "snap-sentinel-01");
    assert_eq!(e.network.db_height, 12);
    assert_eq!(e.network.best_tip_hash, "");
    assert_eq!(e.block.tx_count, 1);
    assert_eq!(e.block.height, 0);
    assert_eq!(e.block.coinbase_txid, "tx");
    let now = evaluate_decoded_facts(&cfg, &three_txs(), &facts);
    assert_eq!(now.len(), 2);
    assert_eq!(now[0].network.db_height, 9);
    assert!(now[0].detected_at.starts_with("unix:"));
}

#[test]
fn single_positions_are_scanned() {
    let cfg = ScanConfig::default();
    let db = three_txs();
    assert!(scan_block(&db, &cfg, 0).unwrap().matched_events.is_empty());
    let found = scan_block(&db, &cfg, 1).unwrap();
    assert_eq!(found.height, 1);
    assert_eq!(found.matched_events.len(), 2);
    assert_eq!(scan_block(&db, &cfg, 2).unwrap().matched_events.len(), 4);
    assert!(scan_block(&db, &cfg, 3).unwrap().matched_events.is_empty());
    assert!(scan_block(&db, &cfg, u64::MAX).unwrap().matched_events.is_empty());
    assert_eq!(scan_block(&faulty(), &cfg, 0).unwrap_err().text, "io error");
    assert_eq!(BlockScanResult::default().height, 0);
}

#[test]
fn ranges_are_scanned() {
    let cfg = ScanConfig::default();
    let db = three_txs();
    let counts = |start, end| {
        let found = scan_range(&db, &cfg, start, end).unwrap();
        assert_eq!((found.start_height, found.end_height), (start, end));
        (found.scanned_blocks, found.matched_events.len())
    };
    assert_eq!(counts(0, 0), (1, 0));
    assert_eq!(counts(0, 1), (2, 2));
    assert_eq!(counts(1, 2), (2, 6));
    assert_eq!(counts(1, u64::MAX), (2, 6));
    assert_eq!(counts(2, 1), (0, 0));
    assert_eq!(counts(3, 9), (0, 0));
    assert_eq!(scan_range(&faulty(), &cfg, 0, 1).unwrap_err().text, "io error");
}

#[test]
fn a_full_scan_is_the_sum_of_its_positions() {
    let cfg = ScanConfig::default();
    let db = three_txs();
    let mut parts = Vec::new();
    for i in 0..3 {
        parts.extend(ids(&scan_block(&db, &cfg, i).unwrap().matched_events));
    }
    let all = ids(&scan_all_txs(&db, &cfg).unwrap());
    assert_eq!(all, parts);
    assert_eq!(all.len(), 6);
    assert_eq!(scan_all_txs(&faulty(), &cfg).unwrap_err().text, "io error");
}

#[test]
fn event_ids_are_unique() {
    let all = ids(&scan_all_txs(&three_txs(), &ScanConfig::default()).unwrap());
    for i in 0..all.len() {
        for j in 0..i {
            assert_ne!(all[i], all[j]);
        }
    }
}

#[test]
fn a_large_output_alerts_its_receiver_too() {
    let cfg = ScanConfig::default();
    for e in scan_all_txs(&three_txs(), &cfg).unwrap() {
        if e.anomaly.rule_id == "RULE-OUTPUT-001" {
            let address = e.evidence.coinbase_outputs[0].address.clone();
            let id = format!("sentinel-{}-recv-{address}-rule-recv-001", e.block.coinbase_txid);
            assert!(ids(&scan_all_txs(&three_txs(), &cfg).unwrap()).contains(&id));
        }
    }
}

#[test]
fn sentinel_configs_become_scan_configs() {
    let cfg = SentinelConfig::default();
    assert_eq!(cfg.poll_seconds, 5);
    let scan = cfg.to_scan_config();
    assert_eq!(scan.chain, "snapcoin");
    assert_eq!(scan.network_type, "mainnet");
    assert_eq!(scan.node_id, "snap-sentinel-01");
    assert_eq!(scan.thresholds.abnormal_tx_total_atomic, 5_000_000 * COIN);
}

#[test]
fn index_scans_are_reported() {
    let cfg = SentinelConfig::default();
    let run = run_index_scan(&three_txs(), &cfg, 0);
    assert_eq!(run.lines, vec!["sentinel: indexed entry 0 clean"]);
    assert!(run.events.is_empty());
    let run = run_index_scan(&three_txs(), &cfg, 2);
    assert_eq!(run.lines, vec!["sentinel: indexed entry 2 produced 4 alert(s)"]);
    assert_eq!(run.events.len(), 4);
    let run = run_index_scan(&faulty(), &cfg, 2);
    assert!(run.lines.is_empty());
    assert_eq!(run.fault.unwrap().text, "io error");
}

#[test]
fn range_scans_are_reported() {
    let cfg = SentinelConfig::default();
    let run = run_index_range_scan(&three_txs(), &cfg, 1, 7);
    assert_eq!(
        run.lines,
        vec![
            "sentinel: scanning indexed entries 1..7 (7)",
            "sentinel: scanned 2 indexed entries",
            "sentinel: 6 anomaly event(s) detected",
        ]
    );
    assert_eq!(run.events.len(), 6);
    let run = run_index_range_scan(&three_txs(), &cfg, 5, 3);
    assert_eq!(
        run.lines,
        vec![
            "sentinel: scanning indexed entries 5..3 (1)",
            "sentinel: scanned 0 indexed entries",
            "sentinel: no anomalies detected",
        ]
    );
    let run = run_index_range_scan(&faulty(), &cfg, 0, 0);
    assert_eq!(run.lines, vec!["sentinel: scanning indexed entries 0..0 (1)"]);
    assert_eq!(run.fault.unwrap().text, "io error");
}

#[test]
fn full_scans_are_reported() {
    let cfg = SentinelConfig::default();
    let run = run_full_tx_scan(&three_txs(), &cfg);
    assert_eq!(
        run.lines,
        vec!["sentinel: starting full tx-entry scan", "sentinel: 6 anomaly event(s) detected"]
    );
    let empty = Snapshot { entries: vec![], len: 0, fault: None };
    let run = run_full_tx_scan(&empty, &cfg);
    assert_eq!(run.lines[1], "sentinel: no anomalies detected in full tx scan");
    let run = run_full_tx_scan(&faulty(), &cfg);
    assert_eq!(run.lines.len(), 1);
    assert_eq!(run.fault.unwrap().text, "io error");
    assert_eq!(watch_opening(&cfg), "sentinel: watch mode starting (poll=5s)");
    let run = watch_poll(&three_txs(), &cfg);
    assert_eq!(run.lines, vec!["sentinel: watch poll complete, 6 anomaly event(s) detected"]);
    let run = watch_poll(&empty, &cfg);
    assert_eq!(run.lines, vec!["sentinel: watch poll complete, no anomalies detected"]);
    assert_eq!(watch_poll(&faulty(), &cfg).fault.unwrap().text, "io error");
}

#[test]
fn watching_shows_everything_again_until_a_fault() {
    let cfg = SentinelConfig { poll_seconds: 7, ..SentinelConfig::default() };
    let first = watch_poll(&three_txs(), &cfg);
    assert!(matches!(watch_next(&cfg, &first), WatchNext::Sleep { seconds: 7 }));
    let second = watch_poll(&three_txs(), &cfg);
    assert!(matches!(watch_next(&cfg, &second), WatchNext::Sleep { seconds: 7 }));
    assert_eq!(first.events.len(), 6);
    assert_eq!(ids(&first.events), ids(&second.events));
    let last = watch_poll(&faulty(), &cfg);
    assert!(last.lines.is_empty());
    assert!(matches!(watch_next(&cfg, &last), WatchNext::Fail(fault) if fault.text == "io error"));
}

#[test]
fn alerts_are_framed() {
    assert_eq!(alert_lines(Ok("{}".to_string())), vec!["=== SENTINEL ALERT ===", "{}"]);
    assert_eq!(
        alert_lines(Err("x".to_string())),
        vec!["sentinel: failed to serialize event: x"]
    );
    let banner = banner_lines();
    assert_eq!(banner.len(), 4);
    assert_eq!(banner[0], "-".repeat(45));
    assert_eq!(banner[1], " Snap Sentinel");
    assert_eq!(banner[2], " Tx / UTXO Anomaly Monitor");
    assert_eq!(banner[3], banner[0]);
}
