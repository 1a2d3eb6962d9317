use snap_coin::crypto::keys::Public;
use snapcoin_db_inspector::db::{confirmed_balance, global_metrics, top_receivers};
use snapcoin_db_inspector::intelligence::wallet_intelligence;
use snapcoin_db_inspector::keys::{Address, TxId};
use snapcoin_db_inspector::outputs::DecodeFault;
use snapcoin_db_inspector::store::{collect_valid_tx_entries, Entry, Lookup, ReadFault, Snapshot};
use snapcoin_db_inspector::utxos::{
    decode_utxo_entry, list_txids, pays_address, utxo_key, utxos_for, UtxoError,
};
use snapcoin_db_inspector::wallet_stats::wallet_stats;

fn wallet_key(n: u8) -> [u8; 32] {
    let mut key = [7u8; 32];
    key[31] = n;
    key
}

fn wallet(n: u8) -> Address {
    Address { key: wallet_key(n) }
}

fn name(n: u8) -> String {
    wallet(n).dump_base36()
}

fn stored_value(outputs: &[Option<(u64, u8)>]) -> Vec<u8> {
    let outputs: Vec<Option<snap_coin::core::transaction::TransactionOutput>> = outputs
        .iter()
        .map(|o| {
            o.map(|(amount, n)| snap_coin::core::transaction::TransactionOutput {
                amount,
                receiver: Public::new_from_buf(&wallet_key(n)),
            })
        })
        .collect();
    bincode::encode_to_vec(&outputs, bincode::config::standard()).unwrap()
}

fn tx_name(n: u8) -> String {
    let mut hash = [1u8; 32];
    hash[0] = n;
    TxId { hash }.dump_base36()
}

fn tx(n: u8, outputs: &[Option<(u64, u8)>]) -> Entry {
    Entry { key: tx_name(n).into_bytes(), value: stored_value(outputs) }
}

fn store(entries: Vec<Entry>) -> Snapshot {
    let len = entries.len() as u64;
    Snapshot { entries, len, fault: None }
}

fn broken(entries: Vec<Entry>) -> Snapshot {
    let len = entries.len() as u64;
    Snapshot { entries, len, fault: Some("io error".to_string()) }
}

fn sample() -> Snapshot {
    store(vec![
        tx(1, &[Some((100, 1)), None, Some((50, 2))]),
        Entry { key: b"meta:height".to_vec(), value: stored_value(&[Some((1_000, 1))]) },
        Entry { key: vec![0xff, 0xfe], value: stored_value(&[Some((5, 3))]) },
        Entry { key: tx_name(2).into_bytes(), value: vec![9] },
        tx(3, &[Some((70, 1)), Some((30, 1)), None, None, Some((70, 4))]),
        tx(4, &[None, None]),
        tx(5, &[Some((200, 2))]),
    ])
}

#[test]
fn global_metrics_count_transactions_only() {
    let g = global_metrics(&sample()).unwrap();
    assert_eq!(g.tx_entries_scanned, 4);
    assert_eq!(g.outputs_total, 11);
    assert_eq!(g.outputs_unspent, 6);
    assert_eq!(g.outputs_spent, 5);
    assert_eq!(g.wallets_with_unspent, 3);
    assert_eq!(g.utxo_total_unspent_atomic, 520);
    assert_eq!(g.outputs_total, g.outputs_unspent + g.outputs_spent);
}

#[test]
fn global_metrics_of_an_empty_store() {
    let g = global_metrics(&store(vec![])).unwrap();
    assert_eq!(g.tx_entries_scanned, 0);
    assert_eq!(g.wallets_with_unspent, 0);
    assert_eq!(g.utxo_total_unspent_atomic, 0);
}

#[test]
fn sums_are_held_at_the_largest_amount() {
    let db = store(vec![tx(1, &[Some((u64::MAX, 1)), Some((5, 1))])]);
    assert_eq!(global_metrics(&db).unwrap().utxo_total_unspent_atomic, u64::MAX);
    assert_eq!(confirmed_balance(&db, &wallet(1)).unwrap(), u64::MAX);
    assert_eq!(top_receivers(&db, 1).unwrap()[0].total_unspent, u64::MAX);
    let w = wallet_stats(&db, &wallet(1)).unwrap();
    assert_eq!(w.total_unspent_atomic, u64::MAX);
    assert_eq!(w.avg_output_atomic, u64::MAX / 2);
}

#[test]
fn full_scans_fail_on_a_fault() {
    let db = broken(vec![tx(1, &[Some((1, 1))])]);
    assert_eq!(global_metrics(&db).unwrap_err().text, "io error");
    assert_eq!(confirmed_balance(&db, &wallet(1)).unwrap_err().text, "io error");
    assert_eq!(top_receivers(&db, 3).unwrap_err().text, "io error");
    assert_eq!(wallet_stats(&db, &wallet(1)).unwrap_err().text, "io error");
    assert_eq!(wallet_intelligence(&db).unwrap_err().text, "io error");
    assert_eq!(collect_valid_tx_entries(&db).unwrap_err().text, "io error");
}

#[test]
fn balances_count_every_entry_that_decodes() {
    let db = sample();
    assert_eq!(confirmed_balance(&db, &wallet(1)).unwrap(), 1_200);
    assert_eq!(confirmed_balance(&db, &wallet(2)).unwrap(), 250);
    assert_eq!(confirmed_balance(&db, &wallet(3)).unwrap(), 5);
    assert_eq!(confirmed_balance(&db, &wallet(9)).unwrap(), 0);
}

#[test]
fn balances_cover_what_the_transactions_pay() {
    let db = sample();
    for n in 1..6 {
        let stats = wallet_stats(&db, &wallet(n)).unwrap();
        assert!(stats.total_unspent_atomic <= confirmed_balance(&db, &wallet(n)).unwrap());
    }
}

#[test]
fn top_receivers_are_ranked() {
    let rows = top_receivers(&sample(), 10).unwrap();
    let got: Vec<(String, u64)> =
        rows.iter().map(|r| (r.receiver_base36.clone(), r.total_unspent)).collect();
    assert_eq!(got, vec![(name(1), 1_200), (name(2), 250), (name(4), 70), (name(3), 5)]);
    assert_eq!(top_receivers(&sample(), 2).unwrap().len(), 2);
    assert_eq!(top_receivers(&sample(), 0).unwrap().len(), 0);
}

#[test]
fn top_rows_carry_the_balances_of_their_addresses() {
    let db = sample();
    for row in top_receivers(&db, 10).unwrap() {
        let address = Address::new_from_base36(&row.receiver_base36).unwrap();
        assert_eq!(confirmed_balance(&db, &address).unwrap(), row.total_unspent);
    }
}

#[test]
fn a_balance_is_the_row_of_its_address() {
    let db = sample();
    let rows = top_receivers(&db, usize::MAX).unwrap();
    for n in 1..8 {
        let row = rows.iter().find(|r| r.receiver_base36 == name(n));
        let balance = confirmed_balance(&db, &wallet(n)).unwrap();
        assert_eq!(balance, row.map_or(0, |r| r.total_unspent));
        assert!(balance >= wallet_stats(&db, &wallet(n)).unwrap().total_unspent_atomic);
    }
}

#[test]
fn receivers_share_the_whole() {
    let db = store(vec![tx(1, &[Some((3, 1)), Some((4, 2))]), tx(2, &[Some((5, 1)), None])]);
    let total: u64 = top_receivers(&db, 10).unwrap().iter().map(|r| r.total_unspent).sum();
    assert_eq!(total, global_metrics(&db).unwrap().utxo_total_unspent_atomic);
}

#[test]
fn equal_receivers_keep_the_order_of_appearance() {
    let db = store(vec![tx(1, &[Some((5, 3)), Some((5, 1)), Some((5, 2))])]);
    let names: Vec<String> =
        top_receivers(&db, 10).unwrap().into_iter().map(|r| r.receiver_base36).collect();
    assert_eq!(names, vec![name(3), name(1), name(2)]);
}

#[test]
fn wallet_stats_summarise_a_wallet() {
    let w = wallet_stats(&sample(), &wallet(1)).unwrap();
    assert_eq!(w.address, name(1));
    assert_eq!(w.tx_count, 2);
    assert_eq!(w.unspent_count, 3);
    assert_eq!(w.spent_count, 3);
    assert_eq!(w.total_unspent_atomic, 200);
    assert_eq!(w.total_unspent_snap, "0.000002");
    assert_eq!(w.baseline_unspent_atomic, 100);
    assert_eq!(w.baseline_unspent_snap, "0.000001");
    assert_eq!(w.delta_atomic, 100);
    assert_eq!(w.delta_snap, "+0.000001");
    assert_eq!(w.trend, "rising");
    assert_eq!(w.spend_rate.part, 3);
    assert_eq!(w.spend_rate.whole, 6);
    assert_eq!(w.largest_output_atomic, 100);
    assert_eq!(w.largest_output_snap, "0.000001");
    assert_eq!(w.avg_output_atomic, 66);
    assert_eq!(w.avg_output_snap, "0.00000066");
    assert_eq!(w.fragmentation, "LOW");
    assert_eq!(w.first_seen_txid, tx_name(1));
    assert_eq!(w.last_seen_txid, tx_name(3));
    assert_eq!(w.first_seen_index, 0);
    assert_eq!(w.last_seen_index, 2);
}

#[test]
fn wallet_stats_of_an_unknown_wallet() {
    let w = wallet_stats(&sample(), &wallet(9)).unwrap();
    assert_eq!(w.tx_count, 0);
    assert_eq!(w.unspent_count, 0);
    assert_eq!(w.spent_count, 0);
    assert_eq!(w.avg_output_atomic, 0);
    assert_eq!(w.delta_atomic, 0);
    assert_eq!(w.delta_snap, "+0.00");
    assert_eq!(w.trend, "stable");
    assert_eq!(w.spend_rate.whole, 0);
    assert_eq!(w.first_seen_txid, "");
    assert_eq!(w.last_seen_txid, "");
    assert_eq!(w.first_seen_index, 0);
    assert_eq!(w.last_seen_index, 0);
}

#[test]
fn fragmentation_has_three_levels() {
    for (count, level) in [(4usize, "LOW"), (5, "MEDIUM"), (20, "MEDIUM"), (21, "HIGH")] {
        let outputs: Vec<Option<(u64, u8)>> = (0..count).map(|_| Some((1, 1))).collect();
        let w = wallet_stats(&store(vec![tx(1, &outputs)]), &wallet(1)).unwrap();
        assert_eq!(w.fragmentation, level);
        assert_eq!(w.trend, "stable");
    }
}

#[test]
fn growth_beyond_signed_numbers_is_held() {
    for amount in [(1u64 << 63) - 1, 1 << 63, u64::MAX - 1] {
        let db = store(vec![tx(1, &[Some((1, 1))]), tx(2, &[Some((amount, 1))])]);
        let w = wallet_stats(&db, &wallet(1)).unwrap();
        assert_eq!(w.total_unspent_atomic, amount + 1);
        assert_eq!(w.delta_atomic, i64::MAX);
        assert_eq!(w.trend, "rising");
        assert_eq!(w.delta_snap, "+92,233,720,368.54775807");
        let i = wallet_intelligence(&db).unwrap();
        assert_eq!(i.fastest_growing_address, name(1));
        assert_eq!(i.fastest_growing_delta_atomic, i64::MAX);
        assert_eq!(i.fastest_growing_delta_snap, "+92,233,720,368.54775807");
    }
}

#[test]
fn intelligence_names_the_leaders() {
    let w = wallet_intelligence(&sample()).unwrap();
    assert_eq!(w.most_active_address, name(1));
    assert_eq!(w.most_active_tx_count, 2);
    assert_eq!(w.most_fragmented_address, name(1));
    assert_eq!(w.most_fragmented_unspent_count, 3);
    assert_eq!(w.fastest_growing_address, name(2));
    assert_eq!(w.fastest_growing_delta_atomic, 200);
    assert_eq!(w.fastest_growing_delta_snap, "+0.000002");
    assert_eq!(w.highest_spend_rate_address, name(1));
    assert_eq!(w.highest_spend_rate_spent, 3);
    assert_eq!(w.highest_spend_rate_total, 6);
    assert_eq!(w.largest_output_amount_atomic, 200);
    assert_eq!(w.largest_output_amount_snap, "0.000002");
    assert_eq!(w.largest_output_txid, tx_name(5));
    assert_eq!(w.largest_output_receiver, name(2));
    assert_eq!(w.total_wallets_scanned, 3);
    assert_eq!(w.total_tx_scanned, 4);
}

#[test]
fn intelligence_of_an_empty_store() {
    let w = wallet_intelligence(&store(vec![])).unwrap();
    assert_eq!(w.most_active_address, "");
    assert_eq!(w.most_active_tx_count, 0);
    assert_eq!(w.fastest_growing_address, "");
    assert_eq!(w.fastest_growing_delta_atomic, i64::MIN);
    assert_eq!(w.fastest_growing_delta_snap, "-92,233,720,368.54775808");
    assert_eq!(w.highest_spend_rate_address, "");
    assert_eq!(w.highest_spend_rate_total, 0);
    assert_eq!(w.largest_output_amount_snap, "0.00");
    assert_eq!(w.largest_output_txid, "");
    assert_eq!(w.total_wallets_scanned, 0);
}

#[test]
fn spend_rates_need_five_outputs() {
    let four = store(vec![tx(1, &[Some((1, 1)), None, None, None])]);
    assert_eq!(wallet_intelligence(&four).unwrap().highest_spend_rate_address, "");
    let five = store(vec![
        tx(1, &[Some((1, 1)), None, None, None, None]),
        tx(2, &[Some((1, 2)), None, None, None]),
        tx(3, &[Some((1, 3)), Some((1, 3)), None, None, None]),
    ]);
    let w = wallet_intelligence(&five).unwrap();
    assert_eq!(w.highest_spend_rate_address, name(1));
    assert_eq!(w.highest_spend_rate_spent, 4);
    assert_eq!(w.highest_spend_rate_total, 5);
}

#[test]
fn a_transaction_counts_once_for_a_wallet() {
    let db = store(vec![tx(1, &[Some((1, 1)), Some((2, 1)), None, Some((3, 1))])]);
    let w = wallet_intelligence(&db).unwrap();
    assert_eq!(w.most_active_tx_count, 1);
    assert_eq!(w.fastest_growing_delta_atomic, 0);
    let s = wallet_stats(&db, &wallet(1)).unwrap();
    assert_eq!(s.baseline_unspent_atomic, 6);
    assert_eq!(s.spent_count, 1);
}

#[test]
fn no_wallet_beats_the_named_ones() {
    let db = sample();
    let w = wallet_intelligence(&db).unwrap();
    for n in 1..6 {
        let s = wallet_stats(&db, &wallet(n)).unwrap();
        assert!(s.tx_count <= w.most_active_tx_count);
        assert!(s.unspent_count <= w.most_fragmented_unspent_count);
        assert!(s.delta_atomic <= w.fastest_growing_delta_atomic);
        assert!(s.largest_output_atomic <= w.largest_output_amount_atomic);
        assert!(s.avg_output_atomic <= s.largest_output_atomic);
        assert!(s.spend_rate.part <= s.spend_rate.whole);
        if s.spend_rate.whole >= 5 {
            assert!(s.spend_rate.part * w.highest_spend_rate_total
                <= w.highest_spend_rate_spent * s.spend_rate.whole);
        }
    }
}

#[test]
fn scans_agree_on_wallets_and_transactions() {
    let db = sample();
    let g = global_metrics(&db).unwrap();
    let w = wallet_intelligence(&db).unwrap();
    assert_eq!(g.wallets_with_unspent, w.total_wallets_scanned);
    assert_eq!(g.tx_entries_scanned, w.total_tx_scanned);
}

#[test]
fn undecodable_entries_shift_positions() {
    let db = store(vec![
        Entry { key: tx_name(1).into_bytes(), value: vec![] },
        Entry { key: b"not a txid".to_vec(), value: vec![] },
        tx(2, &[Some((1, 1))]),
    ]);
    let s = wallet_stats(&db, &wallet(1)).unwrap();
    assert_eq!(s.first_seen_index, 1);
    assert_eq!(s.last_seen_index, 1);
    assert_eq!(s.first_seen_txid, tx_name(2));
}

#[test]
fn transactions_are_collected() {
    let txs = collect_valid_tx_entries(&sample()).unwrap();
    let names: Vec<String> = txs.iter().map(|t| t.txid.clone()).collect();
    assert_eq!(names, vec![tx_name(1), tx_name(3), tx_name(4), tx_name(5)]);
    assert!(pays_address(&txs[1].outputs, &wallet(4)));
    assert!(!pays_address(&txs[2].outputs, &wallet(4)));
}

#[test]
fn utxos_are_decoded() {
    let value = stored_value(&[Some((100, 1)), None]);
    let shown = format!("+0{}", tx_name(1).to_uppercase());
    assert_eq!(utxo_key(&shown).unwrap(), tx_name(1));
    let d = decode_utxo_entry(&shown, &Lookup::Found(value)).unwrap();
    assert_eq!(d.txid, tx_name(1));
    assert_eq!(d.outputs.len(), 2);
    assert_eq!(d.outputs[0].index, 0);
    assert_eq!(d.outputs[0].state, "unspent");
    assert_eq!(d.outputs[0].amount, Some(100));
    assert_eq!(d.outputs[0].receiver, Some(name(1)));
    assert_eq!(d.outputs[1].index, 1);
    assert_eq!(d.outputs[1].state, "spent");
    assert_eq!(d.outputs[1].amount, None);
    assert_eq!(d.outputs[1].receiver, None);
}

#[test]
fn utxo_errors_are_told_apart() {
    let e = decode_utxo_entry("no id", &Lookup::Missing).unwrap_err();
    assert!(matches!(e, UtxoError::InvalidTxid));
    assert_eq!(e.message(), "invalid txid base36");
    assert_eq!(utxo_key("no id").unwrap_err().message(), "invalid txid base36");
    let e = decode_utxo_entry("1", &Lookup::Missing).unwrap_err();
    assert!(matches!(e, UtxoError::NotFound));
    assert_eq!(e.message(), "txid not found in db");
    let fault = ReadFault { text: "io error".to_string() };
    let e = decode_utxo_entry("1", &Lookup::Failed(fault)).unwrap_err();
    assert!(matches!(e, UtxoError::Read(_)));
    assert_eq!(e.message(), "io error");
    let e = decode_utxo_entry("1", &Lookup::Found(vec![1])).unwrap_err();
    assert!(matches!(e, UtxoError::Undecodable(DecodeFault::Malformed(_))));
    assert!(e.message().starts_with("bincode decode failed: UnexpectedEnd"));
    let e = decode_utxo_entry("1", &Lookup::Found(vec![253, 0, 0, 0, 0, 0, 0, 0, 8])).unwrap_err();
    assert!(matches!(e, UtxoError::Undecodable(DecodeFault::TooManyOutputs)));
    assert_eq!(
        e.message(),
        "bincode decode failed: more outputs are declared than there can be"
    );
}

#[test]
fn transactions_of_an_address_are_listed() {
    let db = sample();
    assert_eq!(utxos_for(&db, &wallet(1), None).unwrap(), vec![tx_name(1), tx_name(3)]);
    assert_eq!(utxos_for(&db, &wallet(1), Some(1)).unwrap(), vec![tx_name(1)]);
    assert_eq!(utxos_for(&db, &wallet(1), Some(0)).unwrap(), vec![tx_name(1)]);
    assert_eq!(utxos_for(&db, &wallet(3), None).unwrap(), Vec::<String>::new());
}

#[test]
fn the_list_is_as_long_as_the_count() {
    let db = sample();
    for n in 1..6 {
        let listed = utxos_for(&db, &wallet(n), None).unwrap().len() as u64;
        assert_eq!(listed, wallet_stats(&db, &wallet(n)).unwrap().tx_count);
    }
}

#[test]
fn a_full_list_does_not_meet_the_fault() {
    let db = broken(vec![tx(1, &[Some((1, 1))]), tx(2, &[Some((1, 1))])]);
    assert_eq!(utxos_for(&db, &wallet(1), Some(2)).unwrap().len(), 2);
    assert_eq!(utxos_for(&db, &wallet(1), Some(3)).unwrap_err().text, "io error");
    assert_eq!(utxos_for(&db, &wallet(2), Some(0)).unwrap_err().text, "io error");
    let list = list_txids(&db, &wallet(1), Some(3));
    assert_eq!(list.txids.len(), 2);
    assert_eq!(list.fault.unwrap().text, "io error");
}

#[test]
fn small_stores_are_countable() {
    assert!(sample().is_countable());
    assert_eq!(sample().read_first(3).unwrap(), 3);
    assert_eq!(sample().read_first(99).unwrap(), 7);
    assert!(broken(vec![]).read_first(0).is_ok());
    assert!(broken(vec![]).read_first(1).is_err());
}
