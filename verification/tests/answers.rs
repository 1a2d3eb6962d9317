use snapcoin_db_inspector::api::{
    api_balance, api_decode_txid, api_get_txid, api_globals, api_inspect_default,
    api_prefix_stats, api_preview_keys, api_top_receivers, api_utxos_for,
    api_wallet_intelligence, api_wallet_stats, ApiReply, InspectDefaultQ, PrefixStatsQ,
    PreviewKeysQ,
};
use snapcoin_db_inspector::buckets::{bucket_hex_prefix, bucket_key, is_cuttable};
use snapcoin_db_inspector::cli::{is_runnable, plan, run_cli, Cmd, CliError, Report};
use snapcoin_db_inspector::codec::HexFault;
use snapcoin_db_inspector::inspect::{
    default_prefix_stats, first_are_cuttable, inspect_default, inspect_default_tree, prefix_stats,
    preview_keys,
};
use snapcoin_db_inspector::keys::{Address, TxId};
use snapcoin_db_inspector::store::{DbRequest, Entry, Lookup, ReadFault, Snapshot};
use snapcoin_db_inspector::ws::{
    command_name, dispatch, err, not_a_command, ok, request, WsCmd, WsData, WsResp,
};

fn owner_key(n: u8) -> [u8; 32] {
    let mut key = [3u8; 32];
    key[31] = n;
    key
}

fn owner(n: u8) -> String {
    Address { key: owner_key(n) }.dump_base36()
}

fn outputs_value(outputs: &[Option<(u64, u8)>]) -> Vec<u8> {
    let outputs: Vec<Option<snap_coin::core::transaction::TransactionOutput>> = outputs
        .iter()
        .map(|o| {
            o.map(|(amount, n)| snap_coin::core::transaction::TransactionOutput {
                amount,
                receiver: snap_coin::crypto::keys::Public::new_from_buf(&owner_key(n)),
            })
        })
        .collect();
    bincode::encode_to_vec(&outputs, bincode::config::standard()).unwrap()
}

fn id(n: u8) -> String {
    let mut hash = [2u8; 32];
    hash[0] = n;
    TxId { hash }.dump_base36()
}

fn entry(key: &[u8], value: &[u8]) -> Entry {
    Entry { key: key.to_vec(), value: value.to_vec() }
}

fn holding(entries: Vec<Entry>) -> Snapshot {
    Snapshot { entries, len: 77, fault: None }
}

fn failing(entries: Vec<Entry>) -> Snapshot {
    Snapshot { entries, len: 77, fault: Some("io error".to_string()) }
}

fn unread() -> Lookup {
    Lookup::Failed(ReadFault { text: "io error".to_string() })
}

fn mixed_keys() -> Vec<Entry> {
    vec![
        entry(&[0xff, 0x01, 0x02], b"abc"),
        entry(b"meta:a", b"1"),
        entry(id(1).as_bytes(), &outputs_value(&[Some((10, 1)), None])),
        entry(b" meta :b", b""),
        entry(b"plain text", b"22"),
        entry(b":x", b""),
        entry(id(2).as_bytes(), &outputs_value(&[Some((5, 2)), Some((7, 1))])),
    ]
}

// ---------------------------------------------------------------------------
// Buckets and histograms
// ---------------------------------------------------------------------------

#[test]
fn keys_are_sorted_into_buckets() {
    let txid = bucket_key(id(1).as_bytes());
    assert_eq!(txid.bucket, "txid");
    assert_eq!(txid.text, Some(id(1)));
    assert!(txid.looks_like_txid);
    assert!(!txid.non_utf8);
    let meta = bucket_key(b" meta :b:c");
    assert_eq!(meta.bucket, "pfx:meta");
    assert_eq!(meta.text, Some(" meta :b:c".to_string()));
    assert!(!meta.looks_like_txid);
    assert_eq!(bucket_key(b":x").bucket, "pfx:utf8:<empty_prefix>");
    assert_eq!(bucket_key(b" \xc2\xa0:x").bucket, "pfx:utf8:<empty_prefix>");
    assert_eq!(bucket_key(b"plain text").bucket, "utf8");
    let raw = bucket_key(&[0xff, 0x01, 0x02]);
    assert_eq!(raw.bucket, "hex:ff 01");
    assert_eq!(raw.text, None);
    assert!(raw.non_utf8);
    assert_eq!(bucket_key(b"tab\there").bucket, "hex:74 61");
    assert!(bucket_key(b"tab\there").non_utf8);
    assert!(bucket_key(b"").text.is_some());
    assert_eq!(bucket_key(b"").bucket, "utf8");
}

#[test]
fn raw_keys_go_by_their_first_bytes() {
    assert_eq!(bucket_hex_prefix(&[]), "hex:<empty>");
    assert_eq!(bucket_hex_prefix(&[0x0a]), "hex:0a");
    assert_eq!(bucket_hex_prefix(&[0x0a, 0xf0]), "hex:0a f0");
    assert_eq!(bucket_hex_prefix(&[0x0a, 0xf0, 1]), "hex:0a f0");
}

#[test]
fn long_prefixes_are_cut() {
    let long = format!("{}:x", "a".repeat(60));
    assert!(is_cuttable(long.as_bytes()));
    assert_eq!(bucket_key(long.as_bytes()).bucket, format!("pfx:{}", "a".repeat(48)));
    let exact = format!("{}:x", "a".repeat(48));
    assert_eq!(bucket_key(exact.as_bytes()).bucket, format!("pfx:{}", "a".repeat(48)));
    let even = format!("{}:x", "\u{e9}".repeat(30));
    assert!(is_cuttable(even.as_bytes()));
    assert_eq!(bucket_key(even.as_bytes()).bucket, format!("pfx:{}", "\u{e9}".repeat(24)));
    let odd = format!("a{}:x", "\u{e9}".repeat(30));
    assert!(!is_cuttable(odd.as_bytes()));
    assert!(is_cuttable(format!("a{}", "\u{e9}".repeat(30)).as_bytes()));
}

#[test]
fn uncuttable_keys_are_found() {
    let odd = format!("a{}:x", "\u{e9}".repeat(30));
    let db = holding(vec![entry(b"a", b""), entry(odd.as_bytes(), b"")]);
    assert!(first_are_cuttable(&db, 1));
    assert!(!first_are_cuttable(&db, 2));
    assert!(is_runnable(&Cmd::PreviewKeys { limit: 1 }, &db));
    assert!(!is_runnable(&Cmd::PreviewKeys { limit: 2 }, &db));
    assert!(!is_runnable(&Cmd::PrefixStats { sample: 2, top: 1 }, &db));
    assert!(!is_runnable(&Cmd::InspectDefault { sample: 1, top: 1, examples: 2 }, &db));
    assert!(is_runnable(&Cmd::Globals, &db));
}

#[test]
fn histograms_count_buckets() {
    let db = holding(mixed_keys());
    let (sampled, rows, txids, others) = default_prefix_stats(&db, 100, 10).unwrap();
    assert_eq!(sampled, 7);
    assert_eq!(txids, 2);
    assert_eq!(others, 1);
    let got: Vec<(&str, u64)> = rows.iter().map(|r| (r.bucket.as_str(), r.count)).collect();
    assert_eq!(
        got,
        vec![
            ("pfx:meta", 2),
            ("txid", 2),
            ("hex:ff 01", 1),
            ("utf8", 1),
            ("pfx:utf8:<empty_prefix>", 1),
        ]
    );
    assert_eq!(rows.iter().map(|r| r.count).sum::<u64>(), 7);
    let (sampled, rows, txids, _) = default_prefix_stats(&db, 2, 1).unwrap();
    assert_eq!(sampled, 2);
    assert_eq!(rows.len(), 1);
    assert_eq!(rows[0].bucket, "hex:ff 01");
    assert_eq!(txids, 0);
    assert_eq!(default_prefix_stats(&db, 0, 5).unwrap().0, 0);
}

#[test]
fn the_default_tree_is_inspected() {
    let db = holding(mixed_keys());
    let out = inspect_default_tree(&db, 3, 2, 2).unwrap();
    assert_eq!(out.tree, "__sled__default");
    assert_eq!(out.len, 77);
    assert_eq!(out.sample, 3);
    assert_eq!(out.sampled, 3);
    assert_eq!(out.looks_like_txid_keys, 1);
    assert_eq!(out.non_utf8_keys, 1);
    assert_eq!(out.top_prefixes.len(), 2);
    assert_eq!(out.examples.len(), 2);
    assert_eq!(out.examples[0].key_utf8, None);
    assert_eq!(out.examples[0].key_hex, "ff0102");
    assert_eq!(out.examples[0].value_len, 3);
    assert_eq!(out.examples[1].key_utf8, Some("meta:a".to_string()));
    assert_eq!(out.examples[1].bucket, "pfx:meta");
    assert!(!out.examples[1].looks_like_txid);
    assert_eq!(inspect_default(&db, 3, 2, 2).unwrap().sampled, 3);
    let stats = prefix_stats(&db, 3, 2).unwrap();
    assert_eq!(stats.tree, "__sled__default");
    assert_eq!((stats.len, stats.sample, stats.sampled), (77, 3, 3));
    let keys = preview_keys(&db, 3).unwrap();
    assert_eq!((keys.len, keys.limit, keys.keys.len()), (77, 3, 3));
    assert_eq!(keys.keys[2].key_utf8, Some(id(1)));
    assert!(keys.keys[2].looks_like_txid);
}

#[test]
fn samples_fail_only_where_they_meet_the_fault() {
    let db = failing(mixed_keys());
    assert!(default_prefix_stats(&db, 7, 3).is_ok());
    assert_eq!(default_prefix_stats(&db, 8, 3).unwrap_err().text, "io error");
    assert!(inspect_default_tree(&db, 7, 3, 7).is_ok());
    assert!(inspect_default_tree(&db, 7, 3, 8).is_err());
    assert!(prefix_stats(&db, 8, 3).is_err());
    assert!(preview_keys(&db, 7).is_ok());
    assert!(preview_keys(&db, 8).is_err());
}

// ---------------------------------------------------------------------------
// Commands
// ---------------------------------------------------------------------------

#[test]
fn scans_print_entries() {
    let db = holding(vec![entry(b"ab", &[1, 2]), entry(&[0xff], b"")]);
    let cmd = Cmd::Scan { tree: "t".to_string(), limit: 50, prefix: None, show_values: true };
    let run = run_cli(&cmd, &db, &Lookup::Missing);
    assert_eq!(
        run.lines,
        vec![
            "key=utf8:ab  key_hex:6162  value_len=2",
            "  value_hex:0102",
            "key_hex:ff  value_len=0",
            "  value_hex:",
            "printed 2 entries",
        ]
    );
    assert!(run.failure.is_none());
    assert!(run.report.is_none());
}

#[test]
fn scans_stop_at_their_limit() {
    for limit in [0usize, 1] {
        let db = failing(vec![entry(b"a", b""), entry(b"b", b"")]);
        let cmd = Cmd::Scan { tree: "t".to_string(), limit, prefix: None, show_values: false };
        let run = run_cli(&cmd, &db, &Lookup::Missing);
        assert_eq!(run.lines, vec!["key=utf8:a  key_hex:61  value_len=0", "printed 1 entries"]);
        assert!(run.failure.is_none());
    }
    let cmd = Cmd::Scan { tree: "t".to_string(), limit: 3, prefix: None, show_values: false };
    let run = run_cli(&cmd, &failing(vec![entry(b"a", b"")]), &Lookup::Missing);
    assert_eq!(run.lines, vec!["key=utf8:a  key_hex:61  value_len=0"]);
    assert_eq!(run.failure.unwrap().message(), "io error");
    let run = run_cli(&cmd, &holding(vec![]), &Lookup::Missing);
    assert_eq!(run.lines, vec!["printed 0 entries"]);
}

#[test]
fn commands_say_what_they_read() {
    let scan = |limit, prefix: Option<&str>| Cmd::Scan {
        tree: "t".to_string(),
        limit,
        prefix: prefix.map(|p| p.to_string()),
        show_values: false,
    };
    match plan(&scan(0, Some("hex:ff"))).unwrap() {
        DbRequest::Entries { tree, prefix, at_most } => {
            assert_eq!((tree.as_str(), prefix, at_most), ("t", vec![0xff], Some(1)));
        }
        _ => panic!(),
    }
    match plan(&scan(9, None)).unwrap() {
        DbRequest::Entries { prefix, at_most, .. } => assert_eq!((prefix, at_most), (vec![], Some(9))),
        _ => panic!(),
    }
    let get = Cmd::Get { tree: "t".to_string(), key: "utf8:k".to_string(), show_value: true };
    match plan(&get).unwrap() {
        DbRequest::Value { tree, key } => assert_eq!((tree.as_str(), key), ("t", b"k".to_vec())),
        _ => panic!(),
    }
    match plan(&Cmd::DecodeUtxos { txid: "0Z".to_string() }).unwrap() {
        DbRequest::Value { tree, key } => {
            assert_eq!((tree.as_str(), key), ("__sled__default", b"z".to_vec()));
        }
        _ => panic!(),
    }
    let wanted = |cmd: Cmd| match plan(&cmd).unwrap() {
        DbRequest::Entries { tree, at_most, .. } => {
            assert_eq!(tree, "__sled__default");
            at_most
        }
        _ => panic!(),
    };
    assert_eq!(wanted(Cmd::InspectDefault { sample: 3, top: 9, examples: 5 }), Some(5));
    assert_eq!(wanted(Cmd::PrefixStats { sample: 3, top: 9 }), Some(3));
    assert_eq!(wanted(Cmd::PreviewKeys { limit: 4 }), Some(4));
    assert_eq!(wanted(Cmd::Globals), None);
    assert_eq!(wanted(Cmd::WalletIntelligence), None);
    assert_eq!(wanted(Cmd::TopReceivers { limit: 1 }), None);
    assert_eq!(wanted(Cmd::Balance { address: owner(1) }), None);
}

#[test]
fn commands_fail_before_they_read() {
    let bad = Cmd::Scan {
        tree: "t".to_string(),
        limit: 1,
        prefix: Some("hex:0".to_string()),
        show_values: false,
    };
    let e = plan(&bad).unwrap_err();
    assert_eq!(e.message(), "invalid hex key spec: hex:0");
    assert!(matches!(&e, CliError::KeySpec(k) if k.cause == HexFault::OddLength));
    let run = run_cli(&bad, &holding(vec![]), &Lookup::Missing);
    assert!(run.lines.is_empty());
    assert_eq!(run.failure.unwrap().message(), "invalid hex key spec: hex:0");
    let no = "no address".to_string();
    for cmd in [
        Cmd::Balance { address: no.clone() },
        Cmd::WalletStats { address: no.clone() },
        Cmd::UtxosForAddress { address: no.clone(), limit: 1 },
    ] {
        assert!(matches!(plan(&cmd), Err(CliError::InvalidAddress)));
        let run = run_cli(&cmd, &failing(vec![]), &Lookup::Missing);
        assert_eq!(run.failure.unwrap().message(), "invalid address base36");
    }
    let e = plan(&Cmd::DecodeUtxos { txid: no }).unwrap_err();
    assert_eq!(e.message(), "invalid txid base36");
}

#[test]
fn values_are_printed() {
    let cmd = |show_value| Cmd::Get {
        tree: "t".to_string(),
        key: "hex:0aff".to_string(),
        show_value,
    };
    let db = holding(vec![]);
    let run = run_cli(&cmd(true), &db, &Lookup::Found(vec![1, 2, 3]));
    assert_eq!(run.lines, vec!["key_len=2 value_len=3", "key_hex=0aff", "value_hex=010203"]);
    let run = run_cli(&cmd(false), &db, &Lookup::Found(vec![]));
    assert_eq!(run.lines, vec!["key_len=2 value_len=0", "key_hex=0aff"]);
    let run = run_cli(&cmd(true), &db, &Lookup::Missing);
    assert!(matches!(run.failure, Some(CliError::KeyNotFound)));
    let run = run_cli(&cmd(true), &db, &unread());
    assert_eq!(run.failure.unwrap().message(), "io error");
}

#[test]
fn decoded_outputs_are_printed() {
    let cmd = Cmd::DecodeUtxos { txid: id(1) };
    let db = holding(vec![]);
    let run = run_cli(&cmd, &db, &Lookup::Found(outputs_value(&[Some((10, 1)), None])));
    assert_eq!(
        run.lines,
        vec![
            format!("txid={}", id(1)),
            "outputs=2".to_string(),
            format!("#0: amount=10 receiver={}", owner(1)),
            "#1: spent".to_string(),
        ]
    );
    let run = run_cli(&cmd, &db, &Lookup::Missing);
    assert_eq!(run.failure.unwrap().message(), "txid not found in db");
    let run = run_cli(&cmd, &db, &Lookup::Found(vec![]));
    assert!(run.failure.unwrap().message().starts_with("bincode decode failed: "));
    let run = run_cli(&cmd, &db, &unread());
    assert_eq!(run.failure.unwrap().message(), "io error");
}

#[test]
fn transactions_of_an_address_are_printed_in_canonical_form() {
    let upper = format!("0{}", id(1).to_uppercase());
    let entries = || {
        vec![
            entry(upper.as_bytes(), &outputs_value(&[Some((1, 1))])),
            entry(id(2).as_bytes(), &outputs_value(&[Some((1, 1))])),
        ]
    };
    let cmd = |limit| Cmd::UtxosForAddress { address: owner(1), limit };
    let run = run_cli(&cmd(100), &holding(entries()), &Lookup::Missing);
    assert_eq!(run.lines, vec![id(1), id(2), "printed 2 txids".to_string()]);
    let run = run_cli(&cmd(0), &failing(entries()), &Lookup::Missing);
    assert_eq!(run.lines, vec![id(1), "printed 1 txids".to_string()]);
    let run = run_cli(&cmd(3), &failing(entries()), &Lookup::Missing);
    assert_eq!(run.lines, vec![id(1), id(2)]);
    assert_eq!(run.failure.unwrap().message(), "io error");
}

#[test]
fn balances_and_receivers_are_printed() {
    let run = run_cli(&Cmd::Balance { address: owner(1) }, &holding(mixed_keys()), &Lookup::Missing);
    assert_eq!(
        run.lines,
        vec![format!("address={}", owner(1)), "confirmed_balance=17".to_string()]
    );
    let run = run_cli(&Cmd::TopReceivers { limit: 5 }, &holding(mixed_keys()), &Lookup::Missing);
    assert_eq!(
        run.lines,
        vec![
            format!("#01 receiver={} total_unspent=17", owner(1)),
            format!("#02 receiver={} total_unspent=5", owner(2)),
        ]
    );
    let many: Vec<Option<(u64, u8)>> = (1..=11u8).map(|n| Some((100 - n as u64, n))).collect();
    let db = holding(vec![entry(id(1).as_bytes(), &outputs_value(&many))]);
    let run = run_cli(&Cmd::TopReceivers { limit: 25 }, &db, &Lookup::Missing);
    assert!(run.lines[8].starts_with("#09 receiver="));
    assert!(run.lines[9].starts_with("#10 receiver="));
    for cmd in [Cmd::Balance { address: owner(1) }, Cmd::TopReceivers { limit: 5 }] {
        let run = run_cli(&cmd, &failing(mixed_keys()), &Lookup::Missing);
        assert!(run.lines.is_empty());
        assert_eq!(run.failure.unwrap().message(), "io error");
    }
}

#[test]
fn reports_are_handed_out() {
    let db = holding(mixed_keys());
    let report = |cmd: Cmd| run_cli(&cmd, &db, &Lookup::Missing).report.unwrap();
    match report(Cmd::Globals) {
        Report::Globals(g) => assert_eq!(g.outputs_total, 4),
        _ => panic!(),
    }
    match report(Cmd::WalletIntelligence) {
        Report::Intelligence(w) => assert_eq!(w.most_active_address, owner(1)),
        _ => panic!(),
    }
    match report(Cmd::WalletStats { address: owner(2) }) {
        Report::Stats(w) => assert_eq!(w.total_unspent_atomic, 5),
        _ => panic!(),
    }
    match report(Cmd::InspectDefault { sample: 2, top: 1, examples: 4 }) {
        Report::Inspection(out) => assert_eq!((out.sampled, out.examples.len()), (2, 4)),
        _ => panic!(),
    }
    match report(Cmd::PrefixStats { sample: 5, top: 1 }) {
        Report::Histogram(out) => assert_eq!((out.sampled, out.top_prefixes.len()), (5, 1)),
        _ => panic!(),
    }
    let bad = failing(mixed_keys());
    for cmd in [
        Cmd::Globals,
        Cmd::WalletIntelligence,
        Cmd::WalletStats { address: owner(2) },
        Cmd::InspectDefault { sample: 2, top: 1, examples: 8 },
        Cmd::PrefixStats { sample: 8, top: 1 },
    ] {
        let run = run_cli(&cmd, &bad, &Lookup::Missing);
        assert!(run.report.is_none());
        assert_eq!(run.failure.unwrap().message(), "io error");
    }
}

#[test]
fn previews_are_printed() {
    let run = run_cli(&Cmd::PreviewKeys { limit: 2 }, &failing(mixed_keys()), &Lookup::Missing);
    assert_eq!(
        run.lines,
        vec![
            "key_hex:ff0102  value_len=3  bucket=hex:ff 01  txid=false",
            "key=utf8:meta:a  key_hex:6d6574613a61  value_len=1  bucket=pfx:meta  txid=false",
            "printed 2 keys",
        ]
    );
    assert!(run.failure.is_none());
    let run = run_cli(&Cmd::PreviewKeys { limit: 50 }, &failing(mixed_keys()), &Lookup::Missing);
    assert_eq!(run.lines.len(), 7);
    assert!(run.lines[2].ends_with("  bucket=txid  txid=true"));
    assert_eq!(run.failure.unwrap().message(), "io error");
}

// ---------------------------------------------------------------------------
// HTTP
// ---------------------------------------------------------------------------

fn value_in<T>(reply: ApiReply<T>) -> T {
    match reply {
        ApiReply::Json(value) => value,
        ApiReply::Failure { status, text } => panic!("{status} {text}"),
    }
}

fn failure_in<T>(reply: ApiReply<T>) -> (u16, String) {
    match reply {
        ApiReply::Json(_) => panic!(),
        ApiReply::Failure { status, text } => (status, text),
    }
}

fn refused(text: &str) -> (u16, String) {
    (400, text.to_string())
}

#[test]
fn http_answers_scans() {
    let db = holding(mixed_keys());
    assert_eq!(value_in(api_globals(&db)).tx_entries_scanned, 2);
    assert_eq!(value_in(api_utxos_for(&owner(1), &db)), vec![id(1), id(2)]);
    let balance = value_in(api_balance(format!("0{}", owner(1)), &db));
    assert_eq!(balance.address, format!("0{}", owner(1)));
    assert_eq!(balance.confirmed_balance, 17);
    assert_eq!(value_in(api_top_receivers(&db)).len(), 2);
    assert_eq!(value_in(api_wallet_intelligence(&db)).total_tx_scanned, 2);
    assert_eq!(value_in(api_wallet_stats(&owner(1), &db)).tx_count, 2);
}

#[test]
fn http_refuses_what_it_cannot_serve() {
    let db = failing(mixed_keys());
    assert_eq!(failure_in(api_globals(&db)), refused("io error"));
    assert_eq!(failure_in(api_utxos_for(&owner(1), &db)), refused("io error"));
    assert_eq!(failure_in(api_balance(owner(1), &db)), refused("io error"));
    assert_eq!(failure_in(api_top_receivers(&db)), refused("io error"));
    assert_eq!(failure_in(api_wallet_intelligence(&db)), refused("io error"));
    assert_eq!(failure_in(api_wallet_stats(&owner(1), &db)), refused("io error"));
    let bad = refused("invalid address base36");
    assert_eq!(failure_in(api_utxos_for("-", &db)), bad);
    assert_eq!(failure_in(api_balance("-".to_string(), &db)), bad);
    assert_eq!(failure_in(api_wallet_stats("-", &db)), bad);
}

#[test]
fn http_answers_lookups() {
    let shown = format!("0{}", id(1));
    let get = value_in(api_get_txid(shown.clone(), &Lookup::Found(vec![0xab])));
    assert_eq!((get.txid, get.value_hex), (shown.clone(), "ab".to_string()));
    assert_eq!(
        failure_in(api_get_txid(shown.clone(), &Lookup::Missing)),
        (404, "not found".to_string())
    );
    assert_eq!(failure_in(api_get_txid(shown.clone(), &unread())), refused("io error"));
    assert_eq!(
        failure_in(api_get_txid("-".to_string(), &Lookup::Missing)),
        refused("invalid txid base36")
    );
    let decoded = value_in(api_decode_txid(&shown, &Lookup::Found(outputs_value(&[None]))));
    assert_eq!(decoded.txid, id(1));
    assert_eq!(decoded.outputs[0].state, "spent");
    assert_eq!(
        failure_in(api_decode_txid(&shown, &Lookup::Missing)),
        refused("txid not found in db")
    );
    let (status, text) = failure_in(api_decode_txid(&shown, &Lookup::Found(vec![])));
    assert_eq!(status, 400);
    assert!(text.starts_with("bincode decode failed: "));
    assert_eq!(failure_in(api_decode_txid("-", &unread())), refused("invalid txid base36"));
}

#[test]
fn http_queries_have_usual_sizes() {
    let none = InspectDefaultQ { sample: None, top: None, examples: None };
    assert_eq!((none.sample(), none.top(), none.examples()), (10_000, 30, 30));
    let some = InspectDefaultQ { sample: Some(1), top: Some(2), examples: Some(3) };
    assert_eq!((some.sample(), some.top(), some.examples()), (1, 2, 3));
    let stats = PrefixStatsQ { sample: None, top: None };
    assert_eq!((stats.sample(), stats.top()), (20_000, 40));
    assert_eq!(PreviewKeysQ { limit: None }.limit(), 100);
    let db = holding(mixed_keys());
    assert_eq!(value_in(api_inspect_default(&none, &db)).sample, 10_000);
    assert_eq!(value_in(api_inspect_default(&some, &db)).examples.len(), 3);
    assert_eq!(value_in(api_prefix_stats(&stats, &db)).sample, 20_000);
    assert_eq!(value_in(api_preview_keys(&PreviewKeysQ { limit: Some(2) }, &db)).keys.len(), 2);
    let bad = failing(mixed_keys());
    assert_eq!(failure_in(api_inspect_default(&none, &bad)), refused("io error"));
    assert_eq!(failure_in(api_prefix_stats(&stats, &bad)), refused("io error"));
    assert_eq!(
        failure_in(api_preview_keys(&PreviewKeysQ { limit: None }, &bad)),
        refused("io error")
    );
}

// ---------------------------------------------------------------------------
// WebSocket
// ---------------------------------------------------------------------------

fn data_in(resp: WsResp<WsData>, cmd: &str) -> WsData {
    assert!(resp.ok);
    assert_eq!(resp.cmd, cmd);
    assert!(resp.error.is_none());
    resp.data.unwrap()
}

fn error_in(resp: WsResp<WsData>, cmd: &str) -> String {
    assert!(!resp.ok);
    assert_eq!(resp.cmd, cmd);
    assert!(resp.data.is_none());
    resp.error.unwrap()
}

#[test]
fn websocket_commands_are_answered() {
    let db = holding(mixed_keys());
    let no = Lookup::Missing;
    match data_in(dispatch(WsCmd::Globals, &db, &no), "globals") {
        WsData::Globals(g) => assert_eq!(g.outputs_spent, 1),
        _ => panic!(),
    }
    let found = Lookup::Found(outputs_value(&[Some((3, 1))]));
    match data_in(dispatch(WsCmd::Decode { txid: id(1) }, &db, &found), "decode") {
        WsData::Decoded(d) => assert_eq!(d.outputs[0].amount, Some(3)),
        _ => panic!(),
    }
    match data_in(dispatch(WsCmd::Balance { address: owner(1) }, &db, &no), "balance") {
        WsData::Balance(b) => assert_eq!((b.address, b.confirmed_balance), (owner(1), 17)),
        _ => panic!(),
    }
    let list = |limit| WsCmd::UtxosFor { address: owner(1), limit };
    match data_in(dispatch(list(None), &db, &no), "utxos_for") {
        WsData::Txids(txids) => assert_eq!(txids, vec![id(1), id(2)]),
        _ => panic!(),
    }
    match data_in(dispatch(list(Some(0)), &failing(mixed_keys()), &no), "utxos_for") {
        WsData::Txids(txids) => assert_eq!(txids, vec![id(1)]),
        _ => panic!(),
    }
    match data_in(dispatch(WsCmd::TopReceivers { limit: Some(1) }, &db, &no), "top_receivers") {
        WsData::Receivers(rows) => assert_eq!(rows.len(), 1),
        _ => panic!(),
    }
}

#[test]
fn websocket_lists_are_limited() {
    let entries: Vec<Entry> = (0..205u16)
        .map(|n| {
            let mut hash = [9u8; 32];
            hash[0] = (n / 256) as u8;
            hash[1] = (n % 256) as u8;
            let value = outputs_value(&[Some((1, 1))]);
            entry(TxId { hash }.dump_base36().as_bytes(), &value)
        })
        .collect();
    let cmd = WsCmd::UtxosFor { address: owner(1), limit: None };
    match data_in(dispatch(cmd, &holding(entries), &Lookup::Missing), "utxos_for") {
        WsData::Txids(txids) => assert_eq!(txids.len(), 200),
        _ => panic!(),
    }
}

#[test]
fn websocket_failures_are_reported() {
    let db = failing(mixed_keys());
    let no = Lookup::Missing;
    assert_eq!(error_in(dispatch(WsCmd::Globals, &db, &no), "globals"), "io error");
    let top = WsCmd::TopReceivers { limit: None };
    assert_eq!(error_in(dispatch(top, &db, &no), "top_receivers"), "io error");
    let balance = WsCmd::Balance { address: owner(1) };
    assert_eq!(error_in(dispatch(balance, &db, &no), "balance"), "io error");
    let list = WsCmd::UtxosFor { address: owner(1), limit: None };
    assert_eq!(error_in(dispatch(list, &db, &no), "utxos_for"), "io error");
    let bad = WsCmd::Balance { address: "-".to_string() };
    assert_eq!(error_in(dispatch(bad, &db, &no), "balance"), "invalid address base36");
    let bad = WsCmd::UtxosFor { address: "-".to_string(), limit: None };
    assert_eq!(error_in(dispatch(bad, &db, &no), "utxos_for"), "invalid address base36");
    let decode = |txid: &str| WsCmd::Decode { txid: txid.to_string() };
    assert_eq!(error_in(dispatch(decode("-"), &db, &no), "decode"), "invalid txid base36");
    assert_eq!(error_in(dispatch(decode("1"), &db, &no), "decode"), "txid not found in db");
    assert_eq!(error_in(dispatch(decode("1"), &db, &unread()), "decode"), "io error");
    let garbage = Lookup::Found(vec![]);
    assert!(error_in(dispatch(decode("1"), &db, &garbage), "decode")
        .starts_with("bincode decode failed: "));
    let resp: WsResp<u8> = not_a_command("what?".to_string());
    assert_eq!((resp.ok, resp.cmd.as_str(), resp.data), (false, "error", None));
    assert_eq!(resp.error, Some("what?".to_string()));
    let resp: WsResp<u8> = err("x", "y".to_string());
    assert_eq!(resp.error, Some("y".to_string()));
    let resp = ok("x", 5u8);
    assert_eq!((resp.ok, resp.data, resp.error), (true, Some(5), None));
}

#[test]
fn websocket_commands_say_what_they_read() {
    assert!(request(&WsCmd::Decode { txid: "-".to_string() }).is_none());
    assert!(request(&WsCmd::Balance { address: "-".to_string() }).is_none());
    assert!(request(&WsCmd::UtxosFor { address: "-".to_string(), limit: None }).is_none());
    match request(&WsCmd::Decode { txid: "0Z".to_string() }).unwrap() {
        DbRequest::Value { key, .. } => assert_eq!(key, b"z".to_vec()),
        _ => panic!(),
    }
    for cmd in [WsCmd::Globals, WsCmd::TopReceivers { limit: None }, WsCmd::Balance { address: owner(1) }] {
        match request(&cmd).unwrap() {
            DbRequest::Entries { tree, prefix, at_most } => {
                assert_eq!((tree.as_str(), prefix, at_most), ("__sled__default", vec![], None));
            }
            _ => panic!(),
        }
    }
    assert_eq!(command_name(&WsCmd::Globals), "globals");
}
