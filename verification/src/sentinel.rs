//! Running scans: what is printed, and which alerts are emitted.

use vstd::prelude::*;
use vstd::string::*;

use crate::events::{event_views, SentinelEvent};
use crate::index::texts;
use crate::lines::add_line;
use crate::model::{valid_txs, Tx};
use crate::rules::{usual_thresholds, TxRuleThresholds};
use crate::scanner::{
    are_events_of, reached_range, scan_all_txs, scan_block, scan_range, ScanConfig,
};
use crate::store::{ReadFault, Snapshot};
use crate::text::{decimal, decimal_text};

verus! {

// ---------------------------------------------------------------------------
// Configuration
// ---------------------------------------------------------------------------

/// How to watch the store.
#[derive(Debug, Clone)]
pub struct SentinelConfig {
    pub chain: String,
    pub network_type: String,
    pub node_id: String,
    pub poll_seconds: u64,
}

impl Default for SentinelConfig {
    fn default() -> (r: Self)
        ensures
            r.chain@ == "snapcoin"@,
            r.network_type@ == "mainnet"@,
            r.node_id@ == "snap-sentinel-01"@,
            r.poll_seconds == 5,
    {
        SentinelConfig {
            chain: "snapcoin".to_string(),
            network_type: "mainnet".to_string(),
            node_id: "snap-sentinel-01".to_string(),
            poll_seconds: 5,
        }
    }
}

/// The scan configuration behind a configuration: the same names and the usual thresholds.
pub open spec fn scan_config(cfg: SentinelConfig) -> ScanConfig {
    ScanConfig {
        chain: cfg.chain,
        network_type: cfg.network_type,
        node_id: cfg.node_id,
        thresholds: usual_thresholds(),
    }
}

impl SentinelConfig {
    /// The scan configuration with the same names and the usual thresholds.
    pub fn to_scan_config(&self) -> (r: ScanConfig)
        ensures
            r == scan_config(*self),
            r.chain@ == self.chain@,
            r.network_type@ == self.network_type@,
            r.node_id@ == self.node_id@,
            r.thresholds == usual_thresholds(),
    {
        ScanConfig {
            chain: self.chain.clone(),
            network_type: self.network_type.clone(),
            node_id: self.node_id.clone(),
            thresholds: TxRuleThresholds::default(),
        }
    }
}

// ---------------------------------------------------------------------------
// Lines
// ---------------------------------------------------------------------------

fn one_line(line: String) -> (r: Vec<String>)
    ensures
        texts(r@) == seq![line@],
{
    let mut r: Vec<String> = Vec::new();
    let ghost text = line@;
    r.push(line);
    assert(texts(r@) =~= seq![text]);
    r
}

/// The lines of the banner.
pub open spec fn banner() -> Seq<Seq<char>> {
    seq![
        "---------------------------------------------"@,
        " Snap Sentinel"@,
        " Tx / UTXO Anomaly Monitor"@,
        "---------------------------------------------"@,
    ]
}

/// The lines of the banner.
pub fn banner_lines() -> (r: Vec<String>)
    ensures
        texts(r@) == banner(),
{
    let mut lines = one_line("---------------------------------------------".to_string());
    add_line(&mut lines, " Snap Sentinel".to_string());
    add_line(&mut lines, " Tx / UTXO Anomaly Monitor".to_string());
    add_line(&mut lines, "---------------------------------------------".to_string());
    assert(texts(lines@) =~= banner());
    lines
}

/// The lines of an alert, once its event was rendered or could not be.
pub open spec fn alert(rendered: Result<String, String>) -> Seq<Seq<char>> {
    match rendered {
        Ok(json) => seq!["=== SENTINEL ALERT ==="@, json@],
        Err(e) => seq!["sentinel: failed to serialize event: "@ + e@],
    }
}

/// The lines of an alert, once its event was rendered or could not be.
pub fn alert_lines(rendered: Result<String, String>) -> (r: Vec<String>)
    ensures
        texts(r@) == alert(rendered),
{
    match rendered {
        Ok(json) => {
            let mut lines = one_line("=== SENTINEL ALERT ===".to_string());
            let ghost text = json@;
            add_line(&mut lines, json);
            assert(texts(lines@) =~= seq!["=== SENTINEL ALERT ==="@, text]);
            lines
        },
        Err(e) => {
            let mut line = "sentinel: failed to serialize event: ".to_string();
            line.append(e.as_str());
            one_line(line)
        },
    }
}

/// The report on the transaction at a position.
pub open spec fn index_line(index: u64, events: nat) -> Seq<char> {
    if events == 0 {
        "sentinel: indexed entry "@ + decimal(index as nat) + " clean"@
    } else {
        "sentinel: indexed entry "@ + decimal(index as nat) + " produced "@ + decimal(events)
            + " alert(s)"@
    }
}

/// The announcement of a scan of a range.
pub open spec fn range_line(start: u64, end: u64) -> Seq<char> {
    let span = if end < start {
        1
    } else {
        (end - start + 1) as nat
    };
    "sentinel: scanning indexed entries "@ + decimal(start as nat) + ".."@ + decimal(end as nat)
        + " ("@ + decimal(span) + ")"@
}

/// How many transactions a scan of a range looked at.
pub open spec fn scanned_line(scanned: nat) -> Seq<char> {
    "sentinel: scanned "@ + decimal(scanned) + " indexed entries"@
}

/// How many events a scan found, with what to say where it found none.
pub open spec fn found_line(none: Seq<char>, before: Seq<char>, events: nat) -> Seq<char> {
    if events == 0 {
        none
    } else {
        before + decimal(events) + " anomaly event(s) detected"@
    }
}

fn found_text(none: &str, before: &str, events: usize) -> (r: String)
    ensures
        r@ == found_line(none@, before@, events as nat),
{
    if events == 0 {
        none.to_string()
    } else {
        let mut s = before.to_string();
        s.append(decimal_text(events as u64).as_str());
        s.append(" anomaly event(s) detected");
        s
    }
}

/// The announcement of the watch mode.
pub open spec fn watch_line(poll_seconds: u64) -> Seq<char> {
    "sentinel: watch mode starting (poll="@ + decimal(poll_seconds as nat) + "s)"@
}

/// The announcement of the watch mode.
pub fn watch_opening(cfg: &SentinelConfig) -> (r: String)
    ensures
        r@ == watch_line(cfg.poll_seconds),
{
    let mut s = "sentinel: watch mode starting (poll=".to_string();
    s.append(decimal_text(cfg.poll_seconds).as_str());
    s.append("s)");
    s
}

// ---------------------------------------------------------------------------
// Runs
// ---------------------------------------------------------------------------

/// What a run prints: its lines, then an alert for each event; and the fault that ended it, if one
/// did.
#[derive(Debug)]
pub struct SentinelRun {
    pub lines: Vec<String>,
    pub events: Vec<SentinelEvent>,
    pub fault: Option<ReadFault>,
}

/// Whether a run ended on the fault of the store, without events and with these lines.
pub open spec fn ended_by_fault(db: Snapshot, lines: Seq<Seq<char>>, run: SentinelRun) -> bool {
    &&& run.fault matches Some(e) && db@.fault == Some(e.text@)
    &&& run.events@.len() == 0
    &&& texts(run.lines@) == lines
}

/// Whether the events of a run are those of the transactions.
pub open spec fn found_events(
    db: Snapshot,
    cfg: SentinelConfig,
    txs: Seq<Tx>,
    run: SentinelRun,
) -> bool {
    run.fault is None && are_events_of(scan_config(cfg), db@.len, txs, event_views(run.events@))
}

/// Whether a run is a scan of the transaction at a position.
pub open spec fn is_index_run(db: Snapshot, cfg: SentinelConfig, index: u64, run: SentinelRun) -> bool {
    match db@.fault {
        Some(_) => ended_by_fault(db, seq![], run),
        None => {
            let txs = valid_txs(db@.entries);
            let at = index as usize;
            &&& found_events(
                db,
                cfg,
                if at < txs.len() {
                    txs.subrange(at as int, at + 1)
                } else {
                    seq![]
                },
                run,
            )
            &&& texts(run.lines@) == seq![index_line(index, run.events@.len())]
        },
    }
}

/// Whether a run is a scan of the transactions at the positions from `start` to `end`.
pub open spec fn is_range_run(
    db: Snapshot,
    cfg: SentinelConfig,
    start: u64,
    end: u64,
    run: SentinelRun,
) -> bool {
    match db@.fault {
        Some(_) => ended_by_fault(db, seq![range_line(start, end)], run),
        None => {
            let txs = valid_txs(db@.entries);
            let (from, to) = reached_range(start, end, txs.len());
            &&& found_events(db, cfg, txs.subrange(from, to), run)
            &&& texts(run.lines@) == seq![
                range_line(start, end),
                scanned_line((to - from) as nat),
                found_line("sentinel: no anomalies detected"@, "sentinel: "@, run.events@.len()),
            ]
        },
    }
}

/// Whether a run is a scan of all transactions of the store.
pub open spec fn is_full_run(db: Snapshot, cfg: SentinelConfig, run: SentinelRun) -> bool {
    match db@.fault {
        Some(_) => ended_by_fault(db, seq!["sentinel: starting full tx-entry scan"@], run),
        None => {
            &&& found_events(db, cfg, valid_txs(db@.entries), run)
            &&& texts(run.lines@) == seq![
                "sentinel: starting full tx-entry scan"@,
                found_line(
                    "sentinel: no anomalies detected in full tx scan"@,
                    "sentinel: "@,
                    run.events@.len(),
                ),
            ]
        },
    }
}

/// Scans the transaction at a position.
pub fn run_index_scan(db: &Snapshot, cfg: &SentinelConfig, index: u64) -> (run: SentinelRun)
    ensures
        is_index_run(*db, *cfg, index, run),
{
    let scan_cfg = cfg.to_scan_config();
    match scan_block(db, &scan_cfg, index) {
        Ok(result) => {
            let events = result.matched_events;
            let mut line = "sentinel: indexed entry ".to_string();
            line.append(decimal_text(index).as_str());
            if events.len() == 0 {
                line.append(" clean");
            } else {
                line.append(" produced ");
                line.append(decimal_text(events.len() as u64).as_str());
                line.append(" alert(s)");
            }
            SentinelRun { lines: one_line(line), events, fault: None }
        },
        Err(e) => {
            let run = SentinelRun { lines: Vec::new(), events: Vec::new(), fault: Some(e) };
            assert(texts(run.lines@) =~= seq![]);
            run
        },
    }
}

/// Scans the transactions at the positions from `start` to `end`.
pub fn run_index_range_scan(db: &Snapshot, cfg: &SentinelConfig, start: u64, end: u64) -> (run:
    SentinelRun)
    requires
        end - start < u64::MAX,
    ensures
        is_range_run(*db, *cfg, start, end, run),
{
    let scan_cfg = cfg.to_scan_config();
    let span: u64 = if end < start {
        1
    } else {
        end - start + 1
    };
    let mut line = "sentinel: scanning indexed entries ".to_string();
    line.append(decimal_text(start).as_str());
    line.append("..");
    line.append(decimal_text(end).as_str());
    line.append(" (");
    line.append(decimal_text(span).as_str());
    line.append(")");
    let mut lines = one_line(line);
    match scan_range(db, &scan_cfg, start, end) {
        Ok(result) => {
            let mut line = "sentinel: scanned ".to_string();
            line.append(decimal_text(result.scanned_blocks).as_str());
            line.append(" indexed entries");
            add_line(&mut lines, line);
            let events = result.matched_events;
            add_line(
                &mut lines,
                found_text("sentinel: no anomalies detected", "sentinel: ", events.len()),
            );
            proof {
                let (from, to) = reached_range(start, end, valid_txs(db@.entries).len());
                assert(texts(lines@) =~= seq![
                    range_line(start, end),
                    scanned_line((to - from) as nat),
                    found_line(
                        "sentinel: no anomalies detected"@,
                        "sentinel: "@,
                        events@.len(),
                    ),
                ]);
            }
            SentinelRun { lines, events, fault: None }
        },
        Err(e) => SentinelRun { lines, events: Vec::new(), fault: Some(e) },
    }
}

/// Scans all transactions of the store.
pub fn run_full_tx_scan(db: &Snapshot, cfg: &SentinelConfig) -> (run: SentinelRun)
    ensures
        is_full_run(*db, *cfg, run),
{
    let scan_cfg = cfg.to_scan_config();
    let mut lines = one_line("sentinel: starting full tx-entry scan".to_string());
    match scan_all_txs(db, &scan_cfg) {
        Ok(events) => {
            add_line(
                &mut lines,
                found_text(
                    "sentinel: no anomalies detected in full tx scan",
                    "sentinel: ",
                    events.len(),
                ),
            );
            assert(texts(lines@) =~= seq![
                "sentinel: starting full tx-entry scan"@,
                found_line(
                    "sentinel: no anomalies detected in full tx scan"@,
                    "sentinel: "@,
                    events@.len(),
                ),
            ]);
            SentinelRun { lines, events, fault: None }
        },
        Err(e) => SentinelRun { lines, events: Vec::new(), fault: Some(e) },
    }
}

/// Whether a run is one poll of the watch mode: a scan of the whole store.
pub open spec fn is_watch_poll(db: Snapshot, cfg: SentinelConfig, run: SentinelRun) -> bool {
    match db@.fault {
        Some(_) => ended_by_fault(db, seq![], run),
        None => {
            &&& found_events(db, cfg, valid_txs(db@.entries), run)
            &&& texts(run.lines@) == seq![
                found_line(
                    "sentinel: watch poll complete, no anomalies detected"@,
                    "sentinel: watch poll complete, "@,
                    run.events@.len(),
                ),
            ]
        },
    }
}

/// One poll of the watch mode: a scan of the whole store.
pub fn watch_poll(db: &Snapshot, cfg: &SentinelConfig) -> (run: SentinelRun)
    ensures
        is_watch_poll(*db, *cfg, run),
{
    let scan_cfg = cfg.to_scan_config();
    match scan_all_txs(db, &scan_cfg) {
        Ok(events) => {
            let lines = one_line(
                found_text(
                    "sentinel: watch poll complete, no anomalies detected",
                    "sentinel: watch poll complete, ",
                    events.len(),
                ),
            );
            SentinelRun { lines, events, fault: None }
        },
        Err(e) => {
            let run = SentinelRun { lines: Vec::new(), events: Vec::new(), fault: Some(e) };
            assert(texts(run.lines@) =~= seq![]);
            run
        },
    }
}

/// What the watch mode does after a poll. It has no other end than a failure.
#[derive(Debug)]
pub enum WatchNext {
    /// Sleep for so many seconds, then poll again.
    Sleep { seconds: u64 },
    /// End with this fault.
    Fail(ReadFault),
}

/// Whether the watch mode goes on like this after a poll: it ends with the fault of the poll, and
/// else sleeps for the configured time.
pub open spec fn follows_poll(cfg: SentinelConfig, run: SentinelRun, next: WatchNext) -> bool {
    match run.fault {
        Some(e) => next matches WatchNext::Fail(fault) && fault.text@ == e.text@,
        None => next == (WatchNext::Sleep { seconds: cfg.poll_seconds }),
    }
}

/// What the watch mode does after a poll.
pub fn watch_next(cfg: &SentinelConfig, run: &SentinelRun) -> (next: WatchNext)
    ensures
        follows_poll(*cfg, *run, next),
{
    match &run.fault {
        Some(e) => WatchNext::Fail(ReadFault { text: e.text.clone() }),
        None => WatchNext::Sleep { seconds: cfg.poll_seconds },
    }
}

} // verus!
