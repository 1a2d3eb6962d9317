//! What the scans of the sentinel reach, find and report.

use vstd::prelude::*;

use crate::alert_laws::lemma_tx_events_are_stamped;
use crate::events::{event_views, EventView, SentinelEvent};
use crate::index::texts;
use crate::laws::{all_undated, lemma_scan_undated, undated_events};
use crate::model::{valid_txs, Tx};
use crate::scanner::{
    are_events_of, are_stamps, is_stamp, reached_range, scan_events, stamp_text, tx_events,
    ScanConfig,
};
use crate::sentinel::{
    alert, banner, is_full_run, is_index_run, is_range_run, is_watch_poll, scan_config, watch_line,
    SentinelConfig, SentinelRun,
};
use crate::store::Snapshot;
use crate::text::decimal;

verus! {

// ---------------------------------------------------------------------------
// Scans
// ---------------------------------------------------------------------------

/// A scan from `start` to `end` reaches just the positions between them, both included, at which
/// there is a transaction.
pub proof fn range_scans_reach_what_is_between(start: u64, end: u64, len: nat, position: nat)
    requires
        start <= usize::MAX,
        end <= usize::MAX,
    ensures
        ({
            let (from, to) = reached_range(start, end, len);
            &&& 0 <= from <= to <= len
            &&& from <= position < to <==> start <= position <= end && position < len
        }),
{
}

/// But for the time stamps, the events of a scan are those of the first transaction, then those of
/// the next, and so on; none is left out and none comes twice.
pub proof fn scans_find_the_alerts_of_each_transaction(
    cfg: ScanConfig,
    db_height: u64,
    txs: Seq<Tx>,
    events: Seq<SentinelEvent>,
)
    requires
        are_events_of(cfg, db_height, txs, event_views(events)),
    ensures
        all_undated(event_views(events)) == txs.map_values(
            |tx: Tx| tx_events(cfg, db_height, seq![], tx),
        ).flatten(),
{
    let stamps = choose|stamps: Seq<Seq<char>>|
        are_stamps(stamps, txs.len()) && event_views(events) == #[trigger] scan_events(
            cfg,
            db_height,
            stamps,
            txs,
        );
    lemma_scan_undated(cfg, db_height, stamps, txs);
    lemma_undated_are_in_order(cfg, db_height, txs);
}

proof fn lemma_undated_are_in_order(cfg: ScanConfig, db_height: u64, txs: Seq<Tx>)
    ensures
        undated_events(cfg, db_height, txs) == txs.map_values(
            |tx: Tx| tx_events(cfg, db_height, seq![], tx),
        ).flatten(),
    decreases txs.len(),
{
    let raise = |tx: Tx| tx_events(cfg, db_height, seq![], tx);
    if txs.len() > 0 {
        let rest = txs.drop_last();
        lemma_undated_are_in_order(cfg, db_height, rest);
        let before = rest.map_values(raise);
        assert(txs.map_values(raise) =~= before.push(raise(txs.last())));
        before.lemma_flatten_push(raise(txs.last()));
    }
}

/// Whether a text is a time stamp: the seconds since the epoch behind a mark.
pub open spec fn is_unix_time(text: Seq<char>) -> bool {
    exists|n: u64| text == "unix:"@ + #[trigger] decimal(n as nat)
}

proof fn lemma_stamps_are_unix_times(text: Seq<char>)
    requires
        is_stamp(text),
    ensures
        is_unix_time(text),
{
    let seconds = choose|seconds: Option<u64>| text == #[trigger] stamp_text(seconds);
    let n: u64 = match seconds {
        Some(n) => n,
        None => 0,
    };
    stamps_tell_the_seconds(n);
    assert(text == "unix:"@ + decimal(n as nat));
}

proof fn lemma_events_are_stamped(
    cfg: ScanConfig,
    db_height: u64,
    stamps: Seq<Seq<char>>,
    txs: Seq<Tx>,
)
    requires
        are_stamps(stamps, txs.len()),
    ensures
        forall|i: int|
            0 <= i < scan_events(cfg, db_height, stamps, txs).len() ==> is_unix_time(
                (#[trigger] scan_events(cfg, db_height, stamps, txs)[i]).detected_at,
            ),
    decreases txs.len(),
{
    if txs.len() > 0 {
        let rest = txs.drop_last();
        let at = stamps.last();
        assert(stamps[stamps.len() - 1] == at);
        assert(are_stamps(stamps.drop_last(), rest.len())) by {
            assert forall|i: int| 0 <= i < rest.len() implies is_stamp(
                #[trigger] stamps.drop_last()[i],
            ) by {
                assert(stamps.drop_last()[i] == stamps[i]);
            }
        }
        lemma_events_are_stamped(cfg, db_height, stamps.drop_last(), rest);
        lemma_stamps_are_unix_times(at);
        let before = scan_events(cfg, db_height, stamps.drop_last(), rest);
        let now = scan_events(cfg, db_height, stamps, txs);
        let last = tx_events(cfg, db_height, at, txs.last());
        lemma_tx_events_are_stamped(cfg, db_height, at, txs.last());
        assert forall|i: int| 0 <= i < now.len() implies is_unix_time(
            (#[trigger] now[i]).detected_at,
        ) by {
            if i < before.len() {
                assert(now[i] == before[i]);
            } else {
                assert(now[i] == last[i - before.len()]);
            }
        }
    }
}

/// Every event of a scan tells the time at which it was detected.
pub proof fn alerts_are_stamped(
    cfg: ScanConfig,
    db_height: u64,
    txs: Seq<Tx>,
    events: Seq<SentinelEvent>,
    i: int,
)
    requires
        are_events_of(cfg, db_height, txs, event_views(events)),
        0 <= i < events.len(),
    ensures
        is_unix_time(events[i].detected_at@),
{
    let stamps = choose|stamps: Seq<Seq<char>>|
        are_stamps(stamps, txs.len()) && event_views(events) == #[trigger] scan_events(
            cfg,
            db_height,
            stamps,
            txs,
        );
    lemma_events_are_stamped(cfg, db_height, stamps, txs);
    assert(event_views(events)[i] == events[i]@);
}

/// A time stamp tells the seconds since the epoch; that of a moment before it tells none.
pub proof fn stamps_tell_the_seconds(n: u64)
    ensures
        stamp_text(Some(n)) == "unix:"@ + decimal(n as nat),
        stamp_text(None) == stamp_text(Some(0)),
{
    reveal_strlit("unix:");
    reveal_strlit("unix:0");
    assert(decimal(0) =~= seq!['0']);
    assert("unix:0"@ =~= "unix:"@ + decimal(0));
}

/// The scans of the sentinel keep the names that they were configured with, and raise alerts from
/// a million coins on for an output or a receiver, and from five million on for a transaction.
pub proof fn sentinels_scan_with_the_usual_thresholds(cfg: SentinelConfig)
    ensures
        scan_config(cfg).chain@ == cfg.chain@,
        scan_config(cfg).network_type@ == cfg.network_type@,
        scan_config(cfg).node_id@ == cfg.node_id@,
        scan_config(cfg).thresholds.abnormal_output_atomic == 100_000_000_000_000,
        scan_config(cfg).thresholds.abnormal_tx_total_atomic == 500_000_000_000_000,
        scan_config(cfg).thresholds.receiver_concentration_atomic == 100_000_000_000_000,
{
}

/// An alert is framed by a heading, or says why it could not be rendered; the watch mode announces
/// how often it polls.
pub proof fn alerts_are_framed(rendered: String, poll_seconds: u64)
    ensures
        alert(Ok(rendered)) == seq!["=== SENTINEL ALERT ==="@, rendered@],
        alert(Err(rendered)) == seq!["sentinel: failed to serialize event: "@ + rendered@],
        watch_line(poll_seconds) == "sentinel: watch mode starting (poll="@ + decimal(
            poll_seconds as nat,
        ) + "s)"@,
        banner() == seq![
            "---------------------------------------------"@,
            " Snap Sentinel"@,
            " Tx / UTXO Anomaly Monitor"@,
            "---------------------------------------------"@,
        ],
{
}

// ---------------------------------------------------------------------------
// Runs
// ---------------------------------------------------------------------------

/// The events of a run but for their time stamps.
pub open spec fn undated_run(run: SentinelRun) -> Seq<EventView> {
    all_undated(event_views(run.events@))
}

/// The events that a transaction raises under the configuration of the sentinel, but for their time
/// stamps.
pub open spec fn raised_by(db: Snapshot, cfg: SentinelConfig, tx: Tx) -> Seq<EventView> {
    tx_events(scan_config(cfg), db.len, seq![], tx)
}

/// A run that meets the fault of the store ends with it and finds nothing. It has announced what it
/// was about to scan, if it scans a range or the whole store, and prints no more.
pub proof fn runs_end_with_the_fault(
    db: Snapshot,
    cfg: SentinelConfig,
    start: u64,
    end: u64,
    run: SentinelRun,
)
    requires
        db.fault is Some,
        is_index_run(db, cfg, start, run) || is_range_run(db, cfg, start, end, run) || is_full_run(
            db,
            cfg,
            run,
        ) || is_watch_poll(db, cfg, run),
    ensures
        run.events@.len() == 0,
        run.fault matches Some(e) && db@.fault == Some(e.text@),
        is_index_run(db, cfg, start, run) || is_watch_poll(db, cfg, run) ==> run.lines@.len() == 0,
        is_range_run(db, cfg, start, end, run) ==> run.lines@.len() == 1 && run.lines@[0]@
            == announced(start, end),
        is_full_run(db, cfg, run) ==> run.lines@.len() == 1 && run.lines@[0]@
            == "sentinel: starting full tx-entry scan"@,
{
    assert(texts(run.lines@).len() == run.lines@.len());
    if run.lines@.len() == 1 {
        assert(texts(run.lines@)[0] == run.lines@[0]@);
    }
}

/// The announcement of a scan from `start` to `end`: both ends, and how many positions there are
/// from one to the other, or one where they are the wrong way round.
pub open spec fn announced(start: u64, end: u64) -> Seq<char> {
    "sentinel: scanning indexed entries "@ + decimal(start as nat) + ".."@ + decimal(end as nat)
        + " ("@ + decimal(
        if start <= end {
            (end - start + 1) as nat
        } else {
            1
        },
    ) + ")"@
}

/// A run on one position finds the events of the transaction there, none behind the last one, and
/// reports the position and how many events there were.
pub proof fn index_runs_find_the_alerts_of_a_position(
    db: Snapshot,
    cfg: SentinelConfig,
    index: u64,
    run: SentinelRun,
)
    requires
        is_index_run(db, cfg, index, run),
        db.fault is None,
        index <= usize::MAX,
    ensures
        ({
            let txs = valid_txs(db@.entries);
            let n = run.events@.len();
            &&& run.fault is None
            &&& index < txs.len() ==> undated_run(run) == raised_by(db, cfg, txs[index as int])
            &&& index >= txs.len() ==> n == 0
            &&& run.lines@.len() == 1
            &&& run.lines@[0]@ == "sentinel: indexed entry "@ + decimal(index as nat) + (if n
                == 0 {
                " clean"@
            } else {
                " produced "@ + decimal(n) + " alert(s)"@
            })
        }),
{
    let txs = valid_txs(db@.entries);
    let one = if index < txs.len() {
        txs.subrange(index as int, index + 1)
    } else {
        seq![]
    };
    scans_find_the_alerts_of_each_transaction(scan_config(cfg), db.len, one, run.events@);
    let parts = one.map_values(|tx: Tx| raised_by(db, cfg, tx));
    assert(parts =~= one.map_values(|tx: Tx| tx_events(scan_config(cfg), db.len, seq![], tx)));
    assert(undated_run(run).len() == run.events@.len());
    if index < txs.len() {
        assert(parts =~= seq![raised_by(db, cfg, txs[index as int])]);
        parts.lemma_flatten_one_element();
    }
    assert(texts(run.lines@).len() == run.lines@.len());
    assert(texts(run.lines@)[0] == run.lines@[0]@);
    let n = run.events@.len();
    let p = "sentinel: indexed entry "@ + decimal(index as nat);
    assert(p + " produced "@ + decimal(n) + " alert(s)"@ =~= p + (" produced "@ + decimal(n)
        + " alert(s)"@));
}

/// A run on a range finds the events of the transactions between its ends, both included, in order,
/// and reports the range, how many transactions there were, and how many events.
pub proof fn range_runs_find_the_alerts_between(
    db: Snapshot,
    cfg: SentinelConfig,
    start: u64,
    end: u64,
    run: SentinelRun,
)
    requires
        is_range_run(db, cfg, start, end, run),
        db.fault is None,
        start <= end <= usize::MAX,
    ensures
        ({
            let txs = valid_txs(db@.entries);
            let to = if end < txs.len() {
                end + 1
            } else {
                txs.len() as int
            };
            let from = if start < to {
                start as int
            } else {
                to
            };
            let n = run.events@.len();
            &&& run.fault is None
            &&& undated_run(run) == txs.subrange(from, to).map_values(
                |tx: Tx| raised_by(db, cfg, tx),
            ).flatten()
            &&& run.lines@.len() == 3
            &&& run.lines@[0]@ == announced(start, end)
            &&& run.lines@[1]@ == "sentinel: scanned "@ + decimal((to - from) as nat)
                + " indexed entries"@
            &&& run.lines@[2]@ == if n == 0 {
                "sentinel: no anomalies detected"@
            } else {
                "sentinel: "@ + decimal(n) + " anomaly event(s) detected"@
            }
        }),
{
    let txs = valid_txs(db@.entries);
    let (a, b) = reached_range(start, end, txs.len());
    let to = if end < txs.len() {
        end + 1
    } else {
        txs.len() as int
    };
    let from = if start < to {
        start as int
    } else {
        to
    };
    let some = txs.subrange(a, b);
    scans_find_the_alerts_of_each_transaction(scan_config(cfg), db.len, some, run.events@);
    assert(some =~= txs.subrange(from, to));
    assert(some.map_values(|tx: Tx| raised_by(db, cfg, tx)) =~= some.map_values(
        |tx: Tx| tx_events(scan_config(cfg), db.len, seq![], tx),
    ));
    let lines = run.lines@;
    assert(texts(lines).len() == lines.len());
    assert(texts(lines)[0] == lines[0]@);
    assert(texts(lines)[1] == lines[1]@);
    assert(texts(lines)[2] == lines[2]@);
}

/// A run on a range whose ends are the wrong way round finds nothing, and says so.
pub proof fn reversed_ranges_find_nothing(
    db: Snapshot,
    cfg: SentinelConfig,
    start: u64,
    end: u64,
    run: SentinelRun,
)
    requires
        is_range_run(db, cfg, start, end, run),
        db.fault is None,
        end < start,
    ensures
        run.fault is None,
        run.events@.len() == 0,
        run.lines@.len() == 3,
        run.lines@[0]@ == announced(start, end),
        run.lines@[1]@ == "sentinel: scanned "@ + decimal(0) + " indexed entries"@,
        run.lines@[2]@ == "sentinel: no anomalies detected"@,
{
    let txs = valid_txs(db@.entries);
    let none = txs.subrange(0, 0);
    scans_find_the_alerts_of_each_transaction(scan_config(cfg), db.len, none, run.events@);
    assert(none.len() == 0);
    assert(undated_run(run).len() == run.events@.len());
    let lines = run.lines@;
    assert(texts(lines).len() == lines.len());
    assert(texts(lines)[0] == lines[0]@);
    assert(texts(lines)[1] == lines[1]@);
    assert(texts(lines)[2] == lines[2]@);
}

/// A run on the whole store and a poll of the watch mode find the same events: those of all
/// transactions, in order.
pub proof fn full_runs_and_polls_find_all_alerts(
    db: Snapshot,
    cfg: SentinelConfig,
    run: SentinelRun,
    poll: SentinelRun,
)
    requires
        is_full_run(db, cfg, run),
        is_watch_poll(db, cfg, poll),
        db.fault is None,
    ensures
        ({
            let n = run.events@.len();
            &&& run.fault is None
            &&& poll.fault is None
            &&& undated_run(run) == valid_txs(db@.entries).map_values(
                |tx: Tx| raised_by(db, cfg, tx),
            ).flatten()
            &&& undated_run(poll) == undated_run(run)
            &&& run.lines@.len() == 2
            &&& run.lines@[0]@ == "sentinel: starting full tx-entry scan"@
            &&& run.lines@[1]@ == if n == 0 {
                "sentinel: no anomalies detected in full tx scan"@
            } else {
                "sentinel: "@ + decimal(n) + " anomaly event(s) detected"@
            }
            &&& poll.lines@.len() == 1
            &&& poll.lines@[0]@ == if n == 0 {
                "sentinel: watch poll complete, no anomalies detected"@
            } else {
                "sentinel: watch poll complete, "@ + decimal(n) + " anomaly event(s) detected"@
            }
        }),
{
    let txs = valid_txs(db@.entries);
    let scan = scan_config(cfg);
    scans_find_the_alerts_of_each_transaction(scan, db.len, txs, run.events@);
    scans_find_the_alerts_of_each_transaction(scan, db.len, txs, poll.events@);
    assert(txs.map_values(|tx: Tx| raised_by(db, cfg, tx)) =~= txs.map_values(
        |tx: Tx| tx_events(scan, db.len, seq![], tx),
    ));
    assert(undated_run(run).len() == run.events@.len());
    assert(undated_run(poll).len() == poll.events@.len());
    assert(texts(run.lines@).len() == run.lines@.len());
    assert(texts(run.lines@)[0] == run.lines@[0]@);
    assert(texts(run.lines@)[1] == run.lines@[1]@);
    assert(texts(poll.lines@).len() == poll.lines@.len());
    assert(texts(poll.lines@)[0] == poll.lines@[0]@);
}

} // verus!
