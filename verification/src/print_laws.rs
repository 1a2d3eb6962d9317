//! What the commands of the command line read and print.

use vstd::prelude::*;
use vstd::utf8::encode_utf8;

use crate::answer_laws::{lemma_paying_are_filtered, listed};
use crate::buckets::{before_colon, cuttable, prefix_name, sorting};
use crate::cli::{
    prints, request_of, runnable, scan_prints, search_prints, CliError, CliRun, Cmd, Report,
};
use crate::codec::{hex_text, key_spec_reading, utf8_text};
use crate::counting::{
    amounts, bytes_are_of_values, held, is_named, is_of, is_paying, sum, sums_are_of_slots,
};
use crate::db::{is_global_metrics, top_rows};
use crate::index::texts;
use crate::inspect::{all_cuttable, is_histogram, is_inspection, key_row, key_rows};
use crate::intelligence::is_wallet_intelligence;
use crate::key_laws::{is_plain, lemma_row_is_true, smaller};
use crate::keys::{key_text, named_key};
use crate::lines::{all_entry_lines, entry_line, entry_lines, output_line, preview_lines};
use crate::model::{every_slot, valid_txs, StoredEntry};
use crate::outputs::{stored_slots, Slot};
use crate::store::{Lookup, RequestView, Snapshot};
use crate::text::decimal;
use crate::utxos::{paying_txids, slot_rows, UtxoError};
use crate::wallet_stats::is_wallet_stats;

verus! {

// ---------------------------------------------------------------------------
// Reading
// ---------------------------------------------------------------------------

/// The part of the default tree with the first entries, or all of it.
pub open spec fn from_default(at_most: Option<usize>) -> RequestView {
    RequestView::Entries { tree: "__sled__default"@, prefix: seq![], at_most }
}

/// What the commands read. Those on sums and addresses read the whole default tree, and those on
/// its first keys no more of it than they show or sample. A scan reads no more entries of its tree
/// than it prints, which is at least one. A command whose address, transaction id or key cannot be
/// understood reads nothing and says so.
pub proof fn commands_read_what_they_show(cmd: Cmd)
    ensures
        match cmd {
            Cmd::Globals | Cmd::WalletIntelligence | Cmd::TopReceivers { .. } => request_of(cmd)
                == Ok::<RequestView, Seq<char>>(from_default(None)),
            Cmd::Balance { address } | Cmd::WalletStats { address } | Cmd::UtxosForAddress {
                address,
                ..
            } => request_of(cmd) == if named_key(address@) is Some {
                Ok(from_default(None))
            } else {
                Err("invalid address base36"@)
            },
            Cmd::PrefixStats { sample, .. } => request_of(cmd) == Ok::<RequestView, Seq<char>>(
                from_default(Some(sample)),
            ),
            Cmd::PreviewKeys { limit } => request_of(cmd) == Ok::<RequestView, Seq<char>>(
                from_default(Some(limit)),
            ),
            Cmd::InspectDefault { sample, examples, .. } => request_of(cmd) == Ok::<
                RequestView,
                Seq<char>,
            >(
                from_default(
                    Some(
                        if sample >= examples {
                            sample
                        } else {
                            examples
                        },
                    ),
                ),
            ),
            Cmd::DecodeUtxos { txid } => request_of(cmd) == match named_key(txid@) {
                Some(key) => Ok(
                    RequestView::Value {
                        tree: "__sled__default"@,
                        key: encode_utf8(key_text(key)),
                    },
                ),
                None => Err("invalid txid base36"@),
            },
            Cmd::Get { tree, key, .. } => match key_spec_reading(key@) {
                Ok(bytes) => request_of(cmd) == Ok::<RequestView, Seq<char>>(
                    RequestView::Value { tree: tree@, key: bytes },
                ),
                Err(_) => request_of(cmd) == Err::<RequestView, Seq<char>>(
                    "invalid hex key spec: "@ + key@,
                ),
            },
            Cmd::Scan { tree, limit, prefix, .. } => {
                let at_most = Some(
                    if limit == 0 {
                        1
                    } else {
                        limit
                    },
                );
                match prefix {
                    None => request_of(cmd) == Ok::<RequestView, Seq<char>>(
                        RequestView::Entries { tree: tree@, prefix: seq![], at_most },
                    ),
                    Some(spec) => match key_spec_reading(spec@) {
                        Ok(bytes) => request_of(cmd) == Ok::<RequestView, Seq<char>>(
                            RequestView::Entries { tree: tree@, prefix: bytes, at_most },
                        ),
                        Err(_) => request_of(cmd) == Err::<RequestView, Seq<char>>(
                            "invalid hex key spec: "@ + spec@,
                        ),
                    },
                }
            },
        },
{
}

/// A command that reads nothing prints nothing, and fails with what it could not understand.
pub proof fn commands_fail_before_they_read(cmd: Cmd, db: Snapshot, found: Lookup, run: CliRun)
    requires
        prints(cmd, db, found, run),
        request_of(cmd) is Err,
    ensures
        run.lines@.len() == 0,
        run.report is None,
        run.failure matches Some(e) && e.text() == request_of(cmd)->Err_0,
{
    assert(texts(run.lines@).len() == run.lines@.len());
}

/// Every command can be run where the values of the store are no more bytes than can be counted and
/// the prefixes in its keys are no longer than 48 bytes. Those that neither count nor sort keys can
/// always be run.
pub proof fn commands_can_be_run(cmd: Cmd, db: Snapshot)
    requires
        sum(db@.entries.map_values(|entry: StoredEntry| entry.value.len())) <= u64::MAX,
        forall|i: int|
            #![trigger db@.entries[i]]
            0 <= i < db@.entries.len() ==> has_short_prefix(db@.entries[i].key),
    ensures
        runnable(cmd, db),
{
    bytes_are_of_values(db@.entries);
    assert forall|i: int|
        #![trigger db@.entries[i]]
        0 <= i < db@.entries.len() implies cuttable(db@.entries[i].key) by {
        assert(has_short_prefix(db@.entries[i].key));
    }
    assert forall|n: int| 0 <= n implies all_cuttable(#[trigger] db@.first(n)) by {
        assert forall|i: int| 0 <= i < db@.first(n).len() implies cuttable(
            (#[trigger] db@.first(n)[i]).key,
        ) by {
            assert(db@.first(n)[i] == db@.entries[i]);
        }
    }
}

/// Whether what stands before the first colon of a key, if it is text with one, takes no more than
/// 48 bytes once white space around it is left out.
pub open spec fn has_short_prefix(k: Seq<u8>) -> bool {
    utf8_text(k) matches Some(s) ==> (before_colon(s) matches Some(prefix) ==> encode_utf8(
        prefix_name(prefix),
    ).len() <= 48)
}

// ---------------------------------------------------------------------------
// Entries
// ---------------------------------------------------------------------------

/// The line of an entry: its key as text where it is plain text, its key in hexadecimal, and the
/// length of its value.
pub open spec fn shows_entry(line: Seq<char>, entry: StoredEntry) -> bool {
    let behind = "key_hex:"@ + hex_text(entry.key) + "  value_len="@ + decimal(entry.value.len());
    match utf8_text(entry.key) {
        Some(s) => line == if is_plain(s) {
            "key=utf8:"@ + s + "  "@ + behind
        } else {
            behind
        },
        None => line == behind,
    }
}

proof fn lemma_entry_is_shown(entry: StoredEntry)
    ensures
        shows_entry(entry_line(entry), entry),
{
    lemma_row_is_true(entry);
    let behind = "key_hex:"@ + hex_text(entry.key) + "  value_len="@ + decimal(entry.value.len());
    match key_row(entry).key_utf8 {
        Some(s) => {
            assert(entry_line(entry) =~= "key=utf8:"@ + s + "  "@ + behind);
        },
        None => {
            assert(entry_line(entry) =~= behind);
        },
    }
}

proof fn lemma_entry_lines(entries: Seq<StoredEntry>, show_values: bool)
    ensures
        show_values ==> all_entry_lines(entries, show_values).len() == 2 * entries.len(),
        !show_values ==> all_entry_lines(entries, show_values).len() == entries.len(),
        forall|i: int|
            #![trigger entries[i]]
            0 <= i < entries.len() ==> {
                let lines = all_entry_lines(entries, show_values);
                &&& !show_values ==> shows_entry(lines[i], entries[i])
                &&& show_values ==> shows_entry(lines[2 * i], entries[i]) && lines[2 * i + 1]
                    == "  value_hex:"@ + hex_text(entries[i].value)
            },
    decreases entries.len(),
{
    if entries.len() > 0 {
        let rest = entries.drop_last();
        lemma_entry_lines(rest, show_values);
        lemma_entry_is_shown(entries.last());
        let before = all_entry_lines(rest, show_values);
        let lines = all_entry_lines(entries, show_values);
        assert(lines == before + entry_lines(entries.last(), show_values));
        assert forall|i: int|
            #![trigger entries[i]]
            0 <= i < entries.len() implies ({
            &&& !show_values ==> shows_entry(lines[i], entries[i])
            &&& show_values ==> shows_entry(lines[2 * i], entries[i]) && lines[2 * i + 1]
                == "  value_hex:"@ + hex_text(entries[i].value)
        }) by {
            if i < rest.len() {
                assert(rest[i] == entries[i]);
                if show_values {
                    assert(lines[2 * i] == before[2 * i]);
                    assert(lines[2 * i + 1] == before[2 * i + 1]);
                } else {
                    assert(lines[i] == before[i]);
                }
            }
        }
    }
}

/// A scan prints the entries in their order, one line for each, or two where values are asked for,
/// and at last how many there were. It stops at its limit, but prints one entry at least; a fault
/// of the store comes up only where the limit did not end the scan before.
pub proof fn scans_print_the_entries(
    db: Snapshot,
    limit: usize,
    show_values: bool,
    run: CliRun,
    i: int,
)
    requires
        scan_prints(db, limit, show_values, run),
    ensures
        ({
            let n = listed(db.entries@.len(), Some(limit)) as int;
            let lines = run.lines@;
            let shown = if show_values {
                2 * n
            } else {
                n
            };
            &&& run.report is None
            &&& run.failure is Some <==> db.fault is Some && (db.entries@.len() < limit
                || db.entries@.len() == 0)
            &&& run.failure matches Some(e) ==> lines.len() == shown && db@.fault == Some(e.text())
            &&& run.failure is None ==> lines.len() == shown + 1 && lines[shown]@ == "printed "@
                + decimal(n as nat) + " entries"@
            &&& 0 <= i < n && !show_values ==> shows_entry(lines[i]@, db.entries@[i]@)
            &&& 0 <= i < n && show_values ==> shows_entry(lines[2 * i]@, db.entries@[i]@) && lines[2
                * i + 1]@ == "  value_hex:"@ + hex_text(db.entries@[i].value@)
        }),
{
    let entries = db@.entries;
    let n = listed(entries.len(), Some(limit)) as int;
    let some = entries.take(n);
    lemma_entry_lines(some, show_values);
    let lines = run.lines@;
    assert(texts(lines).len() == lines.len());
    let shown = all_entry_lines(some, show_values);
    if run.failure is None {
        assert(texts(lines)[shown.len() as int] == lines[shown.len() as int]@);
    }
    if 0 <= i < n {
        assert(some[i] == db.entries@[i]@);
        if show_values {
            assert(texts(lines)[2 * i] == lines[2 * i]@ && shown[2 * i] == texts(lines)[2 * i]);
            assert(texts(lines)[2 * i + 1] == lines[2 * i + 1]@ && shown[2 * i + 1] == texts(
                lines,
            )[2 * i + 1]);
        } else {
            assert(texts(lines)[i] == lines[i]@ && shown[i] == texts(lines)[i]);
        }
    }
}

/// What is printed of a value: how long the key and the value are, the key in hexadecimal, and the
/// value in hexadecimal where it is asked for. Where the tree holds nothing, or cannot be read,
/// nothing is printed.
pub proof fn values_are_printed_in_hexadecimal(cmd: Cmd, db: Snapshot, found: Lookup, run: CliRun)
    requires
        prints(cmd, db, found, run),
        cmd is Get,
        key_spec_reading(cmd->Get_key@) is Ok,
    ensures
        ({
            let key = key_spec_reading(cmd->Get_key@)->Ok_0;
            let lines = run.lines@;
            &&& run.report is None
            &&& match found {
                Lookup::Found(value) => {
                    &&& run.failure is None
                    &&& lines.len() == if cmd->show_value {
                        3
                    } else {
                        2int
                    }
                    &&& lines[0]@ == "key_len="@ + decimal(key.len()) + " value_len="@ + decimal(
                        value@.len(),
                    )
                    &&& lines[1]@ == "key_hex="@ + hex_text(key)
                    &&& cmd->show_value ==> lines[2]@ == "value_hex="@ + hex_text(value@)
                },
                Lookup::Missing => lines.len() == 0 && (run.failure matches Some(e) && e.text()
                    == "key not found"@),
                Lookup::Failed(fault) => lines.len() == 0 && (run.failure matches Some(e)
                    && e.text() == fault.text@),
            }
        }),
{
    let lines = run.lines@;
    assert(texts(lines).len() == lines.len());
    if found is Found {
        assert(texts(lines)[0] == lines[0]@);
        assert(texts(lines)[1] == lines[1]@);
        if cmd->show_value {
            assert(texts(lines)[2] == lines[2]@);
        }
    }
}

// ---------------------------------------------------------------------------
// Transactions and addresses
// ---------------------------------------------------------------------------

/// The line of an output slot: its position, and that it is spent, or its amount and receiver.
pub open spec fn shows_slot(line: Seq<char>, i: int, slot: Slot) -> bool {
    line == match slot {
        Some((amount, key)) => "#"@ + decimal(i as nat) + ": amount="@ + decimal(amount as nat)
            + " receiver="@ + key_text(key),
        None => "#"@ + decimal(i as nat) + ": spent"@,
    }
}

/// The outputs of a transaction are printed in their order, each with its own position, behind the
/// id of the transaction and their number.
pub proof fn outputs_are_printed_in_order(
    cmd: Cmd,
    db: Snapshot,
    found: Lookup,
    run: CliRun,
    key: Seq<u8>,
    slots: Seq<Slot>,
)
    requires
        prints(cmd, db, found, run),
        cmd is DecodeUtxos,
        named_key(cmd->txid@) == Some(key),
        found matches Lookup::Found(value) && stored_slots(value@) == Some(slots),
    ensures
        run.report is None,
        run.failure is None,
        run.lines@.len() == slots.len() + 2,
        run.lines@[0]@ == "txid="@ + key_text(key),
        run.lines@[1]@ == "outputs="@ + decimal(slots.len()),
        forall|i: int|
            #![trigger slots[i]]
            0 <= i < slots.len() ==> shows_slot(run.lines@[i + 2]@, i, slots[i]),
{
    let lines = run.lines@;
    let rows = slot_rows(slots);
    reveal_strlit("spent");
    reveal_strlit("unspent");
    assert("spent"@.len() == 5 && "unspent"@.len() == 7);
    assert(texts(lines).len() == lines.len());
    assert(texts(lines)[0] == lines[0]@);
    assert(texts(lines)[1] == lines[1]@);
    assert forall|i: int|
        #![trigger slots[i]]
        0 <= i < slots.len() implies shows_slot(lines[i + 2]@, i, slots[i]) by {
        assert(texts(lines)[i + 2] == lines[i + 2]@);
        assert(lines[i + 2]@ == output_line(rows[i]));
    }
}

/// Where the outputs of a transaction cannot be shown nothing is printed, and the message says why.
pub proof fn unshown_outputs_print_nothing(cmd: Cmd, db: Snapshot, found: Lookup, run: CliRun)
    requires
        prints(cmd, db, found, run),
        cmd is DecodeUtxos,
        named_key(cmd->txid@) is Some,
        found matches Lookup::Found(value) ==> stored_slots(value@) is None,
    ensures
        run.lines@.len() == 0,
        run.report is None,
        run.failure matches Some(e) && match found {
            Lookup::Missing => e.text() == "txid not found in db"@,
            Lookup::Failed(fault) => e.text() == fault.text@,
            Lookup::Found(_) => "bincode decode failed: "@.is_prefix_of(e.text()),
        },
{
    assert(texts(run.lines@).len() == run.lines@.len());
}

/// The transactions of an address are printed in the order of the store, each under the text that
/// names it, and at last how many there were; the limit holds as in other lists.
pub proof fn transactions_of_an_address_are_printed(
    db: Snapshot,
    key: Seq<u8>,
    limit: usize,
    run: CliRun,
)
    requires
        search_prints(db, key, limit, run),
    ensures
        ({
            let paying = valid_txs(db@.entries).filter(is_paying(key));
            let n = listed(paying.len(), Some(limit)) as int;
            let lines = run.lines@;
            &&& run.report is None
            &&& run.failure is Some <==> db.fault is Some && (paying.len() < limit || paying.len()
                == 0)
            &&& run.failure matches Some(e) ==> lines.len() == n && db@.fault == Some(e.text())
            &&& run.failure is None ==> lines.len() == n + 1 && lines[n]@ == "printed "@ + decimal(
                n as nat,
            ) + " txids"@
            &&& forall|i: int|
                #![trigger paying[i]]
                0 <= i < n ==> lines[i]@ == key_text(named_key(paying[i].txid)->0)
        }),
{
    let txs = valid_txs(db@.entries);
    let paying = txs.filter(is_paying(key));
    let n = listed(paying.len(), Some(limit)) as int;
    let lines = run.lines@;
    lemma_paying_are_filtered(txs, key);
    let all = paying_txids(txs, key);
    assert(texts(lines).len() == lines.len());
    if run.failure is None {
        assert(texts(lines)[n] == lines[n]@);
    }
    assert forall|i: int|
        #![trigger paying[i]]
        0 <= i < n implies lines[i]@ == key_text(named_key(paying[i].txid)->0) by {
        assert(texts(lines)[i] == lines[i]@);
        assert(all[i] == paying[i].txid);
    }
}

/// What is printed of a balance: the text of the address, and the sum of its unspent outputs as far
/// as an amount can hold it.
pub proof fn balances_are_printed(
    cmd: Cmd,
    db: Snapshot,
    found: Lookup,
    run: CliRun,
    key: Seq<u8>,
)
    requires
        prints(cmd, db, found, run),
        cmd is Balance,
        named_key(cmd->Balance_address@) == Some(key),
    ensures
        run.report is None,
        db.fault is None ==> {
            &&& run.failure is None
            &&& run.lines@.len() == 2
            &&& run.lines@[0]@ == "address="@ + key_text(key)
            &&& run.lines@[1]@ == "confirmed_balance="@ + decimal(
                held(sum(amounts(every_slot(db@.entries).filter(is_of(key))))),
            )
        },
        db@.fault matches Some(text) ==> run.lines@.len() == 0 && (run.failure matches Some(e)
            && e.text() == text),
{
    let lines = run.lines@;
    sums_are_of_slots(every_slot(db@.entries), key);
    assert(texts(lines).len() == lines.len());
    if db.fault is None {
        assert(texts(lines)[0] == lines[0]@);
        assert(texts(lines)[1] == lines[1]@);
    }
}

/// The top receivers are printed in their order, ranked from one on, each with its address and what
/// it holds.
pub proof fn receivers_are_printed_by_rank(cmd: Cmd, db: Snapshot, found: Lookup, run: CliRun)
    requires
        prints(cmd, db, found, run),
        cmd is TopReceivers,
        db.fault is None,
    ensures
        ({
            let rows = top_rows(every_slot(db@.entries), cmd->TopReceivers_limit as nat);
            let lines = run.lines@;
            &&& run.report is None
            &&& run.failure is None
            &&& lines.len() == rows.len()
            &&& forall|i: int|
                #![trigger rows[i]]
                0 <= i < rows.len() ==> lines[i]@ == "#"@ + (if i < 9 {
                    "0"@ + decimal((i + 1) as nat)
                } else {
                    decimal((i + 1) as nat)
                }) + " receiver="@ + rows[i].0 + " total_unspent="@ + decimal(rows[i].1 as nat)
        }),
{
    let rows = top_rows(every_slot(db@.entries), cmd->TopReceivers_limit as nat);
    let lines = run.lines@;
    assert(texts(lines).len() == lines.len());
    assert forall|i: int|
        #![trigger rows[i]]
        0 <= i < rows.len() implies lines[i]@ == "#"@ + (if i < 9 {
        "0"@ + decimal((i + 1) as nat)
    } else {
        decimal((i + 1) as nat)
    }) + " receiver="@ + rows[i].0 + " total_unspent="@ + decimal(rows[i].1 as nat) by {
        assert(texts(lines)[i] == lines[i]@);
    }
}

/// A preview prints the first entries in their order: what a scan prints of each, then its bucket
/// and whether it names a transaction; and at last how many there were.
pub proof fn previews_are_printed(cmd: Cmd, db: Snapshot, found: Lookup, run: CliRun, i: int)
    requires
        prints(cmd, db, found, run),
        cmd is PreviewKeys,
    ensures
        ({
            let limit = cmd->PreviewKeys_limit;
            let n = smaller(limit as int, db.entries@.len() as int);
            let lines = run.lines@;
            &&& run.report is None
            &&& run.failure is Some <==> db.fault is Some && db.entries@.len() < limit
            &&& run.failure matches Some(e) ==> lines.len() == n && db@.fault == Some(e.text())
            &&& run.failure is None ==> lines.len() == n + 1 && lines[n]@ == "printed "@ + decimal(
                n as nat,
            ) + " keys"@
            &&& 0 <= i < n ==> {
                let entry = db.entries@[i]@;
                exists|head: Seq<char>|
                    #![trigger shows_entry(head, entry)]
                    shows_entry(head, entry) && lines[i]@ == head + "  bucket="@
                        + sorting(entry.key).bucket + "  txid="@ + (
                    if is_named()(entry) {
                        "true"@
                    } else {
                        "false"@
                    })
            }
        }),
{
    let limit = cmd->PreviewKeys_limit;
    let n = smaller(limit as int, db.entries@.len() as int);
    let lines = run.lines@;
    let seen = db@.first(limit as int);
    assert(texts(lines).len() == lines.len());
    assert(seen.len() == n);
    if run.failure is None {
        assert(texts(lines)[n] == lines[n]@);
    }
    if 0 <= i < n {
        let entry = db.entries@[i]@;
        assert(seen[i] == entry);
        assert(texts(lines)[i] == lines[i]@);
        assert(preview_lines(key_rows(seen))[i] == lines[i]@);
        assert(key_rows(seen)[i] == key_row(entry));
        lemma_row_is_true(entry);
        lemma_entry_is_shown(entry);
        let head = entry_line(entry);
        assert(shows_entry(head, entry));
    }
}

// ---------------------------------------------------------------------------
// Reports
// ---------------------------------------------------------------------------

/// The commands on the whole store print their report and nothing else, or nothing but the fault of
/// the store.
pub proof fn reports_stand_alone(cmd: Cmd, db: Snapshot, found: Lookup, run: CliRun)
    requires
        prints(cmd, db, found, run),
        request_of(cmd) is Ok,
    ensures
        cmd is Globals || cmd is WalletIntelligence || cmd is WalletStats ==> {
            &&& run.lines@.len() == 0
            &&& db@.fault matches Some(text) ==> run.report is None && (run.failure matches Some(e)
                && e.text() == text)
            &&& db.fault is None ==> run.failure is None && match run.report {
                Some(Report::Globals(g)) => cmd is Globals && is_global_metrics(db@.entries, g),
                Some(Report::Intelligence(w)) => cmd is WalletIntelligence
                    && is_wallet_intelligence(db@.entries, w),
                Some(Report::Stats(w)) => cmd is WalletStats && is_wallet_stats(
                    db@.entries,
                    named_key(cmd->WalletStats_address@)->0,
                    w,
                ),
                _ => false,
            }
        },
        cmd matches Cmd::InspectDefault { sample, top, examples } ==> {
            let meets = db.fault is Some && (db.entries@.len() < sample || db.entries@.len()
                < examples);
            &&& run.lines@.len() == 0
            &&& run.failure is Some <==> meets
            &&& !meets ==> (run.report matches Some(Report::Inspection(out)) && is_inspection(
                db,
                sample,
                top,
                examples,
                out,
            ))
        },
        cmd matches Cmd::PrefixStats { sample, top } ==> {
            let meets = db.fault is Some && db.entries@.len() < sample;
            &&& run.lines@.len() == 0
            &&& run.failure is Some <==> meets
            &&& !meets ==> (run.report matches Some(Report::Histogram(out)) && is_histogram(
                db,
                sample,
                top,
                out,
            ))
        },
{
    assert(texts(run.lines@).len() == run.lines@.len());
}

/// The messages of the commands.
pub proof fn messages_say_what_failed(e: CliError)
    ensures
        match e {
            CliError::KeySpec(k) => e.text() == "invalid hex key spec: "@ + k.spec@,
            CliError::InvalidAddress => e.text() == "invalid address base36"@,
            CliError::KeyNotFound => e.text() == "key not found"@,
            CliError::Read(fault) => e.text() == fault.text@,
            CliError::Utxo(UtxoError::InvalidTxid) => e.text() == "invalid txid base36"@,
            CliError::Utxo(UtxoError::NotFound) => e.text() == "txid not found in db"@,
            CliError::Utxo(UtxoError::Read(fault)) => e.text() == fault.text@,
            CliError::Utxo(UtxoError::Undecodable(_)) => "bincode decode failed: "@.is_prefix_of(
                e.text(),
            ),
        },
{
}

} // verus!
