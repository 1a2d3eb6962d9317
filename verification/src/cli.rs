//! The commands of the command line: what they read, and what they print.

use vstd::prelude::*;
use vstd::string::*;

use crate::codec::{hex_text, key_spec_reading, parse_key_spec, text_in_hex, HexFault, KeySpecError};
use crate::db::{
    confirmed_balance, global_metrics, is_global_metrics, top_receivers, top_rows, GlobalMetrics,
};
use crate::index::texts;
use crate::inspect::{
    all_cuttable, first_are_cuttable, inspect_default_tree, is_histogram, is_inspection, key_rows,
    prefix_stats, preview, DefaultTreeInspect, PrefixStatsOut,
};
use crate::intelligence::{is_wallet_intelligence, wallet_intelligence, WalletIntelligence};
use crate::keys::{key_text, named_key, Address, TxId};
use crate::lines::{
    add_line, all_entry_lines, decoded_lines, labelled_text, no_lines, numbered, numbered_text,
    preview_lines, preview_text, print_decoded_outputs, print_entry, print_receivers, printed,
    printed_text, receiver_lines,
};
use crate::model::{entry_tx, every_slot, paid_to, saturated, valid_txs, StoredEntry};
use crate::outputs::{addressable, stored_slots};
use crate::store::{
    default_entries, read_default, DbRequest, Lookup, ReadFault, RequestView, Snapshot,
    DEFAULT_TREE,
};
use crate::text::{decimal, decimal_text};
use crate::utxos::{
    decode_utxo_entry, list_txids, paying_txids, reached, room, slot_rows, utxo_key, UtxoError,
};
use crate::wallet_stats::{is_wallet_stats, wallet_stats, WalletStats};

verus! {

// ---------------------------------------------------------------------------
// Commands
// ---------------------------------------------------------------------------

/// A command of the command line.
#[derive(Debug)]
pub enum Cmd {
    /// Show the entries of a tree, those whose keys begin with a prefix.
    Scan { tree: String, limit: usize, prefix: Option<String>, show_values: bool },
    /// Show what a tree holds under a key.
    Get { tree: String, key: String, show_value: bool },
    /// Show the outputs of a transaction.
    DecodeUtxos { txid: String },
    /// Show the transactions that hold an unspent output of an address.
    UtxosForAddress { address: String, limit: usize },
    /// Show the confirmed balance of an address.
    Balance { address: String },
    /// Show the receivers with the largest sums of unspent outputs.
    TopReceivers { limit: usize },
    /// Show the totals of the default tree.
    Globals,
    /// Show the wallets that stand out.
    WalletIntelligence,
    /// Show the summary of a wallet.
    WalletStats { address: String },
    /// Look at the keys of the default tree, with sample entries.
    InspectDefault { sample: usize, top: usize, examples: usize },
    /// Show the histogram of the keys of the default tree.
    PrefixStats { sample: usize, top: usize },
    /// Show the first entries of the default tree.
    PreviewKeys { limit: usize },
}

/// Why a command fails.
#[derive(Debug)]
pub enum CliError {
    /// A key specification cannot be read.
    KeySpec(KeySpecError),
    /// The text names no address.
    InvalidAddress,
    /// The tree holds nothing under the key.
    KeyNotFound,
    /// The store could not be read.
    Read(ReadFault),
    /// The outputs of a transaction cannot be shown.
    Utxo(UtxoError),
}

impl CliError {
    /// The message of the error.
    pub open spec fn text(&self) -> Seq<char> {
        match self {
            CliError::KeySpec(e) => "invalid hex key spec: "@ + e.spec@,
            CliError::InvalidAddress => "invalid address base36"@,
            CliError::KeyNotFound => "key not found"@,
            CliError::Read(e) => e.text@,
            CliError::Utxo(e) => e.text(),
        }
    }

    /// The message of the error.
    pub fn message(&self) -> (r: String)
        ensures
            r@ == self.text(),
    {
        match self {
            CliError::KeySpec(e) => labelled_text("invalid hex key spec: ", e.spec.as_str()),
            CliError::InvalidAddress => "invalid address base36".to_string(),
            CliError::KeyNotFound => "key not found".to_string(),
            CliError::Read(e) => e.text.clone(),
            CliError::Utxo(e) => e.message(),
        }
    }
}

// ---------------------------------------------------------------------------
// What a command reads
// ---------------------------------------------------------------------------

/// The larger of two numbers.
pub open spec fn larger(a: usize, b: usize) -> usize {
    if a < b {
        b
    } else {
        a
    }
}

/// What an address command reads: everything, once its address was understood.
pub open spec fn address_request(address: Seq<char>) -> Result<RequestView, Seq<char>> {
    if named_key(address) is Some {
        Ok(default_entries(None))
    } else {
        Err("invalid address base36"@)
    }
}

/// What a command reads, or the message with which it fails before it reads anything.
pub open spec fn request_of(cmd: Cmd) -> Result<RequestView, Seq<char>> {
    match cmd {
        Cmd::Scan { tree, limit, prefix, .. } => {
            let at_most = Some(larger(limit, 1));
            match prefix {
                Some(spec) => match key_spec_reading(spec@) {
                    Ok(key) => Ok(RequestView::Entries { tree: tree@, prefix: key, at_most }),
                    Err(_) => Err("invalid hex key spec: "@ + spec@),
                },
                None => Ok(RequestView::Entries { tree: tree@, prefix: seq![], at_most }),
            }
        },
        Cmd::Get { tree, key, .. } => match key_spec_reading(key@) {
            Ok(key) => Ok(RequestView::Value { tree: tree@, key }),
            Err(_) => Err("invalid hex key spec: "@ + key@),
        },
        Cmd::DecodeUtxos { txid } => match named_key(txid@) {
            Some(key) => Ok(
                RequestView::Value {
                    tree: DEFAULT_TREE@,
                    key: vstd::utf8::encode_utf8(key_text(key)),
                },
            ),
            None => Err("invalid txid base36"@),
        },
        Cmd::UtxosForAddress { address, .. } => address_request(address@),
        Cmd::Balance { address } => address_request(address@),
        Cmd::WalletStats { address } => address_request(address@),
        Cmd::TopReceivers { .. } | Cmd::Globals | Cmd::WalletIntelligence => Ok(
            default_entries(None),
        ),
        Cmd::InspectDefault { sample, examples, .. } => Ok(
            default_entries(Some(larger(sample, examples))),
        ),
        Cmd::PrefixStats { sample, .. } => Ok(default_entries(Some(sample))),
        Cmd::PreviewKeys { limit } => Ok(default_entries(Some(limit))),
    }
}

fn max_of(a: usize, b: usize) -> (r: usize)
    ensures
        r == larger(a, b),
{
    if a < b {
        b
    } else {
        a
    }
}

fn parse_address(address: &str) -> (r: Result<Address, CliError>)
    ensures
        match r {
            Ok(a) => named_key(address@) == Some(a@),
            Err(e) => named_key(address@) is None && e is InvalidAddress,
        },
{
    match Address::new_from_base36(address) {
        Some(a) => Ok(a),
        None => Err(CliError::InvalidAddress),
    }
}

fn parse_key(spec: &str) -> (r: Result<Vec<u8>, CliError>)
    ensures
        match r {
            Ok(key) => key_spec_reading(spec@) == Ok::<Seq<u8>, HexFault>(key@),
            Err(e) => e matches CliError::KeySpec(k) && k.spec@ == spec@ && key_spec_reading(spec@)
                == Err::<Seq<u8>, HexFault>(k.cause),
        },
{
    match parse_key_spec(spec) {
        Ok(key) => Ok(key),
        Err(e) => Err(CliError::KeySpec(e)),
    }
}

fn plan_address(address: &str) -> (r: Result<DbRequest, CliError>)
    ensures
        match r {
            Ok(request) => address_request(address@) == Ok::<RequestView, Seq<char>>(request@),
            Err(e) => address_request(address@) == Err::<RequestView, Seq<char>>(e.text()),
        },
{
    match parse_address(address) {
        Ok(_) => Ok(read_default(None)),
        Err(e) => Err(e),
    }
}

/// What a command has to read from the store.
pub fn plan(cmd: &Cmd) -> (r: Result<DbRequest, CliError>)
    ensures
        match r {
            Ok(request) => request_of(*cmd) == Ok::<RequestView, Seq<char>>(request@),
            Err(e) => request_of(*cmd) == Err::<RequestView, Seq<char>>(e.text()),
        },
{
    match cmd {
        Cmd::Scan { tree, limit, prefix, .. } => {
            let at_most: Option<usize> = Some(max_of(*limit, 1));
            let prefix: Vec<u8> = match prefix {
                Some(spec) => match parse_key(spec.as_str()) {
                    Ok(key) => key,
                    Err(e) => {
                        return Err(e);
                    },
                },
                None => {
                    let none: Vec<u8> = Vec::new();
                    assert(none@ =~= seq![]);
                    none
                },
            };
            Ok(DbRequest::Entries { tree: tree.clone(), prefix, at_most })
        },
        Cmd::Get { tree, key, .. } => match parse_key(key.as_str()) {
            Ok(key) => Ok(DbRequest::Value { tree: tree.clone(), key }),
            Err(e) => Err(e),
        },
        Cmd::DecodeUtxos { txid } => match utxo_key(txid.as_str()) {
            Ok(key) => Ok(
                DbRequest::Value {
                    tree: DEFAULT_TREE.to_string(),
                    key: key.as_str().as_bytes_vec(),
                },
            ),
            Err(e) => Err(CliError::Utxo(e)),
        },
        Cmd::UtxosForAddress { address, .. } => plan_address(address.as_str()),
        Cmd::Balance { address } => plan_address(address.as_str()),
        Cmd::WalletStats { address } => plan_address(address.as_str()),
        Cmd::TopReceivers { .. } => Ok(read_default(None)),
        Cmd::Globals => Ok(read_default(None)),
        Cmd::WalletIntelligence => Ok(read_default(None)),
        Cmd::InspectDefault { sample, examples, .. } => Ok(
            read_default(Some(max_of(*sample, *examples))),
        ),
        Cmd::PrefixStats { sample, .. } => Ok(read_default(Some(*sample))),
        Cmd::PreviewKeys { limit } => Ok(read_default(Some(*limit))),
    }
}

// ---------------------------------------------------------------------------
// What a command prints
// ---------------------------------------------------------------------------

/// What a command prints as a whole.
#[derive(Debug)]
pub enum Report {
    Globals(GlobalMetrics),
    Intelligence(WalletIntelligence),
    Stats(WalletStats),
    Inspection(DefaultTreeInspect),
    Histogram(PrefixStatsOut),
}

/// What a command prints: its lines, then its report, if it has one; and why it failed, if it did.
#[derive(Debug)]
pub struct CliRun {
    pub lines: Vec<String>,
    pub report: Option<Report>,
    pub failure: Option<CliError>,
}

impl CliRun {
    /// Whether the command printed these lines and no more, and succeeded.
    pub open spec fn printed(&self, lines: Seq<Seq<char>>) -> bool {
        texts(self.lines@) == lines && self.report is None && self.failure is None
    }

    /// Whether the command printed these lines and no more, and failed with this message.
    pub open spec fn failed(&self, lines: Seq<Seq<char>>, message: Seq<char>) -> bool {
        &&& texts(self.lines@) == lines
        &&& self.report is None
        &&& self.failure matches Some(e) && e.text() == message
    }

    /// Whether the command printed nothing and failed because the outputs of a transaction do not
    /// decode; `too_many` says whether that is for their number.
    pub open spec fn undecodable(&self, too_many: bool) -> bool {
        &&& self.lines@.len() == 0
        &&& self.report is None
        &&& self.failure matches Some(CliError::Utxo(UtxoError::Undecodable(fault))) && (
        fault is TooManyOutputs <==> too_many)
    }

    /// The report of a command that printed nothing else, and succeeded.
    pub open spec fn sole_report(&self) -> Option<Report> {
        if self.lines@.len() == 0 && self.failure is None {
            self.report
        } else {
            None
        }
    }
}

/// The lines of a value: the lengths, the key and, if asked for, the value, in hexadecimal.
pub open spec fn value_lines(key: Seq<u8>, value: Seq<u8>, show_value: bool) -> Seq<Seq<char>> {
    let head = seq![
        "key_len="@ + decimal(key.len()) + " value_len="@ + decimal(value.len()),
        "key_hex="@ + hex_text(key),
    ];
    if show_value {
        head.push("value_hex="@ + hex_text(value))
    } else {
        head
    }
}

/// The canonical text of each transaction id.
pub open spec fn canonical(txids: Seq<Seq<char>>) -> Seq<Seq<char>> {
    Seq::new(txids.len(), |i: int| key_text(named_key(txids[i])->0))
}

/// What a scan of entries prints: each of them up to the limit, and how many there were.
pub open spec fn scan_prints(db: Snapshot, limit: usize, show_values: bool, run: CliRun) -> bool {
    let entries = db@.entries;
    let n = room(entries.len(), Some(limit));
    let shown = all_entry_lines(entries.take(n as int), show_values);
    if db@.fault is Some && !reached(entries.len(), Some(limit)) {
        run.failed(shown, db@.fault->0)
    } else {
        run.printed(shown.push(printed(n, " entries"@)))
    }
}

/// What a search for the transactions of an address prints: each of them up to the limit, and how
/// many there were.
pub open spec fn search_prints(db: Snapshot, key: Seq<u8>, limit: usize, run: CliRun) -> bool {
    let all = paying_txids(valid_txs(db@.entries), key);
    let n = room(all.len(), Some(limit));
    let shown = canonical(all.take(n as int));
    if db@.fault is Some && !reached(all.len(), Some(limit)) {
        run.failed(shown, db@.fault->0)
    } else {
        run.printed(shown.push(printed(n, " txids"@)))
    }
}

/// What is printed of a balance: the address and the sum of its unspent outputs.
pub open spec fn balance_prints(db: Snapshot, key: Seq<u8>, run: CliRun) -> bool {
    match db@.fault {
        Some(text) => run.failed(seq![], text),
        None => run.printed(
            seq![
                "address="@ + key_text(key),
                numbered(
                    "confirmed_balance="@,
                    saturated(paid_to(every_slot(db@.entries), key)) as nat,
                ),
            ],
        ),
    }
}

/// What a preview prints: the first entries, and how many there were.
pub open spec fn preview_prints(db: Snapshot, limit: usize, run: CliRun) -> bool {
    let seen = db@.first(limit as int);
    let shown = preview_lines(key_rows(seen));
    if db@.fails_within(limit as int) {
        run.failed(shown, db@.fault->0)
    } else {
        run.printed(shown.push(printed(seen.len(), " keys"@)))
    }
}

/// What the command prints, where `db` is the part of the store that it reads and `found` what the
/// store holds under the key that it asks for.
pub open spec fn prints(cmd: Cmd, db: Snapshot, found: Lookup, run: CliRun) -> bool {
    match request_of(cmd) {
        Err(message) => run.failed(seq![], message),
        Ok(_) => match cmd {
            Cmd::Scan { limit, show_values, .. } => scan_prints(db, limit, show_values, run),
            Cmd::Get { key, show_value, .. } => match found {
                Lookup::Failed(fault) => run.failed(seq![], fault.text@),
                Lookup::Missing => run.failed(seq![], "key not found"@),
                Lookup::Found(value) => run.printed(
                    value_lines(key_spec_reading(key@)->Ok_0, value@, show_value),
                ),
            },
            Cmd::DecodeUtxos { txid } => match found {
                Lookup::Failed(fault) => run.failed(seq![], fault.text@),
                Lookup::Missing => run.failed(seq![], "txid not found in db"@),
                Lookup::Found(value) => match stored_slots(value@) {
                    Some(slots) => run.printed(
                        decoded_lines(key_text(named_key(txid@)->0), slot_rows(slots)),
                    ),
                    None => run.undecodable(!addressable(value@)),
                },
            },
            Cmd::UtxosForAddress { address, limit } => search_prints(
                db,
                named_key(address@)->0,
                limit,
                run,
            ),
            Cmd::Balance { address } => balance_prints(db, named_key(address@)->0, run),
            Cmd::TopReceivers { limit } => match db@.fault {
                Some(text) => run.failed(seq![], text),
                None => run.printed(
                    receiver_lines(top_rows(every_slot(db@.entries), limit as nat)),
                ),
            },
            Cmd::Globals => match db@.fault {
                Some(text) => run.failed(seq![], text),
                None => run.sole_report() matches Some(Report::Globals(g)) && is_global_metrics(
                    db@.entries,
                    g,
                ),
            },
            Cmd::WalletIntelligence => match db@.fault {
                Some(text) => run.failed(seq![], text),
                None => run.sole_report() matches Some(Report::Intelligence(w))
                    && is_wallet_intelligence(db@.entries, w),
            },
            Cmd::WalletStats { address } => match db@.fault {
                Some(text) => run.failed(seq![], text),
                None => run.sole_report() matches Some(Report::Stats(w)) && is_wallet_stats(
                    db@.entries,
                    named_key(address@)->0,
                    w,
                ),
            },
            Cmd::InspectDefault { sample, top, examples } => if db@.fails_within(sample as int)
                || db@.fails_within(examples as int) {
                run.failed(seq![], db@.fault->0)
            } else {
                run.sole_report() matches Some(Report::Inspection(out)) && is_inspection(
                    db,
                    sample,
                    top,
                    examples,
                    out,
                )
            },
            Cmd::PrefixStats { sample, top } => if db@.fails_within(sample as int) {
                run.failed(seq![], db@.fault->0)
            } else {
                run.sole_report() matches Some(Report::Histogram(out)) && is_histogram(
                    db,
                    sample,
                    top,
                    out,
                )
            },
            Cmd::PreviewKeys { limit } => preview_prints(db, limit, run),
        },
    }
}

/// Whether a command can be run on this part of the store: counts fit, and names of buckets end or
/// are cut between two characters.
pub open spec fn runnable(cmd: Cmd, db: Snapshot) -> bool {
    match cmd {
        Cmd::Globals | Cmd::WalletIntelligence | Cmd::WalletStats { .. } => db@.countable(),
        Cmd::InspectDefault { sample, examples, .. } => all_cuttable(db@.first(sample as int))
            && all_cuttable(db@.first(examples as int)),
        Cmd::PrefixStats { sample, .. } => all_cuttable(db@.first(sample as int)),
        Cmd::PreviewKeys { limit } => all_cuttable(db@.first(limit as int)),
        _ => true,
    }
}

/// Whether a command can be run on this part of the store.
pub fn is_runnable(cmd: &Cmd, db: &Snapshot) -> (r: bool)
    ensures
        r == runnable(*cmd, *db),
{
    match cmd {
        Cmd::Globals => db.is_countable(),
        Cmd::WalletIntelligence => db.is_countable(),
        Cmd::WalletStats { .. } => db.is_countable(),
        Cmd::InspectDefault { sample, examples, .. } => first_are_cuttable(db, *sample)
            && first_are_cuttable(db, *examples),
        Cmd::PrefixStats { sample, .. } => first_are_cuttable(db, *sample),
        Cmd::PreviewKeys { limit } => first_are_cuttable(db, *limit),
        _ => true,
    }
}

// ---------------------------------------------------------------------------
// Running
// ---------------------------------------------------------------------------

fn success(lines: Vec<String>) -> (run: CliRun)
    ensures
        run.printed(texts(lines@)),
{
    CliRun { lines, report: None, failure: None }
}

fn failure(lines: Vec<String>, e: CliError) -> (run: CliRun)
    ensures
        run.failed(texts(lines@), e.text()),
        run.failure == Some(e),
        run.lines == lines,
{
    CliRun { lines, report: None, failure: Some(e) }
}

fn fail(e: CliError) -> (run: CliRun)
    ensures
        run.failed(seq![], e.text()),
        run.failure == Some(e),
        run.lines@.len() == 0,
{
    let lines = no_lines();
    assert(texts(lines@).len() == lines@.len());
    failure(lines, e)
}

fn read_failure(e: ReadFault) -> (run: CliRun)
    ensures
        run.failed(seq![], e.text@),
{
    fail(CliError::Read(e))
}

fn report(r: Report) -> (run: CliRun)
    ensures
        run.sole_report() == Some(r),
{
    CliRun { lines: Vec::new(), report: Some(r), failure: None }
}

fn run_scan(db: &Snapshot, limit: usize, show_values: bool) -> (run: CliRun)
    ensures
        scan_prints(*db, limit, show_values, run),
{
    let ghost entries = db@.entries;
    let mut lines = no_lines();
    let mut count: usize = 0;
    assert(entries.take(0) =~= seq![]);
    while count < db.entries.len()
        invariant
            count <= db.entries.len(),
            entries == db@.entries,
            !reached(count as nat, Some(limit)),
            texts(lines@) == all_entry_lines(entries.take(count as int), show_values),
        decreases db.entries.len() - count,
    {
        proof {
            assert(entries.take(count + 1).drop_last() =~= entries.take(count as int));
            assert(entries.take(count + 1).last() == entries[count as int]);
        }
        print_entry(&mut lines, &db.entries[count], show_values);
        count = count + 1;
        if count >= limit {
            add_line(&mut lines, printed_text(count, " entries"));
            return success(lines);
        }
    }
    match db.full_read() {
        Ok(()) => {
            add_line(&mut lines, printed_text(count, " entries"));
            success(lines)
        },
        Err(e) => failure(lines, CliError::Read(e)),
    }
}

fn run_get(key: &str, show_value: bool, found: &Lookup) -> (run: CliRun)
    requires
        key_spec_reading(key@) is Ok,
    ensures
        match found {
            Lookup::Failed(fault) => run.failed(seq![], fault.text@),
            Lookup::Missing => run.failed(seq![], "key not found"@),
            Lookup::Found(value) => run.printed(
                value_lines(key_spec_reading(key@)->Ok_0, value@, show_value),
            ),
        },
{
    let key = match parse_key(key) {
        Ok(key) => key,
        Err(e) => {
            return fail(e);
        },
    };
    match found {
        Lookup::Failed(fault) => read_failure(ReadFault { text: fault.text.clone() }),
        Lookup::Missing => fail(CliError::KeyNotFound),
        Lookup::Found(value) => {
            let mut lines = no_lines();
            let mut head = numbered_text("key_len=", key.len() as u64);
            head.append(" value_len=");
            head.append(decimal_text(value.len() as u64).as_str());
            add_line(&mut lines, head);
            let key_hex = text_in_hex(key.as_slice());
            add_line(&mut lines, labelled_text("key_hex=", key_hex.as_str()));
            if show_value {
                let value_hex = text_in_hex(value.as_slice());
                add_line(&mut lines, labelled_text("value_hex=", value_hex.as_str()));
            }
            assert(texts(lines@) =~= value_lines(key@, value@, show_value));
            success(lines)
        },
    }
}

fn run_decode(txid: &str, found: &Lookup) -> (run: CliRun)
    requires
        named_key(txid@) is Some,
    ensures
        match found {
            Lookup::Failed(fault) => run.failed(seq![], fault.text@),
            Lookup::Missing => run.failed(seq![], "txid not found in db"@),
            Lookup::Found(value) => match stored_slots(value@) {
                Some(slots) => run.printed(
                    decoded_lines(key_text(named_key(txid@)->0), slot_rows(slots)),
                ),
                None => run.undecodable(!addressable(value@)),
            },
        },
{
    match decode_utxo_entry(txid, found) {
        Ok(decoded) => success(print_decoded_outputs(decoded.txid.as_str(), &decoded.outputs)),
        Err(e) => fail(CliError::Utxo(e)),
    }
}

fn run_search(db: &Snapshot, address: &Address, limit: usize) -> (run: CliRun)
    ensures
        search_prints(*db, address@, limit, run),
{
    let list = list_txids(db, address, Some(limit));
    let ghost all = paying_txids(valid_txs(db@.entries), address@);
    let ghost shown = all.take(room(all.len(), Some(limit)) as int);
    let mut lines = no_lines();
    let mut i: usize = 0;
    proof {
        lemma_paying_are_named(db@.entries, address@);
        assert(texts(list.txids@).len() == list.txids@.len());
        assert(canonical(shown).take(0) =~= seq![]);
    }
    while i < list.txids.len()
        invariant
            i <= list.txids.len(),
            texts(list.txids@) == shown,
            shown.len() == list.txids@.len(),
            forall|j: int| 0 <= j < shown.len() ==> named_key(#[trigger] shown[j]) is Some,
            texts(lines@) == canonical(shown).take(i as int),
        decreases list.txids.len() - i,
    {
        assert(shown[i as int] == list.txids@[i as int]@);
        if let Some(txid) = TxId::new_from_base36(list.txids[i].as_str()) {
            add_line(&mut lines, txid.dump_base36());
        }
        proof {
            let c = canonical(shown);
            assert(c.take(i + 1) =~= c.take(i as int).push(c[i as int]));
        }
        i += 1;
    }
    assert(canonical(shown).take(i as int) =~= canonical(shown));
    match list.fault {
        Some(e) => failure(lines, CliError::Read(e)),
        None => {
            add_line(&mut lines, printed_text(list.txids.len(), " txids"));
            success(lines)
        },
    }
}

/// The transactions of an address are named by their ids.
proof fn lemma_paying_are_named(entries: Seq<StoredEntry>, key: Seq<u8>)
    ensures
        forall|i: int|
            0 <= i < paying_txids(valid_txs(entries), key).len() ==> named_key(
                #[trigger] paying_txids(valid_txs(entries), key)[i],
            ) is Some,
    decreases entries.len(),
{
    if entries.len() > 0 {
        let rest = entries.drop_last();
        lemma_paying_are_named(rest, key);
        if let Some(tx) = entry_tx(entries.last()) {
            assert(valid_txs(rest).push(tx).drop_last() =~= valid_txs(rest));
            let before = paying_txids(valid_txs(rest), key);
            let now = paying_txids(valid_txs(entries), key);
            assert forall|i: int| 0 <= i < now.len() implies named_key(#[trigger] now[i]) is Some by {
                if i < before.len() {
                    assert(now[i] == before[i]);
                }
            }
        }
    }
}

fn run_balance(db: &Snapshot, address: &Address) -> (run: CliRun)
    ensures
        balance_prints(*db, address@, run),
{
    match confirmed_balance(db, address) {
        Ok(balance) => {
            let mut lines = no_lines();
            let text = address.dump_base36();
            add_line(&mut lines, labelled_text("address=", text.as_str()));
            add_line(&mut lines, numbered_text("confirmed_balance=", balance));
            assert(texts(lines@) =~= seq![
                "address="@ + key_text(address@),
                numbered("confirmed_balance="@, balance as nat),
            ]);
            success(lines)
        },
        Err(e) => read_failure(e),
    }
}

fn run_preview(db: &Snapshot, limit: usize) -> (run: CliRun)
    requires
        all_cuttable(db@.first(limit as int)),
    ensures
        preview_prints(*db, limit, run),
{
    let ghost seen = db@.first(limit as int);
    let ghost all = preview_lines(key_rows(seen));
    let mut lines = no_lines();
    let mut i: usize = 0;
    assert(all.take(0) =~= seq![]);
    while i < db.entries.len() && i < limit
        invariant
            i <= db.entries.len(),
            i <= limit,
            seen == db@.first(limit as int),
            all == preview_lines(key_rows(seen)),
            all_cuttable(seen),
            texts(lines@) == all.take(i as int),
        decreases db.entries.len() - i,
    {
        assert(seen[i as int] == db@.entries[i as int]);
        let row = preview(&db.entries[i]);
        add_line(&mut lines, preview_text(&row));
        proof {
            assert(key_rows(seen)[i as int] == row@);
            assert(all.take(i + 1) =~= all.take(i as int).push(all[i as int]));
        }
        i += 1;
    }
    assert(all.take(i as int) =~= all);
    match db.read_first(limit) {
        Ok(count) => {
            add_line(&mut lines, printed_text(count, " keys"));
            success(lines)
        },
        Err(e) => failure(lines, CliError::Read(e)),
    }
}

/// Runs a command, where `db` is the part of the store that [`plan`] asks for, and `found` what the
/// store holds under the key that it asks for.
pub fn run_cli(cmd: &Cmd, db: &Snapshot, found: &Lookup) -> (run: CliRun)
    requires
        runnable(*cmd, *db),
    ensures
        prints(*cmd, *db, *found, run),
{
    if let Err(e) = plan(cmd) {
        return fail(e);
    }
    match cmd {
        Cmd::Scan { limit, show_values, .. } => run_scan(db, *limit, *show_values),
        Cmd::Get { key, show_value, .. } => run_get(key.as_str(), *show_value, found),
        Cmd::DecodeUtxos { txid } => run_decode(txid.as_str(), found),
        Cmd::UtxosForAddress { address, limit } => match parse_address(address.as_str()) {
            Ok(a) => run_search(db, &a, *limit),
            Err(e) => fail(e),
        },
        Cmd::Balance { address } => match parse_address(address.as_str()) {
            Ok(a) => run_balance(db, &a),
            Err(e) => fail(e),
        },
        Cmd::TopReceivers { limit } => match top_receivers(db, *limit) {
            Ok(rows) => success(print_receivers(&rows)),
            Err(e) => read_failure(e),
        },
        Cmd::Globals => match global_metrics(db) {
            Ok(g) => report(Report::Globals(g)),
            Err(e) => read_failure(e),
        },
        Cmd::WalletIntelligence => match wallet_intelligence(db) {
            Ok(w) => report(Report::Intelligence(w)),
            Err(e) => read_failure(e),
        },
        Cmd::WalletStats { address } => match parse_address(address.as_str()) {
            Ok(a) => match wallet_stats(db, &a) {
                Ok(w) => report(Report::Stats(w)),
                Err(e) => read_failure(e),
            },
            Err(e) => fail(e),
        },
        Cmd::InspectDefault { sample, top, examples } => match inspect_default_tree(
            db,
            *sample,
            *top,
            *examples,
        ) {
            Ok(out) => report(Report::Inspection(out)),
            Err(e) => read_failure(e),
        },
        Cmd::PrefixStats { sample, top } => match prefix_stats(db, *sample, *top) {
            Ok(out) => report(Report::Histogram(out)),
            Err(e) => read_failure(e),
        },
        Cmd::PreviewKeys { limit } => run_preview(db, *limit),
    }
}

} // verus!
