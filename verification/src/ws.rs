//! The answers of the WebSocket interface.

use vstd::prelude::*;
use vstd::string::*;

use crate::api::{asked_or_usual, or_usual, ApiBalanceResp, TOP_RECEIVERS_LIMIT};
use crate::db::{
    confirmed_balance, global_metrics, is_global_metrics, receiver_rows, top_receivers, top_rows,
    GlobalMetrics, TopReceiverRow,
};
use crate::index::texts;
use crate::keys::{key_text, named_key, Address};
use crate::model::{every_slot, paid_to, saturated, valid_txs};
use crate::outputs::{addressable, stored_slots, DecodeFault};
use crate::store::{
    default_entries, read_default, DbRequest, Lookup, RequestView, Snapshot, DEFAULT_TREE,
};
use crate::utxos::{
    decode_utxo_entry, output_rows, paying_txids, reached, room, slot_rows, utxo_key, utxos_for,
    DecodedUtxo, UtxoError,
};

verus! {

// ---------------------------------------------------------------------------
// Commands and responses
// ---------------------------------------------------------------------------

/// A command.
#[derive(Debug)]
pub enum WsCmd {
    Globals,
    Decode { txid: String },
    Balance { address: String },
    UtxosFor { address: String, limit: Option<usize> },
    TopReceivers { limit: Option<usize> },
}

/// How many transactions are listed where no limit is given.
pub const UTXOS_LIMIT: usize = 200;

/// The response to a command.
#[derive(Debug)]
pub struct WsResp<T> {
    pub ok: bool,
    pub cmd: String,
    pub data: Option<T>,
    pub error: Option<String>,
}

/// The data of a response.
#[derive(Debug)]
pub enum WsData {
    Globals(GlobalMetrics),
    Decoded(DecodedUtxo),
    Balance(ApiBalanceResp),
    Txids(Vec<String>),
    Receivers(Vec<TopReceiverRow>),
}

impl<T> WsResp<T> {
    /// The data of a response that reports success on a command, and nothing else.
    pub open spec fn success(&self, cmd: Seq<char>) -> Option<T> {
        if self.ok && self.cmd@ == cmd && self.error is None {
            self.data
        } else {
            None
        }
    }

    /// Whether the response reports this failure of a command, and nothing else.
    pub open spec fn failed(&self, cmd: Seq<char>, message: Seq<char>) -> bool {
        &&& !self.ok
        &&& self.cmd@ == cmd
        &&& self.data is None
        &&& self.error matches Some(text) && text@ == message
    }
}

/// A response that reports success.
pub fn ok<T>(cmd: &str, data: T) -> (r: WsResp<T>)
    ensures
        r.success(cmd@) == Some(data),
{
    WsResp { ok: true, cmd: cmd.to_string(), data: Some(data), error: None }
}

/// A response that reports a failure.
pub fn err<T>(cmd: &str, e: String) -> (r: WsResp<T>)
    ensures
        r.failed(cmd@, e@),
{
    WsResp { ok: false, cmd: cmd.to_string(), data: None, error: Some(e) }
}

/// The response to a message that is no command.
pub fn not_a_command<T>(e: String) -> (r: WsResp<T>)
    ensures
        r.failed("error"@, e@),
{
    err("error", e)
}

/// The name under which a command is answered.
pub open spec fn name_of(cmd: WsCmd) -> Seq<char> {
    match cmd {
        WsCmd::Globals => "globals"@,
        WsCmd::Decode { .. } => "decode"@,
        WsCmd::Balance { .. } => "balance"@,
        WsCmd::UtxosFor { .. } => "utxos_for"@,
        WsCmd::TopReceivers { .. } => "top_receivers"@,
    }
}

/// The name under which a command is answered.
pub fn command_name(cmd: &WsCmd) -> (r: &'static str)
    ensures
        r@ == name_of(*cmd),
{
    match cmd {
        WsCmd::Globals => "globals",
        WsCmd::Decode { .. } => "decode",
        WsCmd::Balance { .. } => "balance",
        WsCmd::UtxosFor { .. } => "utxos_for",
        WsCmd::TopReceivers { .. } => "top_receivers",
    }
}

// ---------------------------------------------------------------------------
// What a command reads
// ---------------------------------------------------------------------------

/// What a command reads; nothing where it fails before.
pub open spec fn reads(cmd: WsCmd) -> Option<RequestView> {
    match cmd {
        WsCmd::Globals | WsCmd::TopReceivers { .. } => Some(default_entries(None)),
        WsCmd::Decode { txid } => match named_key(txid@) {
            Some(key) => Some(
                RequestView::Value {
                    tree: DEFAULT_TREE@,
                    key: vstd::utf8::encode_utf8(key_text(key)),
                },
            ),
            None => None,
        },
        WsCmd::Balance { address } => if named_key(address@) is Some {
            Some(default_entries(None))
        } else {
            None
        },
        WsCmd::UtxosFor { address, .. } => if named_key(address@) is Some {
            Some(default_entries(None))
        } else {
            None
        },
    }
}

fn read_for_address(address: &str) -> (r: Option<DbRequest>)
    ensures
        match r {
            Some(request) => named_key(address@) is Some && request@ == default_entries(None),
            None => named_key(address@) is None,
        },
{
    match Address::new_from_base36(address) {
        Some(_) => Some(read_default(None)),
        None => None,
    }
}

/// What a command has to read from the store; nothing where it fails before.
pub fn request(cmd: &WsCmd) -> (r: Option<DbRequest>)
    ensures
        match r {
            Some(request) => reads(*cmd) == Some(request@),
            None => reads(*cmd) is None,
        },
{
    match cmd {
        WsCmd::Globals => Some(read_default(None)),
        WsCmd::TopReceivers { .. } => Some(read_default(None)),
        WsCmd::Decode { txid } => match utxo_key(txid.as_str()) {
            Ok(key) => Some(
                DbRequest::Value {
                    tree: DEFAULT_TREE.to_string(),
                    key: key.as_str().as_bytes_vec(),
                },
            ),
            Err(_) => None,
        },
        WsCmd::Balance { address } => read_for_address(address.as_str()),
        WsCmd::UtxosFor { address, .. } => read_for_address(address.as_str()),
    }
}

// ---------------------------------------------------------------------------
// How a command is answered
// ---------------------------------------------------------------------------

/// How a command is answered, where `db` is the default tree and `found` what it holds under the
/// key that the command asks for.
pub open spec fn answers(cmd: WsCmd, db: Snapshot, found: Lookup, r: WsResp<WsData>) -> bool {
    let name = name_of(cmd);
    match cmd {
        WsCmd::Globals => match db@.fault {
            Some(text) => r.failed(name, text),
            None => r.success(name) matches Some(WsData::Globals(g)) && is_global_metrics(
                db@.entries,
                g,
            ),
        },
        WsCmd::Decode { txid } => match named_key(txid@) {
            None => r.failed(name, "invalid txid base36"@),
            Some(key) => match found {
                Lookup::Failed(fault) => r.failed(name, fault.text@),
                Lookup::Missing => r.failed(name, "txid not found in db"@),
                Lookup::Found(value) => match stored_slots(value@) {
                    None => exists|fault: DecodeFault|
                        (fault is TooManyOutputs <==> !addressable(value@)) && r.failed(
                            name,
                            #[trigger] UtxoError::Undecodable(fault).text(),
                        ),
                    Some(slots) => r.success(name) matches Some(WsData::Decoded(d)) && d.txid@
                        == key_text(key) && output_rows(d.outputs@) == slot_rows(slots),
                },
            },
        },
        WsCmd::Balance { address } => match named_key(address@) {
            None => r.failed(name, "invalid address base36"@),
            Some(key) => match db@.fault {
                Some(text) => r.failed(name, text),
                None => r.success(name) matches Some(WsData::Balance(b)) && b.address@ == address@
                    && b.confirmed_balance == saturated(paid_to(every_slot(db@.entries), key)),
            },
        },
        WsCmd::UtxosFor { address, limit } => match named_key(address@) {
            None => r.failed(name, "invalid address base36"@),
            Some(key) => {
                let all = paying_txids(valid_txs(db@.entries), key);
                let limit = Some(or_usual(limit, UTXOS_LIMIT));
                if db@.fault is Some && !reached(all.len(), limit) {
                    r.failed(name, db@.fault->0)
                } else {
                    r.success(name) matches Some(WsData::Txids(txids)) && texts(txids@)
                        == all.take(room(all.len(), limit) as int)
                }
            },
        },
        WsCmd::TopReceivers { limit } => match db@.fault {
            Some(text) => r.failed(name, text),
            None => r.success(name) matches Some(WsData::Receivers(rows)) && receiver_rows(rows@)
                == top_rows(
                every_slot(db@.entries),
                or_usual(limit, TOP_RECEIVERS_LIMIT) as nat,
            ),
        },
    }
}

/// Answers a command.
pub fn dispatch(cmd: WsCmd, db: &Snapshot, found: &Lookup) -> (r: WsResp<WsData>)
    requires
        cmd is Globals ==> db@.countable(),
    ensures
        answers(cmd, *db, *found, r),
{
    let name = command_name(&cmd);
    match cmd {
        WsCmd::Globals => match global_metrics(db) {
            Ok(g) => ok(name, WsData::Globals(g)),
            Err(e) => err(name, e.text),
        },
        WsCmd::Decode { txid } => match decode_utxo_entry(txid.as_str(), found) {
            Ok(d) => ok(name, WsData::Decoded(d)),
            Err(e) => {
                let r = err(name, e.message());
                assert(r.failed(name@, e.text()));
                r
            },
        },
        WsCmd::Balance { address } => match Address::new_from_base36(address.as_str()) {
            None => err(name, "invalid address base36".to_string()),
            Some(a) => match confirmed_balance(db, &a) {
                Ok(confirmed_balance) => ok(
                    name,
                    WsData::Balance(ApiBalanceResp { address, confirmed_balance }),
                ),
                Err(e) => err(name, e.text),
            },
        },
        WsCmd::UtxosFor { address, limit } => {
            let limit: usize = asked_or_usual(limit, UTXOS_LIMIT);
            match Address::new_from_base36(address.as_str()) {
                None => err(name, "invalid address base36".to_string()),
                Some(a) => match utxos_for(db, &a, Some(limit)) {
                    Ok(txids) => ok(name, WsData::Txids(txids)),
                    Err(e) => err(name, e.text),
                },
            }
        },
        WsCmd::TopReceivers { limit } => match top_receivers(
            db,
            asked_or_usual(limit, TOP_RECEIVERS_LIMIT),
        ) {
            Ok(rows) => ok(name, WsData::Receivers(rows)),
            Err(e) => err(name, e.text),
        },
    }
}

} // verus!
