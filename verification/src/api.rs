//! The answers of the HTTP interface.

use vstd::prelude::*;
use vstd::string::*;

use crate::codec::{hex_text, text_in_hex};
use crate::db::{
    confirmed_balance, global_metrics, is_global_metrics, receiver_rows, top_receivers, top_rows,
    GlobalMetrics, TopReceiverRow,
};
use crate::index::texts;
use crate::inspect::{
    all_cuttable, inspect_default, is_histogram, is_inspection, is_preview, prefix_stats,
    preview_keys, DefaultTreeInspect, PrefixStatsOut, PreviewKeysOut,
};
use crate::intelligence::{is_wallet_intelligence, wallet_intelligence, WalletIntelligence};
use crate::keys::{key_text, named_key, Address};
use crate::model::{every_slot, paid_to, saturated, valid_txs};
use crate::outputs::{addressable, stored_slots, DecodeFault};
use crate::store::{Lookup, Snapshot};
use crate::utxos::{
    decode_utxo_entry, output_rows, paying_txids, slot_rows, utxo_key, utxos_for, DecodedUtxo,
    UtxoError,
};
use crate::wallet_stats::{is_wallet_stats, wallet_stats, WalletStats};

verus! {

// ---------------------------------------------------------------------------
// Answers
// ---------------------------------------------------------------------------

/// The answer to a request: a value, or a status and a text.
#[derive(Debug)]
pub enum ApiReply<T> {
    Json(T),
    Failure { status: u16, text: String },
}

/// The status of a request that cannot be served as it stands.
pub const STATUS_BAD_REQUEST: u16 = 400;

/// The status of a request for what is not there.
pub const STATUS_NOT_FOUND: u16 = 404;

/// The status of a request that broke down on the way.
pub const STATUS_INTERNAL_ERROR: u16 = 500;

impl<T> ApiReply<T> {
    /// Whether the request was refused with this text.
    pub open spec fn refused(&self, message: Seq<char>) -> bool {
        self matches ApiReply::Failure { status, text } && *status == STATUS_BAD_REQUEST && text@
            == message
    }
}

fn refuse<T>(text: String) -> (r: ApiReply<T>)
    ensures
        r.refused(text@),
{
    ApiReply::Failure { status: STATUS_BAD_REQUEST, text }
}

/// What is said of a text that names no address.
pub open spec fn bad_address() -> Seq<char> {
    "invalid address base36"@
}

/// A value of the store in hexadecimal.
#[derive(Debug)]
pub struct ApiGetResp {
    pub txid: String,
    pub value_hex: String,
}

/// The balance of an address.
#[derive(Debug)]
pub struct ApiBalanceResp {
    pub address: String,
    pub confirmed_balance: u64,
}

/// The limit on the list of receivers.
pub const TOP_RECEIVERS_LIMIT: usize = 9999;

// ---------------------------------------------------------------------------
// Queries
// ---------------------------------------------------------------------------

/// What to look at in the default tree.
#[derive(Debug)]
pub struct InspectDefaultQ {
    pub sample: Option<usize>,
    pub top: Option<usize>,
    pub examples: Option<usize>,
}

/// How much of the histogram of the default tree to show.
#[derive(Debug)]
pub struct PrefixStatsQ {
    pub sample: Option<usize>,
    pub top: Option<usize>,
}

/// How many entries of the default tree to show.
#[derive(Debug)]
pub struct PreviewKeysQ {
    pub limit: Option<usize>,
}

/// The number that was asked for, or the usual one.
pub open spec fn or_usual(asked: Option<usize>, usual: usize) -> usize {
    match asked {
        Some(n) => n,
        None => usual,
    }
}

/// The number that was asked for, or the usual one.
pub fn asked_or_usual(asked: Option<usize>, usual: usize) -> (r: usize)
    ensures
        r == or_usual(asked, usual),
{
    match asked {
        Some(n) => n,
        None => usual,
    }
}

impl InspectDefaultQ {
    /// How many keys are sampled.
    pub fn sample(&self) -> (r: usize)
        ensures
            r == or_usual(self.sample, 10_000),
    {
        asked_or_usual(self.sample, 10_000)
    }

    /// How many buckets are shown.
    pub fn top(&self) -> (r: usize)
        ensures
            r == or_usual(self.top, 30),
    {
        asked_or_usual(self.top, 30)
    }

    /// How many entries are shown.
    pub fn examples(&self) -> (r: usize)
        ensures
            r == or_usual(self.examples, 30),
    {
        asked_or_usual(self.examples, 30)
    }
}

impl PrefixStatsQ {
    /// How many keys are sampled.
    pub fn sample(&self) -> (r: usize)
        ensures
            r == or_usual(self.sample, 20_000),
    {
        asked_or_usual(self.sample, 20_000)
    }

    /// How many buckets are shown.
    pub fn top(&self) -> (r: usize)
        ensures
            r == or_usual(self.top, 40),
    {
        asked_or_usual(self.top, 40)
    }
}

impl PreviewKeysQ {
    /// How many entries are shown.
    pub fn limit(&self) -> (r: usize)
        ensures
            r == or_usual(self.limit, 100),
    {
        asked_or_usual(self.limit, 100)
    }
}

// ---------------------------------------------------------------------------
// What is answered
// ---------------------------------------------------------------------------

/// How a request for a stored value is answered.
pub open spec fn replies_value(txid: Seq<char>, found: Lookup, r: ApiReply<ApiGetResp>) -> bool {
    if named_key(txid) is None {
        r.refused("invalid txid base36"@)
    } else {
        match found {
            Lookup::Failed(fault) => r.refused(fault.text@),
            Lookup::Missing => r matches ApiReply::Failure { status, text } && status
                == STATUS_NOT_FOUND && text@ == "not found"@,
            Lookup::Found(value) => r matches ApiReply::Json(resp) && resp.txid@ == txid
                && resp.value_hex@ == hex_text(value@),
        }
    }
}

/// How a request for the outputs of a transaction is answered.
pub open spec fn replies_outputs(txid: Seq<char>, found: Lookup, r: ApiReply<DecodedUtxo>) -> bool {
    match named_key(txid) {
        None => r.refused("invalid txid base36"@),
        Some(key) => match found {
            Lookup::Failed(fault) => r.refused(fault.text@),
            Lookup::Missing => r.refused("txid not found in db"@),
            Lookup::Found(value) => match stored_slots(value@) {
                None => exists|fault: DecodeFault|
                    (fault is TooManyOutputs <==> !addressable(value@)) && r.refused(
                        #[trigger] UtxoError::Undecodable(fault).text(),
                    ),
                Some(slots) => r matches ApiReply::Json(d) && d.txid@ == key_text(key)
                    && output_rows(d.outputs@) == slot_rows(slots),
            },
        },
    }
}

/// How a request for the transactions of an address is answered.
pub open spec fn replies_txids(address: Seq<char>, db: Snapshot, r: ApiReply<Vec<String>>) -> bool {
    match named_key(address) {
        None => r.refused(bad_address()),
        Some(key) => match db@.fault {
            Some(text) => r.refused(text),
            None => r matches ApiReply::Json(txids) && texts(txids@) == paying_txids(
                valid_txs(db@.entries),
                key,
            ),
        },
    }
}

/// How a request for the balance of an address is answered.
pub open spec fn replies_balance(address: Seq<char>, db: Snapshot, r: ApiReply<ApiBalanceResp>) -> bool {
    match named_key(address) {
        None => r.refused(bad_address()),
        Some(key) => match db@.fault {
            Some(text) => r.refused(text),
            None => r matches ApiReply::Json(resp) && resp.address@ == address
                && resp.confirmed_balance == saturated(paid_to(every_slot(db@.entries), key)),
        },
    }
}

/// How a request for the top receivers is answered.
pub open spec fn replies_receivers(db: Snapshot, r: ApiReply<Vec<TopReceiverRow>>) -> bool {
    match db@.fault {
        Some(text) => r.refused(text),
        None => r matches ApiReply::Json(rows) && receiver_rows(rows@) == top_rows(
            every_slot(db@.entries),
            TOP_RECEIVERS_LIMIT as nat,
        ),
    }
}

/// How a request for the summary of a wallet is answered.
pub open spec fn replies_stats(address: Seq<char>, db: Snapshot, r: ApiReply<WalletStats>) -> bool {
    match named_key(address) {
        None => r.refused(bad_address()),
        Some(key) => match db@.fault {
            Some(text) => r.refused(text),
            None => r matches ApiReply::Json(w) && is_wallet_stats(db@.entries, key, w),
        },
    }
}

/// How a request for a look at the default tree is answered.
pub open spec fn replies_inspection(
    q: InspectDefaultQ,
    db: Snapshot,
    r: ApiReply<DefaultTreeInspect>,
) -> bool {
    let sample = or_usual(q.sample, 10_000);
    let top = or_usual(q.top, 30);
    let examples = or_usual(q.examples, 30);
    if db@.fails_within(sample as int) || db@.fails_within(examples as int) {
        r.refused(db@.fault->0)
    } else {
        r matches ApiReply::Json(out) && is_inspection(db, sample, top, examples, out)
    }
}

/// How a request for the histogram of the default tree is answered.
pub open spec fn replies_histogram(
    q: PrefixStatsQ,
    db: Snapshot,
    r: ApiReply<PrefixStatsOut>,
) -> bool {
    let sample = or_usual(q.sample, 20_000);
    let top = or_usual(q.top, 40);
    if db@.fails_within(sample as int) {
        r.refused(db@.fault->0)
    } else {
        r matches ApiReply::Json(out) && is_histogram(db, sample, top, out)
    }
}

/// How a request for a preview of the default tree is answered.
pub open spec fn replies_preview(q: PreviewKeysQ, db: Snapshot, r: ApiReply<PreviewKeysOut>) -> bool {
    let limit = or_usual(q.limit, 100);
    if db@.fails_within(limit as int) {
        r.refused(db@.fault->0)
    } else {
        r matches ApiReply::Json(out) && is_preview(db, limit, out)
    }
}

// ---------------------------------------------------------------------------
// Requests
// ---------------------------------------------------------------------------

/// The totals of the default tree.
pub fn api_globals(db: &Snapshot) -> (r: ApiReply<GlobalMetrics>)
    requires
        db@.countable(),
    ensures
        match db@.fault {
            Some(text) => r.refused(text),
            None => r matches ApiReply::Json(g) && is_global_metrics(db@.entries, g),
        },
{
    match global_metrics(db) {
        Ok(g) => ApiReply::Json(g),
        Err(e) => refuse(e.text),
    }
}

/// The stored value of a transaction in hexadecimal, where `found` is what the store holds under
/// the key of the transaction.
pub fn api_get_txid(txid: String, found: &Lookup) -> (r: ApiReply<ApiGetResp>)
    ensures
        replies_value(txid@, *found, r),
{
    match utxo_key(txid.as_str()) {
        Err(e) => refuse(e.message()),
        Ok(_) => match found {
            Lookup::Failed(fault) => refuse(fault.text.clone()),
            Lookup::Missing => ApiReply::Failure {
                status: STATUS_NOT_FOUND,
                text: "not found".to_string(),
            },
            Lookup::Found(value) => ApiReply::Json(
                ApiGetResp { txid, value_hex: text_in_hex(value.as_slice()) },
            ),
        },
    }
}

/// The outputs of a transaction, where `found` is what the store holds under its key.
pub fn api_decode_txid(txid: &str, found: &Lookup) -> (r: ApiReply<DecodedUtxo>)
    ensures
        replies_outputs(txid@, *found, r),
{
    match decode_utxo_entry(txid, found) {
        Ok(d) => ApiReply::Json(d),
        Err(e) => {
            let r = refuse(e.message());
            assert(r.refused(e.text()));
            r
        },
    }
}

/// The transactions that hold an unspent output of an address.
pub fn api_utxos_for(address: &str, db: &Snapshot) -> (r: ApiReply<Vec<String>>)
    ensures
        replies_txids(address@, *db, r),
{
    match Address::new_from_base36(address) {
        None => refuse("invalid address base36".to_string()),
        Some(a) => match utxos_for(db, &a, None) {
            Ok(txids) => {
                proof {
                    let all = paying_txids(valid_txs(db@.entries), a@);
                    assert(all.take(all.len() as int) =~= all);
                }
                ApiReply::Json(txids)
            },
            Err(e) => refuse(e.text),
        },
    }
}

/// The confirmed balance of an address.
pub fn api_balance(address: String, db: &Snapshot) -> (r: ApiReply<ApiBalanceResp>)
    ensures
        replies_balance(address@, *db, r),
{
    match Address::new_from_base36(address.as_str()) {
        None => refuse("invalid address base36".to_string()),
        Some(a) => match confirmed_balance(db, &a) {
            Ok(confirmed_balance) => ApiReply::Json(ApiBalanceResp { address, confirmed_balance }),
            Err(e) => refuse(e.text),
        },
    }
}

/// The receivers with the largest sums of unspent outputs.
pub fn api_top_receivers(db: &Snapshot) -> (r: ApiReply<Vec<TopReceiverRow>>)
    ensures
        replies_receivers(*db, r),
{
    match top_receivers(db, TOP_RECEIVERS_LIMIT) {
        Ok(rows) => ApiReply::Json(rows),
        Err(e) => refuse(e.text),
    }
}

/// The wallets that stand out.
pub fn api_wallet_intelligence(db: &Snapshot) -> (r: ApiReply<WalletIntelligence>)
    requires
        db@.countable(),
    ensures
        match db@.fault {
            Some(text) => r.refused(text),
            None => r matches ApiReply::Json(w) && is_wallet_intelligence(db@.entries, w),
        },
{
    match wallet_intelligence(db) {
        Ok(w) => ApiReply::Json(w),
        Err(e) => refuse(e.text),
    }
}

/// The summary of a wallet.
pub fn api_wallet_stats(address: &str, db: &Snapshot) -> (r: ApiReply<WalletStats>)
    requires
        db@.countable(),
    ensures
        replies_stats(address@, *db, r),
{
    match Address::new_from_base36(address) {
        None => refuse("invalid address base36".to_string()),
        Some(a) => match wallet_stats(db, &a) {
            Ok(w) => ApiReply::Json(w),
            Err(e) => refuse(e.text),
        },
    }
}

/// A look at the default tree.
pub fn api_inspect_default(q: &InspectDefaultQ, db: &Snapshot) -> (r: ApiReply<DefaultTreeInspect>)
    requires
        all_cuttable(db@.first(or_usual(q.sample, 10_000) as int)),
        all_cuttable(db@.first(or_usual(q.examples, 30) as int)),
    ensures
        replies_inspection(*q, *db, r),
{
    match inspect_default(db, q.sample(), q.top(), q.examples()) {
        Ok(out) => ApiReply::Json(out),
        Err(e) => refuse(e.text),
    }
}

/// The histogram of the default tree.
pub fn api_prefix_stats(q: &PrefixStatsQ, db: &Snapshot) -> (r: ApiReply<PrefixStatsOut>)
    requires
        all_cuttable(db@.first(or_usual(q.sample, 20_000) as int)),
    ensures
        replies_histogram(*q, *db, r),
{
    match prefix_stats(db, q.sample(), q.top()) {
        Ok(out) => ApiReply::Json(out),
        Err(e) => refuse(e.text),
    }
}

/// A preview of the default tree.
pub fn api_preview_keys(q: &PreviewKeysQ, db: &Snapshot) -> (r: ApiReply<PreviewKeysOut>)
    requires
        all_cuttable(db@.first(or_usual(q.limit, 100) as int)),
    ensures
        replies_preview(*q, *db, r),
{
    match preview_keys(db, q.limit()) {
        Ok(out) => ApiReply::Json(out),
        Err(e) => refuse(e.text),
    }
}

} // verus!
