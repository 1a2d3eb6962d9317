//! How the HTTP and the WebSocket interface answer, and that they agree.

use vstd::prelude::*;
use vstd::utf8::encode_utf8;

use crate::answer_laws::{
    lemma_paying_are_filtered, listed, tells_slot, transactions_are_shown_as_stored,
};
use crate::api::{
    replies_balance, replies_histogram, replies_inspection, replies_outputs, replies_preview,
    replies_receivers, replies_stats, replies_txids, replies_value, ApiBalanceResp, ApiGetResp,
    ApiReply, InspectDefaultQ, PrefixStatsQ, PreviewKeysQ,
};
use crate::codec::{hex_reading, hex_text_reads_back, HexFault};
use crate::counting::{amounts, held, is_of, is_paying, sum, sums_are_of_slots};
use crate::db::{is_global_metrics, receiver_rows, top_rows, TopReceiverRow};
use crate::index::texts;
use crate::inspect::{
    is_histogram, is_inspection, is_preview, DefaultTreeInspect, PrefixStatsOut, PreviewKeysOut,
};
use crate::keys::{key_text, named_key};
use crate::model::{every_slot, valid_txs};
use crate::outputs::stored_slots;
use crate::print_laws::from_default;
use crate::store::{Lookup, RequestView, Snapshot};
use crate::utxos::DecodedUtxo;
use crate::wallet_stats::{is_wallet_stats, WalletStats};
use crate::ws::{answers, reads, WsCmd, WsData, WsResp};

verus! {

// ---------------------------------------------------------------------------
// HTTP
// ---------------------------------------------------------------------------

/// Whether a request was refused as a bad one, with this text.
pub open spec fn is_bad_request<T>(r: ApiReply<T>, message: Seq<char>) -> bool {
    r matches ApiReply::Failure { status, text } && status == 400 && text@ == message
}

/// A stored value is answered under the id that was asked for, in hexadecimal that reads back as
/// the value. It is not found where the store holds none, and a bad request where the id names
/// nothing or the store could not be read.
pub proof fn values_are_answered_in_hexadecimal(
    txid: Seq<char>,
    found: Lookup,
    r: ApiReply<ApiGetResp>,
)
    requires
        replies_value(txid, found, r),
    ensures
        named_key(txid) is None ==> is_bad_request(r, "invalid txid base36"@),
        named_key(txid) is Some ==> match found {
            Lookup::Found(value) => r matches ApiReply::Json(resp) && resp.txid@ == txid
                && hex_reading(encode_utf8(resp.value_hex@)) == Ok::<Seq<u8>, HexFault>(value@),
            Lookup::Missing => r matches ApiReply::Failure { status, text } && status == 404
                && text@ == "not found"@,
            Lookup::Failed(fault) => is_bad_request(r, fault.text@),
        },
{
    if let Lookup::Found(value) = found {
        hex_text_reads_back(value@);
    }
}

/// The outputs of a transaction are answered slot by slot, under an id that names it. All else is a
/// bad request.
pub proof fn outputs_are_answered_in_order(
    txid: Seq<char>,
    found: Lookup,
    r: ApiReply<DecodedUtxo>,
)
    requires
        replies_outputs(txid, found, r),
    ensures
        named_key(txid) is None ==> is_bad_request(r, "invalid txid base36"@),
        named_key(txid) is Some ==> match found {
            Lookup::Found(value) => match stored_slots(value@) {
                Some(slots) => r matches ApiReply::Json(d) && {
                    &&& named_key(d.txid@) == named_key(txid)
                    &&& d.outputs@.len() == slots.len()
                    &&& forall|i: int|
                        0 <= i < slots.len() ==> tells_slot(#[trigger] d.outputs@[i], i, slots[i])
                },
                None => r matches ApiReply::Failure { status, text } && status == 400
                    && "bincode decode failed: "@.is_prefix_of(text@),
            },
            Lookup::Missing => is_bad_request(r, "txid not found in db"@),
            Lookup::Failed(fault) => is_bad_request(r, fault.text@),
        },
{
    if named_key(txid) is Some {
        if let Lookup::Found(value) = found {
            if stored_slots(value@) is Some {
                transactions_are_shown_as_stored(txid, found, Ok(r->Json_0));
            }
        }
    }
}

/// Requests on an address are answered from the store: with its balance, under the address that was
/// asked for; with all transactions that hold an unspent output of it; with its summary. They are
/// bad requests where the address names nothing, or the store could not be read.
pub proof fn addresses_are_answered_from_the_store(
    address: Seq<char>,
    db: Snapshot,
    balance: ApiReply<ApiBalanceResp>,
    txids: ApiReply<Vec<String>>,
    stats: ApiReply<WalletStats>,
)
    requires
        replies_balance(address, db, balance),
        replies_txids(address, db, txids),
        replies_stats(address, db, stats),
    ensures
        named_key(address) is None ==> {
            &&& is_bad_request(balance, "invalid address base36"@)
            &&& is_bad_request(txids, "invalid address base36"@)
            &&& is_bad_request(stats, "invalid address base36"@)
        },
        named_key(address) matches Some(key) ==> match db@.fault {
            Some(text) => {
                &&& is_bad_request(balance, text)
                &&& is_bad_request(txids, text)
                &&& is_bad_request(stats, text)
            },
            None => {
                let paying = valid_txs(db@.entries).filter(is_paying(key));
                &&& balance matches ApiReply::Json(b) && b.address@ == address
                    && b.confirmed_balance == held(
                    sum(amounts(every_slot(db@.entries).filter(is_of(key)))),
                )
                &&& txids matches ApiReply::Json(ids) && {
                    &&& ids@.len() == paying.len()
                    &&& forall|i: int|
                        0 <= i < ids@.len() ==> (#[trigger] ids@[i])@ == paying[i].txid
                }
                &&& stats matches ApiReply::Json(w) && is_wallet_stats(db@.entries, key, w)
            },
        },
{
    if let Some(key) = named_key(address) {
        if db.fault is None {
            let txs = valid_txs(db@.entries);
            sums_are_of_slots(every_slot(db@.entries), key);
            lemma_paying_are_filtered(txs, key);
            let ids = (txids->Json_0)@;
            assert(texts(ids).len() == ids.len());
            assert forall|i: int| 0 <= i < ids.len() implies (#[trigger] ids[i])@ == txs.filter(
                is_paying(key),
            )[i].txid by {
                assert(texts(ids)[i] == ids[i]@);
            }
        }
    }
}

/// A number that is left out of a query stands for the usual one: 10000 keys, 30 buckets and 30
/// entries of a look at the default tree, 20000 keys and 40 buckets of a histogram, and 100 entries
/// of a preview.
pub proof fn queries_have_usual_numbers(
    db: Snapshot,
    inspection: ApiReply<DefaultTreeInspect>,
    histogram: ApiReply<PrefixStatsOut>,
    preview: ApiReply<PreviewKeysOut>,
)
    ensures
        replies_inspection(
            InspectDefaultQ { sample: None, top: None, examples: None },
            db,
            inspection,
        ) <==> replies_inspection(
            InspectDefaultQ { sample: Some(10000), top: Some(30), examples: Some(30) },
            db,
            inspection,
        ),
        replies_histogram(PrefixStatsQ { sample: None, top: None }, db, histogram)
            <==> replies_histogram(
            PrefixStatsQ { sample: Some(20000), top: Some(40) },
            db,
            histogram,
        ),
        replies_preview(PreviewKeysQ { limit: None }, db, preview) <==> replies_preview(
            PreviewKeysQ { limit: Some(100) },
            db,
            preview,
        ),
{
}

/// What is sampled and shown of the default tree is as much as was asked for.
pub proof fn queries_are_answered_as_asked(
    db: Snapshot,
    sample: usize,
    top: usize,
    examples: usize,
    inspection: ApiReply<DefaultTreeInspect>,
    histogram: ApiReply<PrefixStatsOut>,
    preview: ApiReply<PreviewKeysOut>,
)
    requires
        replies_inspection(
            InspectDefaultQ { sample: Some(sample), top: Some(top), examples: Some(examples) },
            db,
            inspection,
        ),
        replies_histogram(
            PrefixStatsQ { sample: Some(sample), top: Some(top) },
            db,
            histogram,
        ),
        replies_preview(PreviewKeysQ { limit: Some(examples) }, db, preview),
    ensures
        match db@.fault {
            Some(text) => {
                &&& db.entries@.len() < sample ==> is_bad_request(inspection, text)
                    && is_bad_request(histogram, text)
                &&& db.entries@.len() < examples ==> is_bad_request(inspection, text)
                    && is_bad_request(preview, text)
            },
            None => inspection is Json && histogram is Json && preview is Json,
        },
        db.entries@.len() >= sample ==> histogram is Json,
        db.entries@.len() >= examples ==> preview is Json,
        inspection matches ApiReply::Json(out) ==> is_inspection(
            db,
            sample,
            top,
            examples,
            out,
        ),
        histogram matches ApiReply::Json(out) ==> is_histogram(
            db,
            sample,
            top,
            out,
        ),
        preview matches ApiReply::Json(out) ==> is_preview(db, examples, out),
{
}

// ---------------------------------------------------------------------------
// WebSocket
// ---------------------------------------------------------------------------
/// What the commands read: the whole default tree, or the value under the text of a transaction id;
/// nothing where the address or the id names nothing.
pub proof fn websocket_commands_read_what_they_need(cmd: WsCmd)
    ensures
        match cmd {
            WsCmd::Globals | WsCmd::TopReceivers { .. } => reads(cmd) == Some(from_default(None)),
            WsCmd::Balance { address } | WsCmd::UtxosFor { address, .. } => reads(cmd)
                == if named_key(address@) is Some {
                Some(from_default(None))
            } else {
                None
            },
            WsCmd::Decode { txid } => reads(cmd) == match named_key(txid@) {
                Some(key) => Some(
                    RequestView::Value {
                        tree: "__sled__default"@,
                        key: encode_utf8(key_text(key)),
                    },
                ),
                None => None,
            },
        },
{
}

/// Every response goes under the name of its command, and holds either data or an error.
pub proof fn responses_hold_data_or_an_error(
    cmd: WsCmd,
    db: Snapshot,
    found: Lookup,
    r: WsResp<WsData>,
)
    requires
        answers(cmd, db, found, r),
    ensures
        r.ok <==> r.data is Some,
        r.ok <==> r.error is None,
        r.cmd@ == match cmd {
            WsCmd::Globals => "globals"@,
            WsCmd::Decode { .. } => "decode"@,
            WsCmd::Balance { .. } => "balance"@,
            WsCmd::UtxosFor { .. } => "utxos_for"@,
            WsCmd::TopReceivers { .. } => "top_receivers"@,
        },
{
}

/// The responses hold what the store holds: the totals, the outputs of a transaction, the balance
/// of an address under the address that was asked for, its transactions, 200 of them where no limit
/// is given, and the top receivers, 9999 of them where no limit is given.
pub proof fn responses_hold_what_was_asked_for(
    cmd: WsCmd,
    db: Snapshot,
    found: Lookup,
    r: WsResp<WsData>,
)
    requires
        answers(cmd, db, found, r),
        db.fault is None,
    ensures
        match cmd {
            WsCmd::Globals => r.data matches Some(WsData::Globals(g)) && is_global_metrics(
                db@.entries,
                g,
            ),
            WsCmd::Decode { txid } => named_key(txid@) is Some ==> match found {
                Lookup::Found(value) => match stored_slots(value@) {
                    Some(slots) => r.data matches Some(WsData::Decoded(d)) && {
                        &&& named_key(d.txid@) == named_key(txid@)
                        &&& d.outputs@.len() == slots.len()
                        &&& forall|i: int|
                            0 <= i < slots.len() ==> tells_slot(
                                #[trigger] d.outputs@[i],
                                i,
                                slots[i],
                            )
                    },
                    None => !r.ok,
                },
                _ => !r.ok,
            },
            WsCmd::Balance { address } => match named_key(address@) {
                Some(key) => r.data matches Some(WsData::Balance(b)) && b.address@ == address@
                    && b.confirmed_balance == held(
                    sum(amounts(every_slot(db@.entries).filter(is_of(key)))),
                ),
                None => !r.ok,
            },
            WsCmd::UtxosFor { address, limit } => match named_key(address@) {
                Some(key) => r.data matches Some(WsData::Txids(txids)) && {
                    let paying = valid_txs(db@.entries).filter(is_paying(key));
                    let at_most = if limit is None {
                        Some(200usize)
                    } else {
                        limit
                    };
                    &&& txids@.len() == listed(paying.len(), at_most)
                    &&& forall|i: int|
                        0 <= i < txids@.len() ==> (#[trigger] txids@[i])@ == paying[i].txid
                },
                None => !r.ok,
            },
            WsCmd::TopReceivers { limit } => r.data matches Some(WsData::Receivers(rows))
                && receiver_rows(rows@) == top_rows(
                every_slot(db@.entries),
                if limit is None {
                    9999
                } else {
                    limit->0 as nat
                },
            ),
        },
{
    match cmd {
        WsCmd::Decode { txid } => {
            if let Some(key) = named_key(txid@) {
                if let Lookup::Found(value) = found {
                    if stored_slots(value@) is Some {
                        let d = r.data->0->Decoded_0;
                        transactions_are_shown_as_stored(txid@, found, Ok(d));
                    }
                }
            }
        },
        WsCmd::Balance { address } => {
            if let Some(key) = named_key(address@) {
                sums_are_of_slots(every_slot(db@.entries), key);
            }
        },
        WsCmd::UtxosFor { address, .. } => {
            if let Some(key) = named_key(address@) {
                let txs = valid_txs(db@.entries);
                lemma_paying_are_filtered(txs, key);
                let txids = (r.data->0->Txids_0)@;
                assert(texts(txids).len() == txids.len());
                assert forall|i: int| 0 <= i < txids.len() implies (#[trigger] txids[i])@
                    == txs.filter(is_paying(key))[i].txid by {
                    assert(texts(txids)[i] == txids[i]@);
                }
            }
        },
        _ => {},
    }
}

/// A search for the transactions of an address succeeds in spite of a fault of the store where its
/// limit was reached before, and else fails with the fault.
pub proof fn searches_outrun_faults(
    cmd: WsCmd,
    db: Snapshot,
    found: Lookup,
    r: WsResp<WsData>,
    key: Seq<u8>,
)
    requires
        answers(cmd, db, found, r),
        cmd is UtxosFor,
        named_key(cmd->UtxosFor_address@) == Some(key),
        db.fault is Some,
    ensures
        ({
            let count = valid_txs(db@.entries).filter(is_paying(key)).len();
            let limit = if cmd->UtxosFor_limit is None {
                200
            } else {
                cmd->UtxosFor_limit->0
            };
            r.ok <==> count > 0 && count >= limit
        }),
{
    lemma_paying_are_filtered(valid_txs(db@.entries), key);
}

/// A response without data says why: the id or the address names nothing, the store holds no such
/// transaction or could not be read, or what it holds does not decode.
pub proof fn responses_say_what_failed(
    cmd: WsCmd,
    db: Snapshot,
    found: Lookup,
    r: WsResp<WsData>,
)
    requires
        answers(cmd, db, found, r),
        !r.ok,
    ensures
        ({
            let text = r.error->0@;
            match cmd {
                WsCmd::Globals | WsCmd::TopReceivers { .. } => db@.fault == Some(text),
                WsCmd::Balance { address } | WsCmd::UtxosFor { address, .. } => if named_key(
                    address@,
                ) is None {
                    text == "invalid address base36"@
                } else {
                    db@.fault == Some(text)
                },
                WsCmd::Decode { txid } => if named_key(txid@) is None {
                    text == "invalid txid base36"@
                } else {
                    match found {
                        Lookup::Missing => text == "txid not found in db"@,
                        Lookup::Failed(fault) => text == fault.text@,
                        Lookup::Found(_) => "bincode decode failed: "@.is_prefix_of(text),
                    }
                },
            }
        }),
{
}

// ---------------------------------------------------------------------------
// Both
// ---------------------------------------------------------------------------

/// The two interfaces agree: on the balance of an address, on the outputs of a transaction, on the
/// top receivers where no limit is given, and on the messages where they cannot answer.
pub proof fn interfaces_agree(
    text: String,
    db: Snapshot,
    found: Lookup,
    balance: ApiReply<ApiBalanceResp>,
    balance_resp: WsResp<WsData>,
    outputs: ApiReply<DecodedUtxo>,
    outputs_resp: WsResp<WsData>,
    receivers: ApiReply<Vec<TopReceiverRow>>,
    receivers_resp: WsResp<WsData>,
)
    requires
        replies_balance(text@, db, balance),
        answers(WsCmd::Balance { address: text }, db, found, balance_resp),
        replies_outputs(text@, found, outputs),
        answers(WsCmd::Decode { txid: text }, db, found, outputs_resp),
        replies_receivers(db, receivers),
        answers(WsCmd::TopReceivers { limit: None }, db, found, receivers_resp),
    ensures
        match balance {
            ApiReply::Json(b) => balance_resp.data matches Some(WsData::Balance(c)) && b.address@
                == c.address@ && b.confirmed_balance == c.confirmed_balance,
            ApiReply::Failure { text: message, .. } => balance_resp.error matches Some(e) && e@
                == message@,
        },
        match outputs {
            ApiReply::Json(d) => outputs_resp.data matches Some(WsData::Decoded(e)) && {
                &&& d.txid@ == e.txid@
                &&& d.outputs@.len() == e.outputs@.len()
                &&& forall|i: int|
                    0 <= i < d.outputs@.len() ==> {
                        &&& (#[trigger] d.outputs@[i]).index == e.outputs@[i].index
                        &&& d.outputs@[i].state@ == e.outputs@[i].state@
                        &&& d.outputs@[i].amount == e.outputs@[i].amount
                    }
            },
            ApiReply::Failure { .. } => outputs_resp.error is Some,
        },
        match receivers {
            ApiReply::Json(rows) => receivers_resp.data matches Some(WsData::Receivers(others)) && {
                &&& rows@.len() == others@.len()
                &&& forall|i: int|
                    0 <= i < rows@.len() ==> (#[trigger] rows@[i]).receiver_base36@
                        == others@[i].receiver_base36@ && rows@[i].total_unspent
                        == others@[i].total_unspent
            },
            ApiReply::Failure { text: message, .. } => receivers_resp.error matches Some(e) && e@
                == message@,
        },
{
    if let ApiReply::Json(d) = outputs {
        let value = found->Found_0;
        let e = outputs_resp.data->0->Decoded_0;
        transactions_are_shown_as_stored(text@, found, Ok(d));
        transactions_are_shown_as_stored(text@, found, Ok(e));
        let slots = stored_slots(value@)->0;
        assert forall|i: int| 0 <= i < d.outputs@.len() implies {
            &&& (#[trigger] d.outputs@[i]).index == e.outputs@[i].index
            &&& d.outputs@[i].state@ == e.outputs@[i].state@
            &&& d.outputs@[i].amount == e.outputs@[i].amount
        } by {
            assert(tells_slot(d.outputs@[i], i, slots[i]));
            assert(tells_slot(e.outputs@[i], i, slots[i]));
        }
    }
    if let ApiReply::Json(rows) = receivers {
        let others = receivers_resp.data->0->Receivers_0;
        assert(receiver_rows(rows@).len() == rows@.len());
        assert(receiver_rows(others@).len() == others@.len());
        assert forall|i: int| 0 <= i < rows@.len() implies (#[trigger] rows@[i]).receiver_base36@
            == others@[i].receiver_base36@ && rows@[i].total_unspent == others@[i].total_unspent by {
            assert(receiver_rows(rows@)[i] == rows@[i]@);
            assert(receiver_rows(others@)[i] == others@[i]@);
        }
    }
}

} // verus!
