//! What the answers on single transactions, addresses and totals say.

use vstd::prelude::*;

use crate::counting::{
    amounts, counts_are_of_slots, held, is_of, is_paying, is_spent, is_tx, is_unspent, sum,
    sums_are_of_slots, valid_txs_are_entries,
};
use crate::db::{
    are_top_receivers, is_global_metrics, receiver_rows, top_rows, GlobalMetrics, TopReceiverRow,
};
use crate::index::texts;
use crate::keys::{
    base36_number, be_bytes, key_text, key_text_is_injective, key_text_names_key, named_key,
    KEY_BYTES,
};
use crate::laws::{lemma_every_key_is_whole, lemma_slots_are_whole};
use crate::model::{
    all_slots, every_slot, paid_to, saturated, valid_txs, wallets, wallets_are_the_receivers,
    wallets_are_whole_keys, StoredEntry, Tx,
};
use crate::outputs::{
    addressable, number_at, slot_of, slots_of, stored_keys_are_whole, stored_slots, whole_keys,
    Slot, TxOutput,
};
use crate::rank::{ahead, ranking, ranking_ranks};
use crate::store::{Lookup, Snapshot};
use crate::tally::wallet_totals;
use crate::utxos::{
    lists_txids, output_rows, paying_txids, shows_utxo, slot_rows, DecodedOutput, DecodedUtxo,
    TxidList, UtxoError,
};

verus! {

// ---------------------------------------------------------------------------
// One transaction
// ---------------------------------------------------------------------------

/// Whether a decoded output tells what stands in a slot: its position, and its state; while it is
/// unspent its amount, and a receiver that names the key in the slot.
pub open spec fn tells_slot(row: DecodedOutput, i: int, slot: Slot) -> bool {
    &&& row.index == i
    &&& match slot {
        Some((amount, key)) => {
            &&& row.state@ == "unspent"@
            &&& row.amount == Some(amount)
            &&& row.receiver matches Some(text) && text@ == key_text(key) && named_key(text@)
                == Some(key)
        },
        None => row.state@ == "spent"@ && row.amount is None && row.receiver is None,
    }
}

proof fn lemma_rows_tell_slots(rows: Seq<DecodedOutput>, slots: Seq<Slot>)
    requires
        output_rows(rows) == slot_rows(slots),
        whole_keys(slots),
    ensures
        rows.len() == slots.len(),
        forall|i: int| 0 <= i < rows.len() ==> tells_slot(#[trigger] rows[i], i, slots[i]),
{
    assert(output_rows(rows).len() == rows.len());
    assert forall|i: int| 0 <= i < rows.len() implies tells_slot(
        #[trigger] rows[i],
        i,
        slots[i],
    ) by {
        assert(output_rows(rows)[i] == rows[i]@);
        assert(slot_rows(slots)[i] == rows[i]@);
        if let Some((_, key)) = slots[i] {
            key_text_names_key(key);
        }
    }
}

/// The decoded outputs of a transaction follow its outputs one by one, spent or not: each tells its
/// own position and what stands there.
pub proof fn decoded_rows_follow_the_outputs(
    outputs: Seq<Option<TxOutput>>,
    rows: Seq<DecodedOutput>,
)
    requires
        output_rows(rows) == slot_rows(slots_of(outputs)),
    ensures
        rows.len() == outputs.len(),
        forall|i: int|
            0 <= i < rows.len() ==> tells_slot(#[trigger] rows[i], i, slot_of(outputs[i])),
        forall|i: int, j: int|
            0 <= i < j < rows.len() ==> (#[trigger] rows[i]).index < (#[trigger] rows[j]).index,
{
    stored_keys_are_whole(outputs);
    lemma_rows_tell_slots(rows, slots_of(outputs));
    assert forall|i: int| 0 <= i < rows.len() implies tells_slot(
        #[trigger] rows[i],
        i,
        slot_of(outputs[i]),
    ) by {
        assert(slots_of(outputs)[i] == slot_of(outputs[i]));
    }
    assert forall|i: int, j: int| 0 <= i < j < rows.len() implies (#[trigger] rows[i]).index < (
    #[trigger] rows[j]).index by {
        assert(tells_slot(rows[i], i, slot_of(outputs[i])));
        assert(tells_slot(rows[j], j, slot_of(outputs[j])));
    }
}

pub(crate) proof fn lemma_stored_keys_are_whole(value: Seq<u8>)
    requires
        stored_slots(value) is Some,
    ensures
        whole_keys(stored_slots(value)->0),
{
    let (n, next) = number_at(value, 0)->0;
    lemma_slots_are_whole(value, next, n);
}

/// A transaction is shown just where its id names one and the store holds outputs under it: under
/// an id that names the same transaction, and slot by slot. Else the answer says which of these
/// failed.
pub proof fn transactions_are_shown_as_stored(
    txid_b36: Seq<char>,
    found: Lookup,
    r: Result<DecodedUtxo, UtxoError>,
)
    requires
        shows_utxo(txid_b36, found, r),
    ensures
        named_key(txid_b36) is None <==> r matches Err(UtxoError::InvalidTxid),
        named_key(txid_b36) is Some ==> match found {
            Lookup::Failed(fault) => r matches Err(UtxoError::Read(e)) && e.text@ == fault.text@,
            Lookup::Missing => r matches Err(UtxoError::NotFound),
            Lookup::Found(value) => match stored_slots(value@) {
                None => r matches Err(UtxoError::Undecodable(fault)) && (fault is TooManyOutputs
                    <==> !addressable(value@)),
                Some(slots) => r matches Ok(d) && {
                    &&& named_key(d.txid@) == named_key(txid_b36)
                    &&& d.outputs@.len() == slots.len()
                    &&& forall|i: int|
                        0 <= i < slots.len() ==> tells_slot(#[trigger] d.outputs@[i], i, slots[i])
                },
            },
        },
{
    if let Some(key) = named_key(txid_b36) {
        lemma_named_keys_are_whole(txid_b36);
        key_text_names_key(key);
        if let Lookup::Found(value) = found {
            if let Some(slots) = stored_slots(value@) {
                lemma_stored_keys_are_whole(value@);
                lemma_rows_tell_slots(r->Ok_0.outputs@, slots);
            }
        }
    }
}

proof fn lemma_bytes_are_as_many(n: nat, width: nat)
    ensures
        be_bytes(n, width).len() == width,
    decreases width,
{
    if width > 0 {
        lemma_bytes_are_as_many(n / 256, (width - 1) as nat);
    }
}

/// A key that a text names is a whole key.
pub proof fn lemma_named_keys_are_whole(s: Seq<char>)
    requires
        named_key(s) is Some,
    ensures
        (named_key(s)->0).len() == KEY_BYTES,
{
    let n = base36_number(s)->0;
    lemma_bytes_are_as_many(n, KEY_BYTES as nat);
}

// ---------------------------------------------------------------------------
// Addresses
// ---------------------------------------------------------------------------

/// A balance is the sum of the unspent outputs of a key in every entry that decodes, as far as an
/// amount can hold it.
pub proof fn balances_are_sums(entries: Seq<StoredEntry>, key: Seq<u8>, balance: u64)
    requires
        balance == saturated(paid_to(every_slot(entries), key)),
    ensures
        balance == held(sum(amounts(every_slot(entries).filter(is_of(key))))),
{
    sums_are_of_slots(every_slot(entries), key);
}

pub(crate) proof fn lemma_paying_are_filtered(txs: Seq<Tx>, key: Seq<u8>)
    ensures
        paying_txids(txs, key) == txs.filter(is_paying(key)).map_values(|tx: Tx| tx.txid),
    decreases txs.len(),
{
    reveal(Seq::filter);
    let id = |tx: Tx| tx.txid;
    if txs.len() > 0 {
        let rest = txs.drop_last();
        lemma_paying_are_filtered(rest, key);
        counts_are_of_slots(txs.last().slots, key);
        let kept = rest.filter(is_paying(key));
        assert(kept.push(txs.last()).map_values(id) =~= kept.map_values(id).push(txs.last().txid));
    } else {
        assert(paying_txids(txs, key) =~= txs.filter(is_paying(key)).map_values(id));
    }
}

/// How many of `count` items are listed: all, or as many as the limit says, but never less than
/// one where there is one.
pub open spec fn listed(count: nat, limit: Option<usize>) -> nat {
    match limit {
        Some(n) => if n > 0 && n < count {
            n as nat
        } else if n == 0 && count > 0 {
            1
        } else {
            count
        },
        None => count,
    }
}

/// The transactions that are listed for an address are those that hold an unspent output of it, in
/// the order of the store, up to the limit. A fault of the store comes up only where the limit did
/// not end the search before.
pub proof fn lists_hold_the_paying_transactions(
    db: Snapshot,
    key: Seq<u8>,
    limit: Option<usize>,
    r: TxidList,
)
    requires
        lists_txids(db, key, limit, r),
    ensures
        ({
            let paying = valid_txs(db@.entries).filter(is_paying(key));
            &&& r.txids@.len() == listed(paying.len(), limit)
            &&& forall|i: int|
                0 <= i < r.txids@.len() ==> (#[trigger] r.txids@[i])@ == paying[i].txid
            &&& r.fault is Some <==> db.fault is Some && (limit matches Some(n) ==> paying.len() < n
                || paying.len() == 0)
            &&& r.fault matches Some(e) ==> db@.fault == Some(e.text@)
        }),
{
    let txs = valid_txs(db@.entries);
    let paying = txs.filter(is_paying(key));
    lemma_paying_are_filtered(txs, key);
    assert(texts(r.txids@).len() == r.txids@.len());
    assert forall|i: int| 0 <= i < r.txids@.len() implies (#[trigger] r.txids@[i])@
        == paying[i].txid by {
        assert(texts(r.txids@)[i] == r.txids@[i]@);
    }
}

// ---------------------------------------------------------------------------
// Totals
// ---------------------------------------------------------------------------

/// The global metrics count the transactions of the store, and their spent and unspent outputs;
/// they sum the amounts in them, as far as an amount can hold the sum.
pub proof fn metrics_are_of_the_transactions(entries: Seq<StoredEntry>, g: GlobalMetrics)
    requires
        is_global_metrics(entries, g),
    ensures
        ({
            let slots = all_slots(valid_txs(entries));
            &&& g.tx_entries_scanned == entries.filter(is_tx()).len()
            &&& g.outputs_total == slots.len()
            &&& g.outputs_unspent == slots.filter(is_unspent()).len()
            &&& g.outputs_spent == slots.filter(is_spent()).len()
            &&& g.utxo_total_unspent_atomic == held(sum(amounts(slots)))
        }),
{
    let slots = all_slots(valid_txs(entries));
    valid_txs_are_entries(entries);
    counts_are_of_slots(slots, seq![]);
    sums_are_of_slots(slots, seq![]);
}

/// The wallets that the global metrics count are the keys that hold an unspent output: they can be
/// listed, each once.
pub proof fn metrics_count_the_wallets(entries: Seq<StoredEntry>, g: GlobalMetrics) -> (keys: Seq<
    Seq<u8>,
>)
    requires
        is_global_metrics(entries, g),
    ensures
        keys.len() == g.wallets_with_unspent,
        keys.no_duplicates(),
        forall|key: Seq<u8>| #[trigger]
            keys.contains(key) <==> all_slots(valid_txs(entries)).filter(is_of(key)).len() > 0,
{
    let slots = all_slots(valid_txs(entries));
    let keys = wallets(slots);
    wallets_are_the_receivers(slots);
    assert forall|key: Seq<u8>| #[trigger] keys.contains(key) <==> slots.filter(is_of(key)).len()
        > 0 by {
        counts_are_of_slots(slots, key);
    }
    keys
}

/// The top receivers are listed with what they hold, each once, the one that holds more first, and
/// no more than were asked for. A key that holds an output is among them, unless the list is full
/// of keys that hold at least as much.
pub proof fn top_receivers_hold_the_most(
    entries: Seq<StoredEntry>,
    limit: usize,
    rows: Seq<TopReceiverRow>,
    key: Seq<u8>,
)
    requires
        are_top_receivers(entries, limit, rows),
        key.len() == KEY_BYTES,
    ensures
        ({
            let theirs = every_slot(entries).filter(is_of(key));
            &&& rows.len() <= limit
            &&& forall|i: int|
                0 <= i < rows.len() && (#[trigger] rows[i]).receiver_base36@ == key_text(key)
                    ==> theirs.len() > 0 && rows[i].total_unspent == held(sum(amounts(theirs)))
            &&& forall|i: int|
                0 <= i < rows.len() ==> named_key((#[trigger] rows[i]).receiver_base36@) is Some
            &&& forall|i: int, j: int|
                0 <= i < j < rows.len() ==> (#[trigger] rows[i]).total_unspent >= (
                #[trigger] rows[j]).total_unspent && rows[i].receiver_base36@
                    != rows[j].receiver_base36@
            &&& theirs.len() > 0 ==> {
                ||| exists|i: int|
                    0 <= i < rows.len() && (#[trigger] rows[i]).receiver_base36@ == key_text(key)
                ||| rows.len() == limit && forall|i: int|
                    0 <= i < rows.len() ==> (#[trigger] rows[i]).total_unspent >= held(
                        sum(amounts(theirs)),
                    )
            }
        }),
{
    let slots = every_slot(entries);
    let totals = wallet_totals(slots);
    let order = ranking(totals);
    let said = top_rows(slots, limit as nat);
    lemma_every_key_is_whole(entries);
    wallets_are_whole_keys(slots);
    wallets_are_the_receivers(slots);
    ranking_ranks(totals);
    counts_are_of_slots(slots, key);
    sums_are_of_slots(slots, key);
    assert(receiver_rows(rows).len() == rows.len());
    assert forall|i: int| 0 <= i < rows.len() implies (#[trigger] rows[i])@ == said[i] by {
        assert(receiver_rows(rows)[i] == rows[i]@);
    }
    assert forall|i: int| 0 <= i < rows.len() && (#[trigger] rows[i]).receiver_base36@ == key_text(
        key,
    ) implies slots.filter(is_of(key)).len() > 0 && rows[i].total_unspent == held(
        sum(amounts(slots.filter(is_of(key)))),
    ) by {
        assert(rows[i]@ == said[i]);
        key_text_is_injective(wallets(slots)[order[i]], key);
        assert(wallets(slots).contains(key));
    }
    assert forall|i: int| 0 <= i < rows.len() implies named_key(
        (#[trigger] rows[i]).receiver_base36@,
    ) is Some by {
        assert(rows[i]@ == said[i]);
        key_text_names_key(wallets(slots)[order[i]]);
    }
    assert forall|i: int, j: int| 0 <= i < j < rows.len() implies (
    #[trigger] rows[i]).total_unspent >= (#[trigger] rows[j]).total_unspent
        && rows[i].receiver_base36@ != rows[j].receiver_base36@ by {
        assert(rows[i]@ == said[i] && rows[j]@ == said[j]);
        assert(ahead(totals, order[i], order[j]));
        if rows[i].receiver_base36@ == rows[j].receiver_base36@ {
            key_text_is_injective(wallets(slots)[order[i]], wallets(slots)[order[j]]);
        }
    }
    if slots.filter(is_of(key)).len() > 0 {
        assert(wallets(slots).contains(key));
        let place = choose|place: int|
            0 <= place < wallets(slots).len() && wallets(slots)[place] == key;
        assert(order.contains(place));
        let p = choose|p: int| 0 <= p < order.len() && order[p] == place;
        if p < rows.len() {
            assert(rows[p]@ == said[p]);
        } else {
            assert forall|i: int| 0 <= i < rows.len() implies (#[trigger] rows[i]).total_unspent
                >= held(sum(amounts(slots.filter(is_of(key))))) by {
                assert(rows[i]@ == said[i]);
                assert(ahead(totals, order[i], order[p]));
            }
        }
    }
}

} // verus!
