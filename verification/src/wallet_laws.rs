//! What the summary of a wallet says, and what is said of the wallets that stand out.

use vstd::prelude::*;

use crate::amounts::snap_text;
use crate::counting::{
    amounts, counts_are_of_slots, held, history_is_of_paying_txs, is_of, is_paying, is_spent,
    is_tx, is_unspent, largest_is_received, sum, sums_are_of_slots, valid_txs_are_entries,
};
use crate::intelligence::{
    activity, fragments, growths, is_wallet_intelligence, share_leader, share_leader_is_highest,
    slot_amounts, spend_rates, txid_of_slot, WalletIntelligence,
};
use crate::keys::{
    key_text, key_text_is_injective, key_text_names_key, named_key, Address, KEY_BYTES,
};
use crate::laws::{
    lemma_baseline_within, lemma_key_text_is_some, lemma_slots_are_whole, lemma_tx_count_within,
    undecodable_entries_only_shift,
};
use crate::model::{
    all_slots, entry_tx, first_seen, named_txs, receiver_is_within_the_whole, valid_txs, wallets,
    wallets_are_the_receivers, wallets_are_whole_keys, StoredEntry, Tx,
};
use crate::outputs::{number_at, whole_keys, Slot};
use crate::rank::{leader, leader_is_first_largest};
use crate::wallet_stats::{is_wallet_stats, lemma_history, WalletStats};

verus! {

// ---------------------------------------------------------------------------
// The summary of one wallet
// ---------------------------------------------------------------------------

/// In the summary of a wallet every text of an amount is the text, in coins, of the number beside
/// it; that of the growth also carries its sign.
pub proof fn summaries_show_their_numbers(entries: Seq<StoredEntry>, key: Seq<u8>, w: WalletStats)
    requires
        is_wallet_stats(entries, key, w),
    ensures
        w.total_unspent_snap@ == snap_text(w.total_unspent_atomic),
        w.baseline_unspent_snap@ == snap_text(w.baseline_unspent_atomic),
        w.largest_output_snap@ == snap_text(w.largest_output_atomic),
        w.avg_output_snap@ == snap_text(w.avg_output_atomic),
        w.delta_atomic >= 0 ==> w.delta_snap@ == "+"@ + snap_text(w.delta_atomic as u64),
        w.delta_atomic < 0 ==> w.delta_snap@ == "-"@ + snap_text((-w.delta_atomic) as u64),
{
    receiver_is_within_the_whole(all_slots(named_txs(entries)), key);
}

/// The summary of a wallet counts and sums its unspent outputs, and counts the transactions that
/// hold one and the spent outputs beside it.
pub proof fn summaries_count_what_a_wallet_holds(
    entries: Seq<StoredEntry>,
    key: Seq<u8>,
    w: WalletStats,
)
    requires
        is_wallet_stats(entries, key, w),
    ensures
        ({
            let txs = named_txs(entries);
            let slots = all_slots(txs);
            &&& w.address@ == key_text(key)
            &&& w.tx_count == txs.filter(is_paying(key)).len()
            &&& w.unspent_count == slots.filter(is_of(key)).len()
            &&& w.spent_count == sum(
                txs.filter(is_paying(key)).map_values(|tx: Tx| tx.slots.filter(is_spent()).len()),
            )
            &&& w.total_unspent_atomic == held(sum(amounts(slots.filter(is_of(key)))))
            &&& w.spend_rate.part == w.spent_count
            &&& w.spend_rate.whole == w.unspent_count + w.spent_count
        }),
{
    let txs = named_txs(entries);
    counts_are_of_slots(all_slots(txs), key);
    sums_are_of_slots(all_slots(txs), key);
    history_is_of_paying_txs(txs, key);
}

/// The largest output in the summary of a wallet is one of its unspent outputs, none of them is
/// larger, and the average is that of all of them, rounded down.
pub proof fn summaries_measure_the_outputs(entries: Seq<StoredEntry>, key: Seq<u8>, w: WalletStats)
    requires
        is_wallet_stats(entries, key, w),
    ensures
        ({
            let slots = all_slots(named_txs(entries));
            &&& forall|i: int|
                0 <= i < slots.len() && is_of(key)(#[trigger] slots[i]) ==> (slots[i]->0).0
                    <= w.largest_output_atomic
            &&& w.unspent_count > 0 ==> exists|i: int|
                0 <= i < slots.len() && #[trigger] slots[i] == Some((w.largest_output_atomic, key))
            &&& w.unspent_count > 0 ==> w.avg_output_atomic * w.unspent_count
                <= w.total_unspent_atomic < (w.avg_output_atomic + 1) * w.unspent_count
            &&& w.unspent_count == 0 ==> w.largest_output_atomic == 0 && w.avg_output_atomic == 0
        }),
{
    let slots = all_slots(named_txs(entries));
    largest_is_received(slots, key);
    counts_are_of_slots(slots, key);
    receiver_is_within_the_whole(slots, key);
    let (total, count) = (w.total_unspent_atomic as int, w.unspent_count as int);
    if count > 0 {
        let average = total / count;
        assert(average * count <= total < (average + 1) * count && 0 <= average <= total)
            by (nonlinear_arith)
            requires
                average == total / count,
                count > 0,
                total >= 0,
        ;
    }
}

/// The first and the last transaction in the summary of a wallet hold an unspent output of it, and
/// none before the first or behind the last does. What the first pays is the baseline.
pub proof fn summaries_span_the_history(entries: Seq<StoredEntry>, key: Seq<u8>, w: WalletStats)
    requires
        is_wallet_stats(entries, key, w),
    ensures
        ({
            let txs = named_txs(entries);
            let (first, last) = (w.first_seen_index as int, w.last_seen_index as int);
            &&& w.tx_count > 0 ==> {
                &&& 0 <= first <= last < txs.len()
                &&& is_paying(key)(txs[first]) && is_paying(key)(txs[last])
                &&& forall|j: int|
                    (0 <= j < first || last < j < txs.len()) ==> !is_paying(key)(#[trigger] txs[j])
                &&& w.first_seen_txid@ == txs[first].txid
                &&& w.last_seen_txid@ == txs[last].txid
                &&& w.baseline_unspent_atomic == held(
                    sum(amounts(txs[first].slots.filter(is_of(key)))),
                )
            }
            &&& w.tx_count == 0 ==> {
                &&& first == 0 && last == 0
                &&& w.first_seen_txid@.len() == 0
                &&& w.last_seen_txid@.len() == 0
                &&& w.baseline_unspent_atomic == 0
                &&& forall|j: int| 0 <= j < txs.len() ==> !is_paying(key)(#[trigger] txs[j])
            }
        }),
{
    let txs = named_txs(entries);
    history_is_of_paying_txs(txs, key);
    lemma_history(txs, key);
    lemma_none_where_uncounted(txs, key);
    if let Some(i) = first_seen(txs, key) {
        sums_are_of_slots(txs[i].slots, key);
    }
}

proof fn lemma_none_where_uncounted(txs: Seq<Tx>, key: Seq<u8>)
    ensures
        txs.filter(is_paying(key)).len() == 0 <==> forall|j: int|
            0 <= j < txs.len() ==> !is_paying(key)(#[trigger] txs[j]),
    decreases txs.len(),
{
    reveal(Seq::filter);
    if txs.len() > 0 {
        let rest = txs.drop_last();
        lemma_none_where_uncounted(rest, key);
        assert forall|j: int| 0 <= j < rest.len() implies rest[j] == #[trigger] txs[j] by {}
        assert(txs[txs.len() - 1] == txs.last());
        if rest.filter(is_paying(key)).len() > 0 {
            let j = choose|j: int| 0 <= j < rest.len() && is_paying(key)(#[trigger] rest[j]);
            assert(is_paying(key)(txs[j]));
        }
    }
}

/// The words in the summary of a wallet follow from its numbers: the trend from the growth, and
/// the fragmentation from the number of unspent outputs.
pub proof fn summaries_word_their_numbers(entries: Seq<StoredEntry>, key: Seq<u8>, w: WalletStats)
    requires
        is_wallet_stats(entries, key, w),
    ensures
        w.total_unspent_atomic > w.baseline_unspent_atomic ==> w.trend@ == "rising"@,
        w.total_unspent_atomic < w.baseline_unspent_atomic ==> w.trend@ == "falling"@,
        w.total_unspent_atomic == w.baseline_unspent_atomic ==> w.trend@ == "stable"@,
        i64::MIN <= w.total_unspent_atomic - w.baseline_unspent_atomic <= i64::MAX
            ==> w.delta_atomic == w.total_unspent_atomic - w.baseline_unspent_atomic,
        w.unspent_count <= 4 ==> w.fragmentation@ == "LOW"@,
        5 <= w.unspent_count <= 20 ==> w.fragmentation@ == "MEDIUM"@,
        w.unspent_count >= 21 ==> w.fragmentation@ == "HIGH"@,
{
}

// ---------------------------------------------------------------------------
// The wallets that stand out
// ---------------------------------------------------------------------------

proof fn lemma_valid_keys_are_whole(entries: Seq<StoredEntry>)
    ensures
        whole_keys(all_slots(valid_txs(entries))),
    decreases entries.len(),
{
    if entries.len() > 0 {
        let rest = entries.drop_last();
        lemma_valid_keys_are_whole(rest);
        if let Some(tx) = entry_tx(entries.last()) {
            let before = all_slots(valid_txs(rest));
            let value = entries.last().value;
            let (n, next) = number_at(value, 0)->0;
            lemma_slots_are_whole(value, next, n);
            assert(valid_txs(rest).push(tx).drop_last() =~= valid_txs(rest));
            let all = before + tx.slots;
            assert forall|i: int| 0 <= i < all.len() implies match #[trigger] all[i] {
                Some((_, key)) => key.len() == KEY_BYTES,
                None => true,
            } by {
                if i < before.len() {
                    assert(all[i] == before[i]);
                } else {
                    assert(all[i] == tx.slots[i - before.len()]);
                }
            }
        }
    }
}

/// The address that is named as the most active one has, by its own summary, as many transactions
/// as is said beside it. So it is with the most fragmented one and its outputs, the fastest growing
/// one and its growth, the one with the highest spend rate and its outputs, and the receiver of the
/// largest output.
pub proof fn leaders_have_what_is_said(
    entries: Seq<StoredEntry>,
    w: WalletIntelligence,
    address: Address,
    stats: WalletStats,
)
    requires
        is_wallet_intelligence(entries, w),
        is_wallet_stats(entries, address@, stats),
    ensures
        w.most_active_address@ == stats.address@ ==> stats.tx_count == w.most_active_tx_count,
        w.most_fragmented_address@ == stats.address@ ==> stats.unspent_count
            == w.most_fragmented_unspent_count,
        w.fastest_growing_address@ == stats.address@ ==> stats.delta_atomic
            == w.fastest_growing_delta_atomic && stats.delta_snap@ == w.fastest_growing_delta_snap@,
        w.highest_spend_rate_address@ == stats.address@ ==> stats.spent_count
            == w.highest_spend_rate_spent && stats.unspent_count + stats.spent_count
            == w.highest_spend_rate_total,
        w.largest_output_receiver@ == stats.address@ ==> stats.largest_output_atomic
            == w.largest_output_amount_atomic,
{
    let key = address@;
    let txs = valid_txs(entries);
    let slots = all_slots(txs);
    let keys = wallets(slots);
    undecodable_entries_only_shift(entries, key);
    lemma_valid_keys_are_whole(entries);
    wallets_are_whole_keys(slots);
    lemma_key_text_is_some(key);
    leader_is_first_largest(activity(txs), 0);
    leader_is_first_largest(fragments(txs), 0);
    leader_is_first_largest(growths(txs), i64::MIN as int);
    leader_is_first_largest(slot_amounts(slots), 0);
    share_leader_is_highest(spend_rates(txs));
    if let Some(i) = leader(activity(txs), 0) {
        if w.most_active_address@ == stats.address@ {
            key_text_is_injective(keys[i], key);
        }
    }
    if let Some(i) = leader(fragments(txs), 0) {
        if w.most_fragmented_address@ == stats.address@ {
            key_text_is_injective(keys[i], key);
        }
    }
    if let Some(i) = leader(growths(txs), i64::MIN as int) {
        if w.fastest_growing_address@ == stats.address@ {
            key_text_is_injective(keys[i], key);
        }
    }
    if let Some(i) = share_leader(spend_rates(txs)) {
        if w.highest_spend_rate_address@ == stats.address@ {
            key_text_is_injective(keys[i], key);
        }
    }
    if let Some(i) = leader(slot_amounts(slots), 0) {
        if w.largest_output_receiver@ == stats.address@ {
            let receiver = (slots[i]->0).1;
            key_text_is_injective(receiver, key);
            largest_is_received(slots, key);
            counts_are_of_slots(slots, key);
            receiver_is_within_the_whole(slots, key);
            assert(is_of(key)(slots[i]));
            lemma_kept(slots, i, key);
            let j = choose|j: int|
                0 <= j < slots.len() && #[trigger] slots[j] == Some(
                    (stats.largest_output_atomic, key),
                );
            assert(slot_amounts(slots)[j] == stats.largest_output_atomic);
        }
    }
}

proof fn lemma_kept(slots: Seq<Slot>, i: int, key: Seq<u8>)
    requires
        0 <= i < slots.len(),
        is_of(key)(slots[i]),
    ensures
        slots.filter(is_of(key)).len() > 0,
{
    slots.lemma_filter_contains(is_of(key), i);
}

/// Whether a text names a wallet: a key that holds an unspent output.
pub open spec fn names_holder(slots: Seq<Slot>, text: Seq<char>) -> bool {
    named_key(text) matches Some(key) && text == key_text(key) && slots.filter(is_of(key)).len() > 0
}

proof fn lemma_wallet_is_named(slots: Seq<Slot>, i: int)
    requires
        whole_keys(slots),
        0 <= i < wallets(slots).len(),
    ensures
        names_holder(slots, key_text(wallets(slots)[i])),
{
    let key = wallets(slots)[i];
    wallets_are_whole_keys(slots);
    wallets_are_the_receivers(slots);
    key_text_names_key(key);
    counts_are_of_slots(slots, key);
    assert(wallets(slots).contains(key));
}

/// Where an output is unspent, a wallet is named as the most active, as the most fragmented and as
/// the fastest growing one, and each is the address of a wallet. Where none is, nothing is named.
/// A wallet is named for its spend rate only where it has at least five outputs and a spent one.
pub proof fn leaders_are_wallets(entries: Seq<StoredEntry>, w: WalletIntelligence)
    requires
        is_wallet_intelligence(entries, w),
    ensures
        ({
            let slots = all_slots(valid_txs(entries));
            &&& w.total_tx_scanned == entries.filter(is_tx()).len()
            &&& w.total_wallets_scanned > 0 <==> slots.filter(is_unspent()).len() > 0
            &&& w.total_wallets_scanned > 0 ==> {
                &&& names_holder(slots, w.most_active_address@)
                &&& names_holder(slots, w.most_fragmented_address@)
                &&& names_holder(slots, w.fastest_growing_address@)
                &&& w.most_active_tx_count > 0
                &&& w.most_fragmented_unspent_count > 0
                &&& w.fastest_growing_delta_atomic >= 0
            }
            &&& w.total_wallets_scanned == 0 ==> {
                &&& w.most_active_address@.len() == 0 && w.most_active_tx_count == 0
                &&& w.most_fragmented_address@.len() == 0 && w.most_fragmented_unspent_count == 0
                &&& w.fastest_growing_address@.len() == 0 && w.fastest_growing_delta_atomic
                    == i64::MIN
                &&& w.highest_spend_rate_address@.len() == 0
            }
            &&& w.highest_spend_rate_address@.len() > 0 ==> {
                &&& names_holder(slots, w.highest_spend_rate_address@)
                &&& w.highest_spend_rate_spent > 0
                &&& w.highest_spend_rate_total >= 5
            }
            &&& w.highest_spend_rate_address@.len() == 0 ==> w.highest_spend_rate_spent == 0
                && w.highest_spend_rate_total == 0
        }),
{
    let txs = valid_txs(entries);
    let slots = all_slots(txs);
    let keys = wallets(slots);
    valid_txs_are_entries(entries);
    lemma_valid_keys_are_whole(entries);
    wallets_are_the_receivers(slots);
    leader_is_first_largest(activity(txs), 0);
    leader_is_first_largest(fragments(txs), 0);
    leader_is_first_largest(growths(txs), i64::MIN as int);
    share_leader_is_highest(spend_rates(txs));
    counts_are_of_slots(slots, seq![]);
    lemma_wallets_where_unspent(slots);
    if keys.len() > 0 {
        let key = keys[0];
        assert(keys.contains(key));
        lemma_history(txs, key);
        lemma_tx_count_within(txs, key);
        lemma_baseline_within(txs, key);
        assert(activity(txs)[0] > 0);
        assert(fragments(txs)[0] > 0);
        assert(growths(txs)[0] >= 0);
        lemma_wallet_is_named(slots, leader(activity(txs), 0)->0);
        lemma_wallet_is_named(slots, leader(fragments(txs), 0)->0);
        lemma_wallet_is_named(slots, leader(growths(txs), i64::MIN as int)->0);
    }
    if let Some(i) = share_leader(spend_rates(txs)) {
        lemma_wallet_is_named(slots, i);
        lemma_key_text_is_some(keys[i]);
    }
}

proof fn lemma_wallets_where_unspent(slots: Seq<Slot>)
    ensures
        wallets(slots).len() > 0 <==> slots.filter(is_unspent()).len() > 0,
    decreases slots.len(),
{
    reveal(Seq::filter);
    if slots.len() > 0 {
        lemma_wallets_where_unspent(slots.drop_last());
    }
}

/// The largest output is an unspent output of a transaction of the store, with the transaction and
/// the receiver that are named beside it; none is larger, and none before it as large. Without one
/// nothing is named.
pub proof fn largest_output_is_stored(entries: Seq<StoredEntry>, w: WalletIntelligence)
    requires
        is_wallet_intelligence(entries, w),
    ensures
        ({
            let txs = valid_txs(entries);
            &&& forall|i: int|
                0 <= i < all_slots(txs).len() ==> #[trigger] amounts(all_slots(txs))[i]
                    <= w.largest_output_amount_atomic
            &&& w.largest_output_amount_snap@ == snap_text(w.largest_output_amount_atomic)
            &&& w.largest_output_amount_atomic > 0 ==> exists|t: int, j: int|
                #![trigger txs[t].slots[j]]
                {
                    &&& 0 <= t < txs.len()
                    &&& 0 <= j < txs[t].slots.len()
                    &&& txs[t].txid == w.largest_output_txid@
                    &&& txs[t].slots[j] matches Some((amount, key)) && amount
                        == w.largest_output_amount_atomic && key_text(key)
                        == w.largest_output_receiver@
                    &&& forall|i: int|
                        0 <= i < all_slots(txs.take(t)).len() + j ==> #[trigger] amounts(
                            all_slots(txs),
                        )[i] < w.largest_output_amount_atomic
                }
            &&& w.largest_output_amount_atomic == 0 ==> w.largest_output_txid@.len() == 0
                && w.largest_output_receiver@.len() == 0
        }),
{
    let txs = valid_txs(entries);
    let slots = all_slots(txs);
    leader_is_first_largest(slot_amounts(slots), 0);
    assert forall|i: int| 0 <= i < slots.len() implies #[trigger] amounts(slots)[i]
        <= w.largest_output_amount_atomic by {
        assert(slot_amounts(slots)[i] == amounts(slots)[i]);
    }
    if let Some(i) = leader(slot_amounts(slots), 0) {
        let (t, j) = lemma_slot_is_stored(txs, i);
        assert(txs[t].slots[j] == slots[i]);
        assert forall|p: int| 0 <= p < i implies #[trigger] amounts(slots)[p]
            < w.largest_output_amount_atomic by {
            assert(slot_amounts(slots)[p] == amounts(slots)[p]);
        }
    }
}

proof fn lemma_slot_is_stored(txs: Seq<Tx>, i: int) -> (at: (int, int))
    requires
        0 <= i < all_slots(txs).len(),
    ensures
        0 <= at.0 < txs.len(),
        0 <= at.1 < txs[at.0].slots.len(),
        txs[at.0].slots[at.1] == all_slots(txs)[i],
        txs[at.0].txid == txid_of_slot(txs, i),
        i == all_slots(txs.take(at.0)).len() + at.1,
    decreases txs.len(),
{
    let rest = txs.drop_last();
    let before = all_slots(rest).len() as int;
    if i >= before {
        assert(txs.take(txs.len() - 1) =~= rest);
        (txs.len() - 1, i - before)
    } else {
        let at = lemma_slot_is_stored(rest, i);
        assert(txs.take(at.0) =~= rest.take(at.0));
        at
    }
}

} // verus!
