//! What holds between the functions of the library.

use vstd::prelude::*;

use crate::amounts::growth;
use crate::buckets::{sorting, txid_keys_share_a_bucket};
use crate::db::{
    are_top_receivers, is_global_metrics, receiver_rows, top_rows, GlobalMetrics, TopReceiverRow,
};
use crate::events::{event_views, EventView};
use crate::index::texts;
use crate::inspect::{bucket_labels, distinct, distinct_labels_appear, occurrences, txid_like};
use crate::intelligence::{
    activity, fragments, growths, higher_share, is_wallet_intelligence, rated, share_leader,
    share_leader_is_highest, slot_amounts, spend_rates, WalletIntelligence,
};
use crate::keys::{
    base36, key_text, key_text_is_injective, key_text_names_key, named_key, Address, KEY_BYTES,
};
use crate::model::{
    all_slots, amount_in, baseline, counts_add_up, entry_txid, every_slot, first_seen, largest_to,
    named_txs, outputs_to, paid_to, pays, receiver_is_within_the_whole, saturated,
    slots_are_spent_or_unspent, spent_beside, tx_count, unspent_count, unspent_sum, valid_txs,
    wallets, wallets_are_the_receivers, wallets_are_whole_keys, StoredEntry, Tx,
};
use crate::outputs::{number_at, slot_at, slots_from, stored_slots, whole_keys, Slot};
use crate::rank::{ahead, leader, leader_is_first_largest, ranking, ranking_ranks};
use crate::rules::{
    coin_text, output_event, output_events, receiver_event, receiver_events, total_event,
    total_events, OutputFactView, ReceiverView, RuleInputView,
};
use crate::scanner::{
    are_events_of, are_stamps, ranked_receivers, receiver_at, rule_input, scan_events, slot_facts,
    tx_events, tx_facts, ScanConfig,
};
use crate::sentinel::{
    follows_poll, is_watch_poll, scan_config, SentinelConfig, SentinelRun, WatchNext,
};
use crate::store::Snapshot;
use crate::tally::wallet_totals;
use crate::text::decimal;
use crate::utxos::paying_txids;
use crate::wallet_stats::{average, is_wallet_stats, lemma_history, lemma_tx_step, WalletStats};

verus! {

// ---------------------------------------------------------------------------
// Totals
// ---------------------------------------------------------------------------

/// The outputs that the global metrics count are the spent and the unspent ones.
pub proof fn metrics_count_every_output(entries: Seq<StoredEntry>, g: GlobalMetrics)
    requires
        is_global_metrics(entries, g),
    ensures
        g.outputs_total == g.outputs_unspent + g.outputs_spent,
        g.wallets_with_unspent <= g.outputs_unspent,
{
    slots_are_spent_or_unspent(all_slots(valid_txs(entries)));
    wallets_are_the_receivers(all_slots(valid_txs(entries)));
}

/// What all of the keys received.
pub open spec fn paid_to_all(slots: Seq<Slot>, keys: Seq<Seq<u8>>) -> nat
    decreases keys.len(),
{
    if keys.len() == 0 {
        0
    } else {
        paid_to_all(slots, keys.drop_last()) + paid_to(slots, keys.last())
    }
}

/// How many outputs all of the keys received.
pub open spec fn outputs_to_all(slots: Seq<Slot>, keys: Seq<Seq<u8>>) -> nat
    decreases keys.len(),
{
    if keys.len() == 0 {
        0
    } else {
        outputs_to_all(slots, keys.drop_last()) + outputs_to(slots, keys.last())
    }
}

proof fn lemma_all_step(slots: Seq<Slot>, slot: Slot, keys: Seq<Seq<u8>>)
    requires
        keys.no_duplicates(),
    ensures
        paid_to_all(slots.push(slot), keys) == paid_to_all(slots, keys) + match slot {
            Some((amount, key)) => if keys.contains(key) {
                amount as nat
            } else {
                0nat
            },
            None => 0nat,
        },
        outputs_to_all(slots.push(slot), keys) == outputs_to_all(slots, keys) + match slot {
            Some((_, key)) => if keys.contains(key) {
                1nat
            } else {
                0nat
            },
            None => 0nat,
        },
    decreases keys.len(),
{
    assert(slots.push(slot).drop_last() =~= slots);
    if keys.len() > 0 {
        let rest = keys.drop_last();
        lemma_all_step(slots, slot, rest);
        if let Some((_, key)) = slot {
            if keys.last() == key {
                assert(!rest.contains(key)) by {
                    if rest.contains(key) {
                        let i = choose|i: int| 0 <= i < rest.len() && rest[i] == key;
                        assert(keys[i] == keys[keys.len() - 1]);
                    }
                }
                assert(keys[keys.len() - 1] == key);
            } else {
                if keys.contains(key) {
                    let i = choose|i: int| 0 <= i < keys.len() && keys[i] == key;
                    assert(rest[i] == key);
                }
                if rest.contains(key) {
                    let i = choose|i: int| 0 <= i < rest.len() && rest[i] == key;
                    assert(keys[i] == key);
                }
            }
        }
    }
}

/// What the wallets received, taken together, is everything that is unspent; so are their outputs.
pub proof fn wallets_share_the_whole(slots: Seq<Slot>)
    ensures
        paid_to_all(slots, wallets(slots)) == unspent_sum(slots),
        outputs_to_all(slots, wallets(slots)) == unspent_count(slots),
    decreases slots.len(),
{
    if slots.len() > 0 {
        let rest = slots.drop_last();
        let slot = slots.last();
        let before = wallets(rest);
        wallets_share_the_whole(rest);
        wallets_are_the_receivers(rest);
        assert(slots =~= rest.push(slot));
        lemma_all_step(rest, slot, before);
        if let Some((amount, key)) = slot {
            if !before.contains(key) {
                assert(before.push(key).drop_last() =~= before);
                receiver_is_within_the_whole(rest, key);
                assert(before.contains(key) <==> outputs_to(rest, key) > 0);
            }
        }
    }
}

// ---------------------------------------------------------------------------
// Balances and receivers
// ---------------------------------------------------------------------------

pub(crate) proof fn lemma_slots_are_whole(bytes: Seq<u8>, at: int, n: nat)
    requires
        0 <= at,
        slots_from(bytes, at, n) is Some,
    ensures
        whole_keys(slots_from(bytes, at, n)->0),
    decreases n,
{
    if n > 0 {
        let (slot, next) = slot_at(bytes, at)->0;
        lemma_slots_are_whole(bytes, next, (n - 1) as nat);
        let rest = slots_from(bytes, next, (n - 1) as nat)->0;
        let all = seq![slot] + rest;
        assert forall|i: int| 0 <= i < all.len() implies match #[trigger] all[i] {
            Some((_, key)) => key.len() == KEY_BYTES,
            None => true,
        } by {
            if i > 0 {
                assert(all[i] == rest[i - 1]);
            }
        }
    }
}

pub(crate) proof fn lemma_every_key_is_whole(entries: Seq<StoredEntry>)
    ensures
        whole_keys(every_slot(entries)),
    decreases entries.len(),
{
    if entries.len() > 0 {
        let rest = entries.drop_last();
        lemma_every_key_is_whole(rest);
        let value = entries.last().value;
        if let Some(slots) = stored_slots(value) {
            let (n, next) = number_at(value, 0)->0;
            lemma_slots_are_whole(value, next, n);
            let all = every_slot(rest) + slots;
            assert forall|i: int| 0 <= i < all.len() implies match #[trigger] all[i] {
                Some((_, key)) => key.len() == KEY_BYTES,
                None => true,
            } by {
                let split = every_slot(rest).len() as int;
                if i < split {
                    assert(all[i] == every_slot(rest)[i]);
                } else {
                    assert(all[i] == slots[i - split]);
                }
            }
        }
    }
}

/// Every row of the top receivers names an address, and its sum is the balance of that address.
pub proof fn top_rows_show_balances(entries: Seq<StoredEntry>, limit: nat, i: int)
    requires
        0 <= i < top_rows(every_slot(entries), limit).len(),
    ensures
        match named_key(top_rows(every_slot(entries), limit)[i].0) {
            Some(key) => top_rows(every_slot(entries), limit)[i].1 == saturated(
                paid_to(every_slot(entries), key),
            ),
            None => false,
        },
{
    let slots = every_slot(entries);
    let totals = wallet_totals(slots);
    lemma_every_key_is_whole(entries);
    wallets_are_whole_keys(slots);
    ranking_ranks(totals);
    let place = ranking(totals)[i];
    key_text_names_key(wallets(slots)[place]);
}

/// The top receivers come in descending order, and none that is left out received more than one
/// that is listed.
pub proof fn top_rows_are_the_top(slots: Seq<Slot>, limit: nat, key: Seq<u8>)
    ensures
        forall|i: int, j: int|
            0 <= i < j < top_rows(slots, limit).len() ==> (#[trigger] top_rows(slots, limit)[i]).1
                >= (#[trigger] top_rows(slots, limit)[j]).1,
        outputs_to(slots, key) > 0 ==> (exists|i: int|
            0 <= i < top_rows(slots, limit).len() && (#[trigger] top_rows(slots, limit)[i]).0
                == key_text(key)) || (top_rows(slots, limit).len() == limit && forall|i: int|
            0 <= i < limit ==> (#[trigger] top_rows(slots, limit)[i]).1 >= saturated(
                paid_to(slots, key),
            )),
{
    let totals = wallet_totals(slots);
    let order = ranking(totals);
    let rows = top_rows(slots, limit);
    ranking_ranks(totals);
    assert forall|i: int, j: int| 0 <= i < j < rows.len() implies (#[trigger] rows[i]).1 >= (
    #[trigger] rows[j]).1 by {
        assert(ahead(totals, order[i], order[j]));
    }
    if outputs_to(slots, key) > 0 {
        wallets_are_the_receivers(slots);
        assert(wallets(slots).contains(key));
        let place = choose|place: int|
            0 <= place < wallets(slots).len() && wallets(slots)[place] == key;
        assert(order.contains(place));
        let p = choose|p: int| 0 <= p < order.len() && order[p] == place;
        if p < rows.len() {
            assert(rows[p].0 == key_text(key));
        } else {
            assert forall|i: int| 0 <= i < limit implies (#[trigger] rows[i]).1 >= saturated(
                paid_to(slots, key),
            ) by {
                assert(ahead(totals, order[i], order[p]));
                assert(totals[place] == saturated(paid_to(slots, key)));
            }
        }
    }
}

/// The transactions are among the entries: a balance is at least what the transactions pay, and
/// just that where the key of every entry that decodes names a transaction.
pub proof fn balance_covers_the_transactions(entries: Seq<StoredEntry>, key: Seq<u8>)
    ensures
        paid_to(all_slots(valid_txs(entries)), key) <= paid_to(every_slot(entries), key),
        (forall|i: int|
            0 <= i < entries.len() && stored_slots((#[trigger] entries[i]).value) is Some
                ==> entry_txid(entries[i]) is Some) ==> all_slots(valid_txs(entries))
            == every_slot(entries),
    decreases entries.len(),
{
    if entries.len() > 0 {
        let rest = entries.drop_last();
        let last = entries.last();
        balance_covers_the_transactions(rest, key);
        assert forall|i: int| 0 <= i < rest.len() implies rest[i] == #[trigger] entries[i] by {}
        assert(entries[entries.len() - 1] == last);
        if let Some(slots) = stored_slots(last.value) {
            counts_add_up(every_slot(rest), slots, key);
            if let Some(txid) = entry_txid(last) {
                let tx = Tx { txid, slots };
                assert(valid_txs(rest).push(tx).drop_last() =~= valid_txs(rest));
                counts_add_up(all_slots(valid_txs(rest)), slots, key);
            }
        }
        if forall|i: int|
            0 <= i < entries.len() && stored_slots((#[trigger] entries[i]).value) is Some
                ==> entry_txid(entries[i]) is Some {
            assert forall|i: int|
                0 <= i < rest.len() && stored_slots((#[trigger] rest[i]).value) is Some implies
                entry_txid(rest[i]) is Some by {
                assert(rest[i] == entries[i]);
            }
        }
    }
}

/// A balance is the sum in the one row that names the address among all receivers, and zero where
/// no row does. It is at least the total of the wallet's summary, and just that where the key of
/// every entry that decodes names a transaction.
pub proof fn balance_is_the_row_of_its_address(
    entries: Seq<StoredEntry>,
    address: Address,
    balance: u64,
    rows: Seq<TopReceiverRow>,
    stats: WalletStats,
)
    requires
        balance == saturated(paid_to(every_slot(entries), address@)),
        are_top_receivers(entries, usize::MAX, rows),
        is_wallet_stats(entries, address@, stats),
    ensures
        forall|i: int|
            0 <= i < rows.len() && (#[trigger] rows[i]).receiver_base36@ == key_text(address@)
                ==> rows[i].total_unspent == balance,
        forall|i: int, j: int|
            0 <= i < j < rows.len() ==> (#[trigger] rows[i]).receiver_base36@ != (
            #[trigger] rows[j]).receiver_base36@,
        (forall|i: int|
            0 <= i < rows.len() ==> (#[trigger] rows[i]).receiver_base36@ != key_text(address@))
            ==> balance == 0,
        balance >= stats.total_unspent_atomic,
        (forall|i: int|
            0 <= i < entries.len() && stored_slots((#[trigger] entries[i]).value) is Some
                ==> entry_txid(entries[i]) is Some) ==> balance == stats.total_unspent_atomic,
{
    let slots = every_slot(entries);
    let key = address@;
    let totals = wallet_totals(slots);
    let order = ranking(totals);
    let said = top_rows(slots, usize::MAX as nat);
    lemma_every_key_is_whole(entries);
    wallets_are_whole_keys(slots);
    wallets_are_the_receivers(slots);
    ranking_ranks(totals);
    assert(said.len() == totals.len());
    assert forall|i: int| 0 <= i < rows.len() implies (#[trigger] rows[i])@ == said[i] by {
        assert(receiver_rows(rows)[i] == rows[i]@);
    }
    assert forall|i: int|
        0 <= i < rows.len() && (#[trigger] rows[i]).receiver_base36@ == key_text(key) implies
        rows[i].total_unspent == balance by {
        assert(rows[i]@ == said[i]);
        key_text_is_injective(wallets(slots)[order[i]], key);
    }
    assert forall|i: int, j: int| 0 <= i < j < rows.len() implies (
    #[trigger] rows[i]).receiver_base36@ != (#[trigger] rows[j]).receiver_base36@ by {
        assert(rows[i]@ == said[i] && rows[j]@ == said[j]);
        assert(ahead(totals, order[i], order[j]));
        if rows[i].receiver_base36@ == rows[j].receiver_base36@ {
            key_text_is_injective(wallets(slots)[order[i]], wallets(slots)[order[j]]);
        }
    }
    if forall|i: int|
        0 <= i < rows.len() ==> (#[trigger] rows[i]).receiver_base36@ != key_text(key) {
        if outputs_to(slots, key) > 0 {
            assert(wallets(slots).contains(key));
            let place = choose|place: int|
                0 <= place < wallets(slots).len() && wallets(slots)[place] == key;
            assert(order.contains(place));
            let p = choose|p: int| 0 <= p < order.len() && order[p] == place;
            assert(receiver_rows(rows).len() == rows.len());
            assert(rows[p]@ == said[p]);
        }
        receiver_is_within_the_whole(slots, key);
    }
    balance_covers_the_transactions(entries, key);
    undecodable_entries_only_shift(entries, key);
}

// ---------------------------------------------------------------------------
// Wallets
// ---------------------------------------------------------------------------

/// Entries that name a transaction but do not decode shift positions and change nothing else.
pub proof fn undecodable_entries_only_shift(entries: Seq<StoredEntry>, key: Seq<u8>)
    ensures
        all_slots(named_txs(entries)) == all_slots(valid_txs(entries)),
        tx_count(named_txs(entries), key) == tx_count(valid_txs(entries), key),
        spent_beside(named_txs(entries), key) == spent_beside(valid_txs(entries), key),
        baseline(named_txs(entries), key) == baseline(valid_txs(entries), key),
        first_seen(named_txs(entries), key) is Some <==> first_seen(valid_txs(entries), key)
            is Some,
        match (first_seen(named_txs(entries), key), first_seen(valid_txs(entries), key)) {
            (Some(i), Some(j)) => j <= i && named_txs(entries)[i] == valid_txs(entries)[j],
            _ => true,
        },
    decreases entries.len(),
{
    if entries.len() > 0 {
        let rest = entries.drop_last();
        let last = entries.last();
        undecodable_entries_only_shift(rest, key);
        let named = named_txs(rest);
        let valid = valid_txs(rest);
        lemma_history(named, key);
        lemma_history(valid, key);
        lemma_valid_are_named(rest);
        if let Some(txid) = entry_txid(last) {
            match stored_slots(last.value) {
                Some(slots) => {
                    let tx = Tx { txid, slots };
                    lemma_tx_step(named, tx, key);
                    lemma_tx_step(valid, tx, key);
                },
                None => {
                    let tx = Tx { txid, slots: Seq::<Slot>::empty() };
                    lemma_tx_step(named, tx, key);
                    assert(all_slots(named) + tx.slots =~= all_slots(named));
                },
            }
        }
    }
}

proof fn lemma_valid_are_named(entries: Seq<StoredEntry>)
    ensures
        valid_txs(entries).len() <= named_txs(entries).len(),
    decreases entries.len(),
{
    if entries.len() > 0 {
        lemma_valid_are_named(entries.drop_last());
    }
}

/// The number of transactions of a wallet is the number of those listed for its address.
pub proof fn tx_count_is_the_length_of_the_list(txs: Seq<Tx>, key: Seq<u8>)
    ensures
        paying_txids(txs, key).len() == tx_count(txs, key),
    decreases txs.len(),
{
    if txs.len() > 0 {
        tx_count_is_the_length_of_the_list(txs.drop_last(), key);
    }
}

pub(crate) proof fn lemma_baseline_within(txs: Seq<Tx>, key: Seq<u8>)
    ensures
        baseline(txs, key) <= saturated(paid_to(all_slots(txs), key)),
    decreases txs.len(),
{
    if txs.len() > 0 {
        let rest = txs.drop_last();
        lemma_baseline_within(rest, key);
        assert(txs =~= rest.push(txs.last()));
        lemma_tx_step(rest, txs.last(), key);
        counts_add_up(all_slots(rest), txs.last().slots, key);
    }
}

/// A wallet never holds less than its baseline: its growth is what it received since, as far as a
/// signed number of 64 bits can hold it, and its trend is not falling.
pub proof fn wallets_do_not_fall(entries: Seq<StoredEntry>, key: Seq<u8>, w: WalletStats)
    requires
        is_wallet_stats(entries, key, w),
    ensures
        w.baseline_unspent_atomic <= w.total_unspent_atomic,
        w.delta_atomic == if w.total_unspent_atomic - w.baseline_unspent_atomic > i64::MAX {
            i64::MAX as int
        } else {
            w.total_unspent_atomic - w.baseline_unspent_atomic
        },
        w.trend@ != "falling"@,
{
    lemma_baseline_within(named_txs(entries), key);
    reveal_strlit("falling");
    reveal_strlit("rising");
    reveal_strlit("stable");
    assert("falling"@[0] == 'f' && "rising"@[0] == 'r' && "stable"@[0] == 's');
}

proof fn lemma_sum_within(slots: Seq<Slot>, key: Seq<u8>)
    ensures
        paid_to(slots, key) <= outputs_to(slots, key) * largest_to(slots, key),
    decreases slots.len(),
{
    if slots.len() > 0 {
        let rest = slots.drop_last();
        lemma_sum_within(rest, key);
        let n = outputs_to(rest, key);
        let before = largest_to(rest, key);
        let now = largest_to(slots, key);
        let amount = amount_in(slots.last());
        assert(n * before <= n * now) by (nonlinear_arith)
            requires
                before <= now,
        ;
        if pays(slots.last(), key) {
            assert((n + 1) * now == n * now + now) by (nonlinear_arith);
        }
    }
}

/// The average output of a wallet is no larger than its largest, and that is no larger than its
/// balance; its spend rate is a part of a whole.
pub proof fn wallet_stats_are_consistent(entries: Seq<StoredEntry>, key: Seq<u8>, w: WalletStats)
    requires
        is_wallet_stats(entries, key, w),
    ensures
        w.avg_output_atomic <= w.largest_output_atomic <= w.total_unspent_atomic,
        w.spend_rate.part <= w.spend_rate.whole,
        w.tx_count <= w.unspent_count,
        w.tx_count == 0 <==> w.unspent_count == 0,
{
    let txs = named_txs(entries);
    let slots = all_slots(txs);
    let count = outputs_to(slots, key);
    let total = saturated(paid_to(slots, key));
    let largest = largest_to(slots, key);
    lemma_sum_within(slots, key);
    receiver_is_within_the_whole(slots, key);
    lemma_tx_count_within(txs, key);
    if count > 0 {
        assert(total as nat / count <= largest) by (nonlinear_arith)
            requires
                total <= count * largest,
                count > 0,
        ;
    }
}

pub(crate) proof fn lemma_tx_count_within(txs: Seq<Tx>, key: Seq<u8>)
    ensures
        tx_count(txs, key) <= outputs_to(all_slots(txs), key),
        tx_count(txs, key) == 0 ==> outputs_to(all_slots(txs), key) == 0,
    decreases txs.len(),
{
    if txs.len() > 0 {
        let rest = txs.drop_last();
        lemma_tx_count_within(rest, key);
        assert(txs =~= rest.push(txs.last()));
        lemma_tx_step(rest, txs.last(), key);
    }
}

/// The scans agree on how many wallets and transactions there are.
pub proof fn scans_agree(entries: Seq<StoredEntry>, g: GlobalMetrics, w: WalletIntelligence)
    requires
        is_global_metrics(entries, g),
        is_wallet_intelligence(entries, w),
    ensures
        g.wallets_with_unspent == w.total_wallets_scanned,
        g.tx_entries_scanned == w.total_tx_scanned,
        w.largest_output_amount_atomic <= g.utxo_total_unspent_atomic,
{
    let slots = all_slots(valid_txs(entries));
    leader_is_first_largest(slot_amounts(slots), 0);
    if let Some(i) = leader(slot_amounts(slots), 0) {
        lemma_amount_within(slots, i);
    }
}

proof fn lemma_amount_within(slots: Seq<Slot>, i: int)
    requires
        0 <= i < slots.len(),
    ensures
        amount_in(slots[i]) <= unspent_sum(slots),
    decreases slots.len(),
{
    if i < slots.len() - 1 {
        lemma_amount_within(slots.drop_last(), i);
    }
}

/// No wallet is more active, more fragmented or faster growing than the one that is named for it,
/// and none received a larger output than the one that is named. Where there is a wallet at all,
/// one is named as the fastest growing.
pub proof fn no_wallet_beats_the_leaders(
    entries: Seq<StoredEntry>,
    w: WalletIntelligence,
    key: Seq<u8>,
    stats: WalletStats,
)
    requires
        is_wallet_intelligence(entries, w),
        is_wallet_stats(entries, key, stats),
    ensures
        stats.tx_count <= w.most_active_tx_count,
        stats.unspent_count <= w.most_fragmented_unspent_count,
        stats.unspent_count > 0 ==> stats.delta_atomic <= w.fastest_growing_delta_atomic
            && w.fastest_growing_address@.len() > 0,
        stats.largest_output_atomic <= w.largest_output_amount_atomic,
{
    let txs = valid_txs(entries);
    let slots = all_slots(txs);
    let keys = wallets(slots);
    undecodable_entries_only_shift(entries, key);
    leader_is_first_largest(activity(txs), 0);
    leader_is_first_largest(fragments(txs), 0);
    leader_is_first_largest(growths(txs), i64::MIN as int);
    leader_is_first_largest(slot_amounts(slots), 0);
    wallets_are_the_receivers(slots);
    lemma_tx_count_within(txs, key);
    receiver_is_within_the_whole(slots, key);
    if outputs_to(slots, key) > 0 {
        assert(keys.contains(key));
        let p = choose|p: int| 0 <= p < keys.len() && keys[p] == key;
        assert(activity(txs)[p] == tx_count(txs, key));
        assert(fragments(txs)[p] == outputs_to(slots, key));
        assert(growths(txs)[p] == growth(baseline(txs, key), saturated(paid_to(slots, key))));
        lemma_baseline_within(txs, key);
        if let Some(i) = leader(growths(txs), i64::MIN as int) {
            lemma_key_text_is_some(keys[i]);
        }
    }
    if largest_to(slots, key) > 0 {
        let i = lemma_largest_is_there(slots, key);
        assert(slot_amounts(slots)[i] == largest_to(slots, key));
    }
}

proof fn lemma_largest_is_there(slots: Seq<Slot>, key: Seq<u8>) -> (i: int)
    requires
        largest_to(slots, key) > 0,
    ensures
        0 <= i < slots.len(),
        amount_in(slots[i]) == largest_to(slots, key),
    decreases slots.len(),
{
    let rest = slots.drop_last();
    if pays(slots.last(), key) && amount_in(slots.last()) > largest_to(rest, key) {
        slots.len() - 1
    } else {
        lemma_largest_is_there(rest, key)
    }
}

/// No wallet with at least five outputs spends a higher share of them than the one that is named for it.
pub proof fn no_wallet_outspends_the_leader(
    entries: Seq<StoredEntry>,
    w: WalletIntelligence,
    key: Seq<u8>,
    stats: WalletStats,
)
    requires
        is_wallet_intelligence(entries, w),
        is_wallet_stats(entries, key, stats),
        stats.unspent_count > 0,
        stats.spend_rate.whole >= 5,
    ensures
        stats.spend_rate.part * w.highest_spend_rate_total <= w.highest_spend_rate_spent
            * stats.spend_rate.whole,
        stats.spend_rate.part > 0 ==> w.highest_spend_rate_address@.len() > 0
            && w.highest_spend_rate_total >= 5,
{
    let txs = valid_txs(entries);
    let slots = all_slots(txs);
    let keys = wallets(slots);
    let shares = spend_rates(txs);
    undecodable_entries_only_shift(entries, key);
    wallets_are_the_receivers(slots);
    assert(keys.contains(key));
    let p = choose|p: int| 0 <= p < keys.len() && keys[p] == key;
    share_leader_is_highest(shares);
    assert(shares[p] == (stats.spend_rate.part as int, stats.spend_rate.whole as int));
    assert(rated(shares[p]));
    match share_leader(shares) {
        Some(i) => {
            assert(!higher_share(shares[p], shares[i]));
            lemma_key_text_is_some(keys[i]);
        },
        None => {
            assert(shares[p].0 == 0);
        },
    }
}

pub(crate) proof fn lemma_key_text_is_some(key: Seq<u8>)
    ensures
        key_text(key).len() > 0,
{
    reveal_with_fuel(base36, 1);
}

// ---------------------------------------------------------------------------
// Histograms
// ---------------------------------------------------------------------------

/// How often all of the labels appear.
pub open spec fn occurrences_of_all(labels: Seq<Seq<char>>, of: Seq<Seq<char>>) -> nat
    decreases of.len(),
{
    if of.len() == 0 {
        0
    } else {
        occurrences_of_all(labels, of.drop_last()) + occurrences(labels, of.last())
    }
}

pub(crate) proof fn lemma_occurrence_step(labels: Seq<Seq<char>>, label: Seq<char>, of: Seq<Seq<char>>)
    requires
        of.no_duplicates(),
    ensures
        occurrences_of_all(labels.push(label), of) == occurrences_of_all(labels, of) + if of.contains(
            label,
        ) {
            1nat
        } else {
            0nat
        },
    decreases of.len(),
{
    assert(labels.push(label).drop_last() =~= labels);
    if of.len() > 0 {
        let rest = of.drop_last();
        lemma_occurrence_step(labels, label, rest);
        if of.last() == label {
            assert(!rest.contains(label)) by {
                if rest.contains(label) {
                    let i = choose|i: int| 0 <= i < rest.len() && rest[i] == label;
                    assert(of[i] == of[of.len() - 1]);
                }
            }
            assert(of[of.len() - 1] == label);
        } else {
            if of.contains(label) {
                let i = choose|i: int| 0 <= i < of.len() && of[i] == label;
                assert(rest[i] == label);
            }
            if rest.contains(label) {
                let i = choose|i: int| 0 <= i < rest.len() && rest[i] == label;
                assert(of[i] == label);
            }
        }
    }
}

/// The buckets of a histogram, taken together, hold every key that was sampled.
pub proof fn histograms_hold_every_key(labels: Seq<Seq<char>>)
    ensures
        occurrences_of_all(labels, distinct(labels)) == labels.len(),
    decreases labels.len(),
{
    if labels.len() > 0 {
        let rest = labels.drop_last();
        let last = labels.last();
        let before = distinct(rest);
        histograms_hold_every_key(rest);
        distinct_labels_appear(rest);
        assert(labels =~= rest.push(last));
        lemma_occurrence_step(rest, last, before);
        if !before.contains(last) {
            assert(before.push(last).drop_last() =~= before);
            assert(before.contains(last) <==> occurrences(rest, last) > 0);
        }
    }
}

/// The keys that look like transaction ids are those in the bucket of transaction ids.
pub proof fn txid_like_keys_are_in_their_bucket(entries: Seq<StoredEntry>)
    ensures
        txid_like(entries) == occurrences(bucket_labels(entries), "txid"@),
    decreases entries.len(),
{
    if entries.len() > 0 {
        let rest = entries.drop_last();
        txid_like_keys_are_in_their_bucket(rest);
        txid_keys_share_a_bucket(entries.last().key);
        assert(bucket_labels(entries).drop_last() =~= bucket_labels(rest));
        assert(bucket_labels(entries).last() == sorting(entries.last().key).bucket);
    }
}

// ---------------------------------------------------------------------------
// Alerts
// ---------------------------------------------------------------------------

/// What is known of the output in the slot at position `i`.
pub open spec fn fact_at(slots: Seq<Slot>, i: int) -> OutputFactView {
    match slots[i] {
        Some((amount, key)) => OutputFactView {
            index: i as u32,
            address: key_text(key),
            amount_atomic: amount,
            amount_display: coin_text(amount),
        },
        None => arbitrary(),
    }
}

proof fn lemma_fact_is_there(slots: Seq<Slot>, i: int)
    requires
        0 <= i < slots.len(),
        slots[i] is Some,
    ensures
        slot_facts(slots).contains(fact_at(slots, i)),
    decreases slots.len(),
{
    let rest = slots.drop_last();
    let before = slot_facts(rest);
    if i == slots.len() - 1 {
        assert(slot_facts(slots)[before.len() as int] == fact_at(slots, i));
    } else {
        lemma_fact_is_there(rest, i);
        let p = choose|p: int| 0 <= p < before.len() && before[p] == fact_at(rest, i);
        assert(slot_facts(slots)[p] == fact_at(slots, i));
    }
}

proof fn lemma_output_event_is_there(
    input: RuleInputView,
    threshold: u64,
    facts: Seq<OutputFactView>,
    fact: OutputFactView,
)
    requires
        facts.contains(fact),
        fact.amount_atomic >= threshold,
    ensures
        output_events(input, threshold, facts).contains(output_event(input, threshold, fact)),
    decreases facts.len(),
{
    let rest = facts.drop_last();
    let before = output_events(input, threshold, rest);
    let all = output_events(input, threshold, facts);
    let i = choose|i: int| 0 <= i < facts.len() && facts[i] == fact;
    if i == facts.len() - 1 {
        assert(all[before.len() as int] == output_event(input, threshold, fact));
    } else {
        assert(rest[i] == fact);
        lemma_output_event_is_there(input, threshold, rest, fact);
        let p = choose|p: int|
            0 <= p < before.len() && before[p] == output_event(input, threshold, fact);
        assert(all[p] == output_event(input, threshold, fact));
    }
}

pub(crate) proof fn lemma_receiver_event_is_there(
    input: RuleInputView,
    threshold: u64,
    facts: Seq<ReceiverView>,
    fact: ReceiverView,
)
    requires
        facts.contains(fact),
        fact.total_atomic >= threshold,
    ensures
        receiver_events(input, threshold, facts).contains(receiver_event(input, threshold, fact)),
    decreases facts.len(),
{
    let rest = facts.drop_last();
    let before = receiver_events(input, threshold, rest);
    let all = receiver_events(input, threshold, facts);
    let i = choose|i: int| 0 <= i < facts.len() && facts[i] == fact;
    if i == facts.len() - 1 {
        assert(all[before.len() as int] == receiver_event(input, threshold, fact));
    } else {
        assert(rest[i] == fact);
        lemma_receiver_event_is_there(input, threshold, rest, fact);
        let p = choose|p: int|
            0 <= p < before.len() && before[p] == receiver_event(input, threshold, fact);
        assert(all[p] == receiver_event(input, threshold, fact));
    }
}

proof fn lemma_slot_within_receiver(slots: Seq<Slot>, i: int, key: Seq<u8>)
    requires
        0 <= i < slots.len(),
        pays(slots[i], key),
    ensures
        amount_in(slots[i]) <= paid_to(slots, key),
        outputs_to(slots, key) > 0,
    decreases slots.len(),
{
    if i < slots.len() - 1 {
        lemma_slot_within_receiver(slots.drop_last(), i, key);
    }
}

/// What the rules are told of a transaction of the store.
pub open spec fn input_of(cfg: ScanConfig, db_height: u64, at: Seq<char>, tx: Tx) -> RuleInputView {
    rule_input(cfg, db_height, at, tx_facts(tx))
}

/// An output that reaches the threshold of a rule raises an event of that rule: for itself, for the
/// transaction, or for its receiver, who got at least as much.
pub proof fn large_outputs_alert_every_rule(
    cfg: ScanConfig,
    db_height: u64,
    at: Seq<char>,
    tx: Tx,
    i: int,
) -> (receiver: ReceiverView)
    requires
        0 <= i < tx.slots.len(),
        tx.slots[i] is Some,
    ensures
        ({
            let events = tx_events(cfg, db_height, at, tx);
            let input = input_of(cfg, db_height, at, tx);
            let fact = fact_at(tx.slots, i);
            &&& receiver.address == fact.address
            &&& receiver.total_atomic >= fact.amount_atomic
            &&& fact.amount_atomic >= cfg.thresholds.abnormal_output_atomic ==> events.contains(
                output_event(input, cfg.thresholds.abnormal_output_atomic, fact),
            )
            &&& fact.amount_atomic >= cfg.thresholds.abnormal_tx_total_atomic ==> events.contains(
                total_event(input, cfg.thresholds.abnormal_tx_total_atomic),
            )
            &&& fact.amount_atomic >= cfg.thresholds.receiver_concentration_atomic
                ==> events.contains(
                receiver_event(input, cfg.thresholds.receiver_concentration_atomic, receiver),
            )
        }),
{
    let slots = tx.slots;
    let (amount, key) = slots[i]->0;
    let input = input_of(cfg, db_height, at, tx);
    let fact = fact_at(slots, i);
    let first = output_events(input, cfg.thresholds.abnormal_output_atomic, input.outputs);
    let second = total_events(input, cfg.thresholds.abnormal_tx_total_atomic);
    let third = receiver_events(
        input,
        cfg.thresholds.receiver_concentration_atomic,
        input.receiver_aggregates,
    );
    let events = first + second + third;
    lemma_fact_is_there(slots, i);
    lemma_slot_within_receiver(slots, i, key);
    lemma_amount_within(slots, i);
    wallets_are_the_receivers(slots);
    assert(wallets(slots).contains(key));
    let place = choose|p: int| 0 <= p < wallets(slots).len() && wallets(slots)[p] == key;
    let totals = wallet_totals(slots);
    ranking_ranks(totals);
    assert(ranking(totals).contains(place));
    let p = choose|p: int| 0 <= p < ranking(totals).len() && ranking(totals)[p] == place;
    let receiver = ranked_receivers(slots)[p];
    assert(receiver == receiver_at(slots, place));
    assert(input.receiver_aggregates.contains(receiver));
    if amount >= cfg.thresholds.abnormal_output_atomic {
        let threshold = cfg.thresholds.abnormal_output_atomic;
        lemma_output_event_is_there(input, threshold, input.outputs, fact);
        let q = choose|q: int|
            0 <= q < first.len() && first[q] == output_event(input, threshold, fact);
        assert(events[q] == first[q]);
    }
    if amount >= cfg.thresholds.abnormal_tx_total_atomic {
        assert(events[first.len() as int] == second[0]);
    }
    if amount >= cfg.thresholds.receiver_concentration_atomic {
        let threshold = cfg.thresholds.receiver_concentration_atomic;
        lemma_receiver_event_is_there(input, threshold, input.receiver_aggregates, receiver);
        let q = choose|q: int|
            0 <= q < third.len() && third[q] == receiver_event(input, threshold, receiver);
        assert(events[first.len() + second.len() + q] == third[q]);
    }
    receiver
}

proof fn lemma_no_output_event(
    input: RuleInputView,
    threshold: u64,
    slots: Seq<Slot>,
)
    requires
        saturated(unspent_sum(slots)) < threshold,
    ensures
        output_events(input, threshold, slot_facts(slots)).len() == 0,
    decreases slots.len(),
{
    if slots.len() > 0 {
        let rest = slots.drop_last();
        lemma_no_output_event(input, threshold, rest);
        if let Some((amount, key)) = slots.last() {
            let facts = slot_facts(slots);
            assert(facts.drop_last() =~= slot_facts(rest));
        }
    }
}

proof fn lemma_no_receiver_event(
    input: RuleInputView,
    threshold: u64,
    facts: Seq<ReceiverView>,
)
    requires
        forall|i: int| 0 <= i < facts.len() ==> (#[trigger] facts[i]).total_atomic < threshold,
    ensures
        receiver_events(input, threshold, facts).len() == 0,
    decreases facts.len(),
{
    if facts.len() > 0 {
        let rest = facts.drop_last();
        assert forall|i: int| 0 <= i < rest.len() implies (#[trigger] rest[i]).total_atomic
            < threshold by {
            assert(rest[i] == facts[i]);
        }
        lemma_no_receiver_event(input, threshold, rest);
        assert(facts[facts.len() - 1] == facts.last());
    }
}

/// A transaction whose total is below every threshold raises no event.
pub proof fn small_transactions_are_clean(cfg: ScanConfig, db_height: u64, at: Seq<char>, tx: Tx)
    requires
        saturated(unspent_sum(tx.slots)) < cfg.thresholds.abnormal_output_atomic,
        saturated(unspent_sum(tx.slots)) < cfg.thresholds.abnormal_tx_total_atomic,
        saturated(unspent_sum(tx.slots)) < cfg.thresholds.receiver_concentration_atomic,
    ensures
        tx_events(cfg, db_height, at, tx).len() == 0,
{
    let slots = tx.slots;
    let input = input_of(cfg, db_height, at, tx);
    lemma_no_output_event(input, cfg.thresholds.abnormal_output_atomic, slots);
    let totals = wallet_totals(slots);
    ranking_ranks(totals);
    let facts = ranked_receivers(slots);
    assert forall|i: int| 0 <= i < facts.len() implies (#[trigger] facts[i]).total_atomic
        < cfg.thresholds.receiver_concentration_atomic by {
        let place = ranking(totals)[i];
        receiver_is_within_the_whole(slots, wallets(slots)[place]);
    }
    lemma_no_receiver_event(input, cfg.thresholds.receiver_concentration_atomic, facts);
}

/// The events of a scan are those of its parts, one after the other.
pub proof fn scans_add_up(
    cfg: ScanConfig,
    db_height: u64,
    first_stamps: Seq<Seq<char>>,
    first: Seq<Tx>,
    second_stamps: Seq<Seq<char>>,
    second: Seq<Tx>,
)
    requires
        first_stamps.len() == first.len(),
        second_stamps.len() == second.len(),
    ensures
        scan_events(cfg, db_height, first_stamps + second_stamps, first + second) == scan_events(
            cfg,
            db_height,
            first_stamps,
            first,
        ) + scan_events(cfg, db_height, second_stamps, second),
    decreases second.len(),
{
    if second.len() == 0 {
        assert(first + second =~= first);
        assert(first_stamps + second_stamps =~= first_stamps);
        assert(scan_events(cfg, db_height, first_stamps, first) + Seq::<EventView>::empty()
            =~= scan_events(cfg, db_height, first_stamps, first));
    } else {
        let rest = second.drop_last();
        let rest_stamps = second_stamps.drop_last();
        scans_add_up(cfg, db_height, first_stamps, first, rest_stamps, rest);
        assert((first + second).drop_last() =~= first + rest);
        assert((first_stamps + second_stamps).drop_last() =~= first_stamps + rest_stamps);
        assert((first + second).last() == second.last());
        assert((first_stamps + second_stamps).last() == second_stamps.last());
        let a = scan_events(cfg, db_height, first_stamps, first);
        let b = scan_events(cfg, db_height, rest_stamps, rest);
        let c = tx_events(cfg, db_height, second_stamps.last(), second.last());
        assert((a + b) + c =~= a + (b + c));
    }
}

// ---------------------------------------------------------------------------
// Watching
// ---------------------------------------------------------------------------

/// An event but for the time at which it was detected.
pub open spec fn undated(event: EventView) -> EventView {
    EventView { detected_at: seq![], ..event }
}

/// Events but for the times at which they were detected.
pub open spec fn all_undated(events: Seq<EventView>) -> Seq<EventView> {
    Seq::new(events.len(), |i: int| undated(events[i]))
}

/// The events that transactions raise, but for the times.
pub open spec fn undated_events(cfg: ScanConfig, db_height: u64, txs: Seq<Tx>) -> Seq<EventView>
    decreases txs.len(),
{
    if txs.len() == 0 {
        seq![]
    } else {
        undated_events(cfg, db_height, txs.drop_last()) + tx_events(
            cfg,
            db_height,
            seq![],
            txs.last(),
        )
    }
}

proof fn lemma_output_events_undated(
    input: RuleInputView,
    threshold: u64,
    facts: Seq<OutputFactView>,
)
    ensures
        all_undated(output_events(input, threshold, facts)) == output_events(
            RuleInputView { detected_at: seq![], ..input },
            threshold,
            facts,
        ),
    decreases facts.len(),
{
    let plain = RuleInputView { detected_at: seq![], ..input };
    if facts.len() > 0 {
        lemma_output_events_undated(input, threshold, facts.drop_last());
    }
    assert(all_undated(output_events(input, threshold, facts)) =~= output_events(
        plain,
        threshold,
        facts,
    ));
}

proof fn lemma_receiver_events_undated(
    input: RuleInputView,
    threshold: u64,
    facts: Seq<ReceiverView>,
)
    ensures
        all_undated(receiver_events(input, threshold, facts)) == receiver_events(
            RuleInputView { detected_at: seq![], ..input },
            threshold,
            facts,
        ),
    decreases facts.len(),
{
    let plain = RuleInputView { detected_at: seq![], ..input };
    if facts.len() > 0 {
        lemma_receiver_events_undated(input, threshold, facts.drop_last());
    }
    assert(all_undated(receiver_events(input, threshold, facts)) =~= receiver_events(
        plain,
        threshold,
        facts,
    ));
}

/// But for its stamp, an event does not depend on when a transaction is looked at.
pub proof fn only_stamps_depend_on_the_time(
    cfg: ScanConfig,
    db_height: u64,
    at: Seq<char>,
    tx: Tx,
)
    ensures
        all_undated(tx_events(cfg, db_height, at, tx)) == tx_events(cfg, db_height, seq![], tx),
{
    let input = input_of(cfg, db_height, at, tx);
    let plain = input_of(cfg, db_height, seq![], tx);
    let t = cfg.thresholds;
    assert(plain == RuleInputView { detected_at: seq![], ..input });
    lemma_output_events_undated(input, t.abnormal_output_atomic, input.outputs);
    lemma_receiver_events_undated(
        input,
        t.receiver_concentration_atomic,
        input.receiver_aggregates,
    );
    assert(all_undated(total_events(input, t.abnormal_tx_total_atomic)) =~= total_events(
        plain,
        t.abnormal_tx_total_atomic,
    ));
    assert(all_undated(tx_events(cfg, db_height, at, tx)) =~= tx_events(
        cfg,
        db_height,
        seq![],
        tx,
    ));
}

pub(crate) proof fn lemma_scan_undated(
    cfg: ScanConfig,
    db_height: u64,
    stamps: Seq<Seq<char>>,
    txs: Seq<Tx>,
)
    ensures
        all_undated(scan_events(cfg, db_height, stamps, txs)) == undated_events(
            cfg,
            db_height,
            txs,
        ),
    decreases txs.len(),
{
    if txs.len() > 0 {
        lemma_scan_undated(cfg, db_height, stamps.drop_last(), txs.drop_last());
        only_stamps_depend_on_the_time(cfg, db_height, stamps.last(), txs.last());
        let a = scan_events(cfg, db_height, stamps.drop_last(), txs.drop_last());
        let b = tx_events(cfg, db_height, stamps.last(), txs.last());
        assert(all_undated(a + b) =~= all_undated(a) + all_undated(b));
    } else {
        assert(all_undated(seq![]) =~= seq![]);
    }
}

/// Whether the watch mode, on these readings of the store, went through these runs, each followed
/// by what stands beside it: it polls again only after it has slept.
pub open spec fn is_watch(
    cfg: SentinelConfig,
    readings: Seq<Snapshot>,
    runs: Seq<SentinelRun>,
    nexts: Seq<WatchNext>,
) -> bool {
    &&& readings.len() == runs.len() == nexts.len()
    &&& forall|j: int|
        0 <= j < runs.len() ==> is_watch_poll(readings[j], cfg, #[trigger] runs[j])
            && follows_poll(cfg, runs[j], nexts[j])
    &&& forall|j: int| 0 <= j < runs.len() - 1 ==> #[trigger] nexts[j] is Sleep
}

/// Every poll of the watch mode shows all events of the store as it then is, those that were shown
/// before among them, or says that there are none, and sleeps for the configured time. The mode
/// ends at the first poll that meets a fault, with that fault, and nowhere else.
pub proof fn watching_shows_everything_until_a_fault(
    cfg: SentinelConfig,
    readings: Seq<Snapshot>,
    runs: Seq<SentinelRun>,
    nexts: Seq<WatchNext>,
    j: int,
)
    requires
        is_watch(cfg, readings, runs, nexts),
        0 <= j < runs.len(),
    ensures
        j < runs.len() - 1 ==> readings[j]@.fault is None,
        match readings[j]@.fault {
            Some(text) => {
                &&& nexts[j] matches WatchNext::Fail(fault) && fault.text@ == text
                &&& runs[j].lines@.len() == 0
                &&& runs[j].events@.len() == 0
            },
            None => {
                let found = undated_events(
                    scan_config(cfg),
                    readings[j]@.len,
                    valid_txs(readings[j]@.entries),
                );
                &&& nexts[j] == (WatchNext::Sleep { seconds: cfg.poll_seconds })
                &&& all_undated(event_views(runs[j].events@)) == found
                &&& texts(runs[j].lines@) == seq![
                    if found.len() == 0 {
                        "sentinel: watch poll complete, no anomalies detected"@
                    } else {
                        "sentinel: watch poll complete, "@ + decimal(found.len())
                            + " anomaly event(s) detected"@
                    },
                ]
            },
        },
{
    let run = runs[j];
    assert(is_watch_poll(readings[j], cfg, run) && follows_poll(cfg, run, nexts[j]));
    if j < runs.len() - 1 {
        assert(nexts[j] is Sleep);
    }
    assert(texts(run.lines@).len() == run.lines@.len());
    if readings[j]@.fault is None {
        let txs = valid_txs(readings[j]@.entries);
        let scan = scan_config(cfg);
        let height = readings[j]@.len;
        let events = event_views(run.events@);
        assert(are_events_of(scan, height, txs, events));
        let stamps = choose|stamps: Seq<Seq<char>>|
            are_stamps(stamps, txs.len()) && events == #[trigger] scan_events(
                scan,
                height,
                stamps,
                txs,
            );
        lemma_scan_undated(scan, height, stamps, txs);
        assert(all_undated(events).len() == run.events@.len());
    }
}

} // verus!
