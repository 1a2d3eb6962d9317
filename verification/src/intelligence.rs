//! The wallets that stand out, found in one scan.

use vstd::prelude::*;

use crate::amounts::{
    atomic_to_snap_string, growth, signed_growth, signed_snap_string, signed_snap_text, snap_text,
};
use crate::db::{lemma_next_slot, lemma_scan_ends};
use crate::index::NameIndex;
use crate::keys::key_text;
use crate::model::{
    all_slots, amount_in, baseline, counts_add_up, last_seen, outputs_to, paid_to, pays,
    receiver_is_within_the_whole, saturated, slots_are_spent_or_unspent, spent_beside, spent_count,
    tx_count, valid_txs, value_bytes, wallets, wallets_are_the_receivers, StoredEntry, Tx,
};
use crate::outputs::{slot_of, slots_of, whole_keys, Slot, TxOutput};
use crate::rank::{leader, lemma_leader_step, Lead};
use crate::store::{lemma_scan_step, read_tx, ReadFault, Snapshot, TxEntry};
use crate::tally::{
    lemma_payment_step, lemma_spent_step, lemma_whole_step, place_wallet, wallet_texts,
};
use crate::wallet_stats::{count_spent, lemma_history, lemma_tx_step};

verus! {

// ---------------------------------------------------------------------------
// What is reported
// ---------------------------------------------------------------------------

/// The wallets that stand out in the default tree.
#[derive(Debug, Clone)]
pub struct WalletIntelligence {
    /// The wallet with the highest number of transactions.
    pub most_active_address: String,
    pub most_active_tx_count: u64,
    /// The wallet with the most unspent outputs.
    pub most_fragmented_address: String,
    pub most_fragmented_unspent_count: u64,
    /// The wallet with the largest growth over its baseline.
    pub fastest_growing_address: String,
    pub fastest_growing_delta_atomic: i64,
    pub fastest_growing_delta_snap: String,
    /// The wallet with the highest share of spent outputs, among those with enough outputs.
    pub highest_spend_rate_address: String,
    pub highest_spend_rate_spent: u64,
    pub highest_spend_rate_total: u64,
    /// The largest unspent output.
    pub largest_output_amount_atomic: u64,
    pub largest_output_amount_snap: String,
    pub largest_output_txid: String,
    pub largest_output_receiver: String,
    pub total_wallets_scanned: u64,
    pub total_tx_scanned: u64,
}

/// How many outputs a wallet needs for its spend rate to count.
pub const MIN_RATED_OUTPUTS: u64 = 5;

/// The number of transactions of each wallet.
pub open spec fn activity(txs: Seq<Tx>) -> Seq<int> {
    let keys = wallets(all_slots(txs));
    Seq::new(keys.len(), |i: int| tx_count(txs, keys[i]) as int)
}

/// The number of unspent outputs of each wallet.
pub open spec fn fragments(txs: Seq<Tx>) -> Seq<int> {
    let keys = wallets(all_slots(txs));
    Seq::new(keys.len(), |i: int| outputs_to(all_slots(txs), keys[i]) as int)
}

/// The growth of each wallet over its baseline.
pub open spec fn growths(txs: Seq<Tx>) -> Seq<int> {
    let keys = wallets(all_slots(txs));
    Seq::new(
        keys.len(),
        |i: int| growth(baseline(txs, keys[i]), saturated(paid_to(all_slots(txs), keys[i]))),
    )
}

/// The spent outputs beside each wallet, and all its outputs.
pub open spec fn spend_rates(txs: Seq<Tx>) -> Seq<(int, int)> {
    let keys = wallets(all_slots(txs));
    Seq::new(
        keys.len(),
        |i: int|
            (
                spent_beside(txs, keys[i]) as int,
                (spent_beside(txs, keys[i]) + outputs_to(all_slots(txs), keys[i])) as int,
            ),
    )
}

/// Whether the share `a` is higher than the share `b`; each is a part and its whole.
pub open spec fn higher_share(a: (int, int), b: (int, int)) -> bool {
    a.0 * b.1 > b.0 * a.1
}

/// The place of the highest share above nothing, among those of wholes that are large enough: the
/// earliest one, if there is any.
pub open spec fn share_leader(shares: Seq<(int, int)>) -> Option<int>
    decreases shares.len(),
{
    if shares.len() == 0 {
        None
    } else {
        let before = share_leader(shares.drop_last());
        let best = match before {
            Some(i) => shares[i],
            None => (0, 1),
        };
        if shares.last().1 >= MIN_RATED_OUTPUTS && higher_share(shares.last(), best) {
            Some(shares.len() - 1)
        } else {
            before
        }
    }
}

/// The amounts in the slots.
pub open spec fn slot_amounts(slots: Seq<Slot>) -> Seq<int> {
    Seq::new(slots.len(), |i: int| amount_in(slots[i]) as int)
}

/// The id of the transaction in which a slot stands.
pub open spec fn txid_of_slot(txs: Seq<Tx>, i: int) -> Seq<char>
    decreases txs.len(),
{
    if txs.len() == 0 {
        seq![]
    } else if i >= all_slots(txs.drop_last()).len() {
        txs.last().txid
    } else {
        txid_of_slot(txs.drop_last(), i)
    }
}

/// The receiver of the output in a slot, as text.
pub open spec fn receiver_of_slot(slot: Slot) -> Seq<char> {
    match slot {
        Some((_, key)) => key_text(key),
        None => seq![],
    }
}

/// Whether a text names the wallet at a place: its address, or nothing where there is none.
pub open spec fn names_wallet(slots: Seq<Slot>, place: Option<int>, text: Seq<char>) -> bool {
    match place {
        Some(i) => text == wallet_texts(slots)[i],
        None => text.len() == 0,
    }
}

/// The value at a place, or the floor where there is none.
pub open spec fn value_at(values: Seq<int>, place: Option<int>, floor: int) -> int {
    match place {
        Some(i) => values[i],
        None => floor,
    }
}

/// Whether the three are the largest unspent output, where and whose it is; nothing where no
/// output holds an amount.
pub open spec fn is_largest_output(
    txs: Seq<Tx>,
    amount: u64,
    txid: Seq<char>,
    receiver: Seq<char>,
) -> bool {
    let slots = all_slots(txs);
    match leader(slot_amounts(slots), 0) {
        Some(i) => amount == amount_in(slots[i]) && txid == txid_of_slot(txs, i) && receiver
            == receiver_of_slot(slots[i]),
        None => amount == 0 && txid.len() == 0 && receiver.len() == 0,
    }
}

/// Whether `w` names the wallets that stand out among the transactions of the entries. Among
/// equals the wallet that was seen first is named.
pub open spec fn is_wallet_intelligence(entries: Seq<StoredEntry>, w: WalletIntelligence) -> bool {
    let txs = valid_txs(entries);
    let slots = all_slots(txs);
    let active = leader(activity(txs), 0);
    let fragmented = leader(fragments(txs), 0);
    let growing = leader(growths(txs), i64::MIN as int);
    let spending = share_leader(spend_rates(txs));
    &&& names_wallet(slots, active, w.most_active_address@)
    &&& w.most_active_tx_count == value_at(activity(txs), active, 0)
    &&& names_wallet(slots, fragmented, w.most_fragmented_address@)
    &&& w.most_fragmented_unspent_count == value_at(fragments(txs), fragmented, 0)
    &&& names_wallet(slots, growing, w.fastest_growing_address@)
    &&& w.fastest_growing_delta_atomic == value_at(growths(txs), growing, i64::MIN as int)
    &&& w.fastest_growing_delta_snap@ == signed_snap_text(
        value_at(growths(txs), growing, i64::MIN as int),
    )
    &&& names_wallet(slots, spending, w.highest_spend_rate_address@)
    &&& match spending {
        Some(i) => w.highest_spend_rate_spent == spend_rates(txs)[i].0
            && w.highest_spend_rate_total == spend_rates(txs)[i].1,
        None => w.highest_spend_rate_spent == 0 && w.highest_spend_rate_total == 0,
    }
    &&& is_largest_output(
        txs,
        w.largest_output_amount_atomic,
        w.largest_output_txid@,
        w.largest_output_receiver@,
    )
    &&& w.largest_output_amount_snap@ == snap_text(w.largest_output_amount_atomic)
    &&& w.total_wallets_scanned == wallets(slots).len()
    &&& w.total_tx_scanned == txs.len()
}

// ---------------------------------------------------------------------------
// What is kept for each wallet
// ---------------------------------------------------------------------------

/// What the scan keeps for one wallet.
#[derive(Clone, Copy)]
struct AddrAccum {
    tx_count: u64,
    unspent_count: u64,
    spent_count: u64,
    total_unspent_atomic: u64,
    baseline_unspent_atomic: u64,
    /// One more than the position of the last transaction counted; zero before the first.
    counted_up_to: u64,
}

impl AddrAccum {
    /// Whether the sums over outputs are those of `slots`.
    spec fn sums(&self, slots: Seq<Slot>, key: Seq<u8>) -> bool {
        &&& self.unspent_count == outputs_to(slots, key)
        &&& self.total_unspent_atomic == saturated(paid_to(slots, key))
    }

    /// Whether the counts over transactions are those of `txs`.
    spec fn counts(&self, txs: Seq<Tx>, key: Seq<u8>) -> bool {
        &&& self.tx_count == tx_count(txs, key)
        &&& self.spent_count == spent_beside(txs, key)
        &&& self.baseline_unspent_atomic == baseline(txs, key)
        &&& match last_seen(txs, key) {
            Some(i) => self.counted_up_to == i + 1,
            None => self.counted_up_to == 0,
        }
    }
}

/// The accumulators of all wallets, in the order in which the wallets were first seen.
struct Ledger {
    index: NameIndex,
    accounts: Vec<AddrAccum>,
}

impl Ledger {
    /// Whether the ledger has summed the outputs in `slots` and counted the transactions `txs`.
    spec fn at(&self, slots: Seq<Slot>, txs: Seq<Tx>) -> bool {
        let keys = wallets(slots);
        &&& whole_keys(slots)
        &&& self.index.well_formed()
        &&& self.index@ == wallet_texts(slots)
        &&& self.accounts.len() == keys.len()
        &&& forall|p: int|
            0 <= p < keys.len() ==> (#[trigger] self.accounts@[p]).sums(slots, keys[p])
                && self.accounts@[p].counts(txs, keys[p])
    }

    /// Whether, on the way through a transaction, the wallets that its first `j` slots pay have it
    /// counted, and the others not yet.
    spec fn between(&self, txs: Seq<Tx>, tx: Tx, j: int) -> bool {
        let slots = all_slots(txs.push(tx));
        let keys = wallets(slots);
        &&& whole_keys(slots)
        &&& self.index.well_formed()
        &&& self.index@ == wallet_texts(slots)
        &&& self.accounts.len() == keys.len()
        &&& forall|p: int|
            0 <= p < keys.len() ==> (#[trigger] self.accounts@[p]).sums(slots, keys[p])
                && self.accounts@[p].counts(
                if outputs_to(tx.slots.take(j), keys[p]) > 0 {
                    txs.push(tx)
                } else {
                    txs
                },
                keys[p],
            )
    }

    /// Sums one more unspent output, and gives the place of its receiver.
    fn pay(&mut self, out: &TxOutput, Ghost(slots): Ghost<Seq<Slot>>, Ghost(txs): Ghost<Seq<Tx>>) -> (place:
        usize)
        requires
            old(self).at(slots, txs),
            slots.len() < u64::MAX,
            all_slots(txs).is_prefix_of(slots),
        ensures
            final(self).at(slots.push(slot_of(Some(*out))), txs),
            place < wallets(slots.push(slot_of(Some(*out)))).len(),
            wallets(slots.push(slot_of(Some(*out))))[place as int] == out.receiver@,
    {
        let ghost key = out.receiver@;
        let ghost more = slots.push(Some((out.amount, key)));
        let ghost before = self.accounts@;
        let name = out.receiver.dump_base36();
        let place = place_wallet(
            &mut self.index,
            name.as_str(),
            Ghost(out.amount),
            Ghost(key),
            Ghost(slots),
        );
        proof {
            lemma_payment_step(slots, out.amount, key);
            wallets_are_the_receivers(slots);
            wallets_are_the_receivers(more);
            receiver_is_within_the_whole(slots, key);
            slots_are_spent_or_unspent(slots);
        }
        if place == self.accounts.len() {
            self.accounts.push(
                AddrAccum {
                    tx_count: 0,
                    unspent_count: 0,
                    spent_count: 0,
                    total_unspent_atomic: 0,
                    baseline_unspent_atomic: 0,
                    counted_up_to: 0,
                },
            );
            proof {
                lemma_prefix_counts(all_slots(txs), slots, key);
                lemma_history(txs, key);
            }
        }
        let mut account = self.accounts[place];
        assert(account.sums(slots, key) && account.counts(txs, key));
        account.unspent_count = account.unspent_count + 1;
        account.total_unspent_atomic = account.total_unspent_atomic.saturating_add(out.amount);
        self.accounts.set(place, account);
        proof {
            assert(account.sums(more, key) && account.counts(txs, key));
            assert forall|p: int| 0 <= p < wallets(more).len() implies (
            #[trigger] self.accounts@[p]).sums(more, wallets(more)[p]) && self.accounts@[p].counts(
                txs,
                wallets(more)[p],
            ) by {
                if p != place {
                    assert(wallets(more)[p] != key);
                    assert(wallets(more)[p] == wallets(slots)[p]);
                    assert(self.accounts@[p] == before[p]);
                    assert(before[p].sums(slots, wallets(slots)[p]));
                    assert(paid_to(more, wallets(more)[p]) == paid_to(slots, wallets(more)[p]));
                    assert(outputs_to(more, wallets(more)[p]) == outputs_to(
                        slots,
                        wallets(more)[p],
                    ));
                }
            }
        }
        place
    }
}

/// A receiver got in a run of slots at least what it got in its beginning.
proof fn lemma_prefix_counts(a: Seq<Slot>, b: Seq<Slot>, key: Seq<u8>)
    requires
        a.is_prefix_of(b),
    ensures
        outputs_to(a, key) <= outputs_to(b, key),
{
    let rest = b.skip(a.len() as int);
    assert(b =~= a + rest);
    counts_add_up(a, rest, key);
}

/// The wallets of a run of slots begin with those of its beginning.
proof fn lemma_prefix_wallets(a: Seq<Slot>, b: Seq<Slot>)
    requires
        a.is_prefix_of(b),
    ensures
        wallets(a).is_prefix_of(wallets(b)),
    decreases b.len(),
{
    if a.len() < b.len() {
        assert(a.is_prefix_of(b.drop_last()));
        lemma_prefix_wallets(a, b.drop_last());
    } else {
        assert(a =~= b);
    }
}

/// What the outputs of a transaction touch: for each the place of its receiver, while unspent.
spec fn touches(slots: Seq<Slot>, outputs: Seq<Option<TxOutput>>, touched: Seq<Option<usize>>) -> bool {
    &&& touched.len() == outputs.len()
    &&& forall|j: int|
        0 <= j < outputs.len() ==> match #[trigger] outputs[j] {
            Some(out) => match touched[j] {
                Some(p) => p < wallets(slots).len() && wallets(slots)[p as int] == out.receiver@,
                None => false,
            },
            None => touched[j] is None,
        }
}

impl Ledger {
    /// Sums the outputs of one more transaction, and gives the places of their receivers.
    fn pay_outputs(&mut self, outputs: &Vec<Option<TxOutput>>, Ghost(txs): Ghost<Seq<Tx>>) -> (touched:
        Vec<Option<usize>>)
        requires
            old(self).at(all_slots(txs), txs),
            all_slots(txs).len() + outputs.len() <= u64::MAX,
        ensures
            final(self).at(all_slots(txs) + slots_of(outputs@), txs),
            touches(all_slots(txs) + slots_of(outputs@), outputs@, touched@),
    {
        let ghost before = all_slots(txs);
        let mut touched: Vec<Option<usize>> = Vec::new();
        let mut j: usize = 0;
        proof {
            lemma_scan_ends(before, outputs@);
        }
        while j < outputs.len()
            invariant
                j <= outputs.len(),
                before == all_slots(txs),
                before.len() + outputs.len() <= u64::MAX,
                self.at(before + slots_of(outputs@).take(j as int), txs),
                touches(
                    before + slots_of(outputs@).take(j as int),
                    outputs@.take(j as int),
                    touched@,
                ),
            decreases outputs.len() - j,
        {
            let ghost slots = before + slots_of(outputs@).take(j as int);
            let ghost more = before + slots_of(outputs@).take(j + 1);
            let ghost so_far = touched@;
            proof {
                lemma_next_slot(before, outputs@, j as int);
                lemma_spent_step(slots);
                lemma_whole_step(slots, slot_of(outputs@[j as int]));
                assert(slots.is_prefix_of(more));
                lemma_prefix_wallets(slots, more);
            }
            match &outputs[j] {
                Some(out) => {
                    let place = self.pay(out, Ghost(slots), Ghost(txs));
                    touched.push(Some(place));
                },
                None => {
                    touched.push(None);
                    proof {
                        assert forall|p: int| 0 <= p < wallets(more).len() implies (
                        #[trigger] self.accounts@[p]).sums(more, wallets(more)[p])
                            && self.accounts@[p].counts(txs, wallets(more)[p]) by {
                            assert(paid_to(more, wallets(more)[p]) == paid_to(
                                slots,
                                wallets(slots)[p],
                            ));
                            assert(outputs_to(more, wallets(more)[p]) == outputs_to(
                                slots,
                                wallets(slots)[p],
                            ));
                        }
                    }
                },
            }
            proof {
                let upto = outputs@.take(j + 1);
                assert forall|n: int| 0 <= n < upto.len() implies match #[trigger] upto[n] {
                    Some(out) => match touched@[n] {
                        Some(p) => p < wallets(more).len() && wallets(more)[p as int]
                            == out.receiver@,
                        None => false,
                    },
                    None => touched@[n] is None,
                } by {
                    if n < j {
                        assert(outputs@.take(j as int)[n] == upto[n]);
                        assert(touched@[n] == so_far[n]);
                    }
                }
            }
            j += 1;
        }
        proof {
            lemma_scan_ends(before, outputs@);
            assert(outputs@.take(j as int) =~= outputs@);
        }
        touched
    }

    /// Counts one more transaction for every wallet that its outputs touch, once for each.
    fn count_tx(
        &mut self,
        outputs: &Vec<Option<TxOutput>>,
        touched: &Vec<Option<usize>>,
        position: u64,
        Ghost(txs): Ghost<Seq<Tx>>,
        Ghost(tx): Ghost<Tx>,
    )
        requires
            tx.slots == slots_of(outputs@),
            old(self).at(all_slots(txs.push(tx)), txs),
            touches(all_slots(txs.push(tx)), outputs@, touched@),
            all_slots(txs.push(tx)).len() <= u64::MAX,
            outputs.len() <= u64::MAX,
            position == txs.len(),
            position < u64::MAX,
        ensures
            final(self).at(all_slots(txs.push(tx)), txs.push(tx)),
    {
        let ghost slots = all_slots(txs.push(tx));
        let ghost keys = wallets(slots);
        let spent: u64 = count_spent(outputs);
        let mut j: usize = 0;
        assert(tx.slots.take(0) =~= seq![]);
        while j < touched.len()
            invariant
                j <= touched.len(),
                tx.slots == slots_of(outputs@),
                slots == all_slots(txs.push(tx)),
                keys == wallets(slots),
                touches(slots, outputs@, touched@),
                slots.len() <= u64::MAX,
                position == txs.len(),
                position < u64::MAX,
                spent == spent_count(tx.slots),
                self.between(txs, tx, j as int),
            decreases touched.len() - j,
        {
            let ghost upto = tx.slots.take(j + 1);
            let ghost before = self.accounts@;
            proof {
                assert(upto.drop_last() =~= tx.slots.take(j as int));
                assert(upto.last() == slot_of(outputs@[j as int]));
            }
            if let Some(place) = touched[j] {
                let ghost key = keys[place as int];
                proof {
                    assert(outputs@[j as int] is Some);
                    assert(pays(slot_of(outputs@[j as int]), key));
                    assert(tx.slots.take(j as int).is_prefix_of(tx.slots));
                    assert(upto.is_prefix_of(tx.slots));
                    lemma_prefix_counts(tx.slots.take(j as int), tx.slots, key);
                    lemma_prefix_counts(upto, tx.slots, key);
                    lemma_tx_step(txs, tx, key);
                    lemma_history(txs, key);
                    lemma_history(txs.push(tx), key);
                }
                let mut account = self.accounts[place];
                if account.counted_up_to <= position {
                    if account.counted_up_to == 0 {
                        account.baseline_unspent_atomic = account.total_unspent_atomic;
                    }
                    account.tx_count = account.tx_count + 1;
                    account.spent_count = account.spent_count + spent;
                    account.counted_up_to = position + 1;
                    self.accounts.set(place, account);
                }
                proof {
                    assert(self.accounts@[place as int].counts(txs.push(tx), key));
                    wallets_are_the_receivers(slots);
                }
            }
            proof {
                assert forall|p: int| 0 <= p < keys.len() implies (
                #[trigger] self.accounts@[p]).sums(slots, keys[p]) && self.accounts@[p].counts(
                    if outputs_to(upto, keys[p]) > 0 {
                        txs.push(tx)
                    } else {
                        txs
                    },
                    keys[p],
                ) by {
                    assert(before[p].sums(slots, keys[p]));
                    if touched@[j as int] is Some && p == touched@[j as int]->0 {
                    } else {
                        assert(self.accounts@[p] == before[p]);
                        if touched@[j as int] is Some {
                            assert(keys[p] != keys[touched@[j as int]->0 as int]);
                        }
                    }
                }
            }
            j += 1;
        }
        proof {
            assert(tx.slots.take(j as int) =~= tx.slots);
            assert forall|p: int| 0 <= p < keys.len() implies (#[trigger] self.accounts@[p]).sums(
                slots,
                keys[p],
            ) && self.accounts@[p].counts(txs.push(tx), keys[p]) by {
                lemma_tx_step(txs, tx, keys[p]);
            }
        }
    }
}

// ---------------------------------------------------------------------------
// The largest output
// ---------------------------------------------------------------------------

/// The largest unspent output so far.
struct Largest {
    amount: u64,
    txid: String,
    receiver: String,
}

impl Largest {
    /// Whether this is the largest output in `slots`, the beginning of the slots of `txs`.
    spec fn of(&self, txs: Seq<Tx>, slots: Seq<Slot>) -> bool {
        match leader(slot_amounts(slots), 0) {
            Some(i) => {
                &&& 0 <= i < slots.len()
                &&& self.amount == amount_in(slots[i])
                &&& self.txid@ == txid_of_slot(txs, i)
                &&& self.receiver@ == receiver_of_slot(slots[i])
            },
            None => self.amount == 0 && self.txid@.len() == 0 && self.receiver@.len() == 0,
        }
    }

    /// Looks through the outputs of one more transaction.
    fn look_through(&mut self, tx: &TxEntry, Ghost(txs): Ghost<Seq<Tx>>)
        requires
            old(self).of(txs, all_slots(txs)),
        ensures
            final(self).of(txs.push(tx@), all_slots(txs.push(tx@))),
    {
        let ghost before = all_slots(txs);
        let ghost now = txs.push(tx@);
        let outputs = &tx.outputs;
        let mut j: usize = 0;
        proof {
            lemma_scan_ends(before, outputs@);
            assert(now.drop_last() =~= txs);
        }
        while j < outputs.len()
            invariant
                j <= outputs.len(),
                outputs@ == tx.outputs@,
                before == all_slots(txs),
                now == txs.push(tx@),
                self.of(now, before + slots_of(outputs@).take(j as int)),
            decreases outputs.len() - j,
        {
            let ghost slots = before + slots_of(outputs@).take(j as int);
            let ghost slot = slot_of(outputs@[j as int]);
            proof {
                lemma_next_slot(before, outputs@, j as int);
                lemma_leader_step(slot_amounts(slots), 0, amount_in(slot) as int);
                assert(slot_amounts(slots.push(slot)) =~= slot_amounts(slots).push(
                    amount_in(slot) as int,
                ));
                assert(now.drop_last() =~= txs);
                assert(txid_of_slot(now, slots.len() as int) == tx.txid@);
            }
            if let Some(out) = &outputs[j] {
                if out.amount > self.amount {
                    self.amount = out.amount;
                    self.txid = tx.txid.clone();
                    self.receiver = out.receiver.dump_base36();
                }
            }
            j += 1;
        }
        proof {
            lemma_scan_ends(before, outputs@);
            assert(now.drop_last() =~= txs);
        }
    }
}

// ---------------------------------------------------------------------------
// Shares
// ---------------------------------------------------------------------------

/// Whether a share counts: its whole is large enough.
pub open spec fn rated(share: (int, int)) -> bool {
    share.1 >= MIN_RATED_OUTPUTS
}

/// The share leader has the highest share of all that count; without a leader no share that counts
/// is above nothing.
pub proof fn share_leader_is_highest(shares: Seq<(int, int)>)
    requires
        forall|j: int|
            0 <= j < shares.len() ==> 0 <= (#[trigger] shares[j]).0 && shares[j].0 <= shares[j].1,
    ensures
        match share_leader(shares) {
            Some(i) => {
                &&& 0 <= i < shares.len()
                &&& rated(shares[i])
                &&& shares[i].0 > 0
                &&& forall|j: int|
                    0 <= j < shares.len() && rated(#[trigger] shares[j]) ==> !higher_share(
                        shares[j],
                        shares[i],
                    )
                &&& forall|j: int|
                    0 <= j < i && rated(#[trigger] shares[j]) ==> higher_share(shares[i], shares[j])
            },
            None => forall|j: int|
                0 <= j < shares.len() && rated(#[trigger] shares[j]) ==> shares[j].0 == 0,
        },
    decreases shares.len(),
{
    if shares.len() > 0 {
        let rest = shares.drop_last();
        let n = shares.len() - 1;
        let last = shares[n];
        assert forall|j: int| 0 <= j < rest.len() implies rest[j] == #[trigger] shares[j] by {}
        share_leader_is_highest(rest);
        match share_leader(rest) {
            Some(i) => {
                let best = shares[i];
                if rated(last) && higher_share(last, best) {
                    assert forall|j: int| 0 <= j < n && rated(#[trigger] shares[j]) implies
                        higher_share(last, shares[j]) by {
                        assert(!higher_share(rest[j], rest[i]));
                        lemma_share_transitive(last, best, shares[j]);
                    }
                    assert(last.0 > 0) by (nonlinear_arith)
                        requires
                            last.0 * best.1 > best.0 * last.1,
                            best.0 >= 0,
                            last.1 >= 5,
                            best.1 >= 5,
                    ;
                    assert forall|j: int| 0 <= j < shares.len() && rated(#[trigger] shares[j]) implies
                        !higher_share(shares[j], last) by {
                        if j < n {
                            assert(higher_share(last, shares[j]));
                        }
                    }
                }
            },
            None => {
                if rated(last) && higher_share(last, (0, 1)) {
                    assert forall|j: int| 0 <= j < n && rated(#[trigger] shares[j]) implies
                        higher_share(last, shares[j]) by {
                        let other = shares[j];
                        assert(rest[j].0 == 0);
                        assert(last.0 * other.1 > 0 * last.1) by (nonlinear_arith)
                            requires
                                last.0 > 0,
                                other.1 >= 5,
                        ;
                    }
                    assert forall|j: int| 0 <= j < shares.len() && rated(#[trigger] shares[j]) implies
                        !higher_share(shares[j], last) by {
                        if j < n {
                            assert(higher_share(last, shares[j]));
                        }
                    }
                }
            },
        }
    }
}

proof fn lemma_share_transitive(a: (int, int), b: (int, int), c: (int, int))
    requires
        a.1 > 0,
        b.1 > 0,
        c.1 > 0,
        higher_share(a, b),
        !higher_share(c, b),
    ensures
        higher_share(a, c),
{
    let (a0, a1) = a;
    let (b0, b1) = b;
    let (c0, c1) = c;
    assert(a0 * c1 > c0 * a1) by (nonlinear_arith)
        requires
            a0 * b1 > b0 * a1,
            c0 * b1 <= b0 * c1,
            a1 > 0,
            b1 > 0,
            c1 > 0,
    {
        assert((a0 * b1) * c1 > (b0 * a1) * c1);
        assert((c0 * b1) * a1 <= (b0 * c1) * a1);
        assert((a0 * c1) * b1 == (a0 * b1) * c1);
        assert((b0 * a1) * c1 == (b0 * c1) * a1);
        assert((c0 * a1) * b1 == (c0 * b1) * a1);
        assert((a0 * c1) * b1 > (c0 * a1) * b1);
    }
}

/// The share leader among the shares offered so far.
struct ShareLead {
    place: Option<usize>,
    part: u64,
    whole: u64,
    offered: usize,
}

impl ShareLead {
    spec fn of(&self, shares: Seq<(int, int)>) -> bool {
        &&& self.offered == shares.len()
        &&& match share_leader(shares) {
            Some(i) => self.place == Some(i as usize) && 0 <= i < shares.len() && shares[i] == (
                self.part as int,
                self.whole as int,
            ),
            None => self.place is None && self.part == 0 && self.whole == 0,
        }
    }

    /// Offers one more share.
    fn offer(&mut self, part: u64, whole: u64, Ghost(shares): Ghost<Seq<(int, int)>>)
        requires
            old(self).of(shares),
            shares.len() < usize::MAX,
        ensures
            final(self).of(shares.push((part as int, whole as int))),
    {
        let ghost more = shares.push((part as int, whole as int));
        assert(more.drop_last() =~= shares);
        let (best_part, best_whole): (u64, u64) = match self.place {
            Some(_) => (self.part, self.whole),
            None => (0, 1),
        };
        assert(0 <= part * best_whole <= u64::MAX * u64::MAX) by (nonlinear_arith)
            requires
                0 <= part <= u64::MAX,
                0 <= best_whole <= u64::MAX,
        ;
        assert(0 <= best_part * whole <= u64::MAX * u64::MAX) by (nonlinear_arith)
            requires
                0 <= best_part <= u64::MAX,
                0 <= whole <= u64::MAX,
        ;
        if whole >= MIN_RATED_OUTPUTS && part as u128 * best_whole as u128 > best_part as u128
            * whole as u128 {
            self.place = Some(self.offered);
            self.part = part;
            self.whole = whole;
        }
        self.offered = self.offered + 1;
    }
}

// ---------------------------------------------------------------------------
// The scan
// ---------------------------------------------------------------------------

fn name_or_nothing(index: &NameIndex, place: Option<usize>) -> (r: String)
    requires
        match place {
            Some(p) => p < index@.len(),
            None => true,
        },
    ensures
        match place {
            Some(p) => r@ == index@[p as int],
            None => r@.len() == 0,
        },
{
    match place {
        Some(p) => index.name_at(p),
        None => String::new(),
    }
}

/// Finds the wallets that stand out in one scan of the default tree, with the order of the entries
/// standing for time.
pub fn wallet_intelligence(db: &Snapshot) -> (r: Result<WalletIntelligence, ReadFault>)
    requires
        db@.countable(),
    ensures
        match r {
            Ok(w) => db@.fault is None && is_wallet_intelligence(db@.entries, w),
            Err(e) => db@.fault == Some(e.text@),
        },
{
    db.full_read()?;
    let mut ledger = Ledger { index: NameIndex::new(), accounts: Vec::new() };
    let mut largest = Largest { amount: 0, txid: String::new(), receiver: String::new() };
    let mut position: u64 = 0;
    let mut i: usize = 0;
    let ghost mut txs: Seq<Tx> = seq![];
    proof {
        assert(db@.entries.take(0) =~= seq![]);
        assert(ledger.index@ =~= wallet_texts(seq![]));
    }
    while i < db.entries.len()
        invariant
            i <= db.entries.len(),
            db@.countable(),
            txs == valid_txs(db@.entries.take(i as int)),
            all_slots(txs).len() <= value_bytes(db@.entries.take(i as int)),
            position == txs.len(),
            position <= i,
            ledger.at(all_slots(txs), txs),
            largest.of(txs, all_slots(txs)),
        decreases db.entries.len() - i,
    {
        proof {
            lemma_scan_step(db@.entries, i as int);
        }
        if let Some(tx) = read_tx(&db.entries[i]) {
            proof {
                assert(txs.push(tx@).drop_last() =~= txs);
            }
            let touched = ledger.pay_outputs(&tx.outputs, Ghost(txs));
            ledger.count_tx(&tx.outputs, &touched, position, Ghost(txs), Ghost(tx@));
            largest.look_through(&tx, Ghost(txs));
            proof {
                txs = txs.push(tx@);
            }
            position = position + 1;
        }
        i += 1;
    }
    assert(db@.entries.take(i as int) =~= db@.entries);
    let ghost slots = all_slots(txs);
    let ghost keys = wallets(slots);
    let mut active = Lead::new(0);
    let mut fragmented = Lead::new(0);
    let mut growing = Lead::new(i64::MIN as i128);
    let mut spending = ShareLead { place: None, part: 0, whole: 0, offered: 0 };
    let mut p: usize = 0;
    proof {
        assert(activity(txs).take(0) =~= seq![]);
        assert(fragments(txs).take(0) =~= seq![]);
        assert(growths(txs).take(0) =~= seq![]);
        assert(spend_rates(txs).take(0) =~= seq![]);
    }
    while p < ledger.accounts.len()
        invariant
            p <= ledger.accounts.len(),
            slots == all_slots(txs),
            keys == wallets(slots),
            slots.len() <= u64::MAX,
            ledger.at(slots, txs),
            active.of(activity(txs).take(p as int), 0),
            fragmented.of(fragments(txs).take(p as int), 0),
            growing.of(growths(txs).take(p as int), i64::MIN as int),
            spending.of(spend_rates(txs).take(p as int)),
        decreases ledger.accounts.len() - p,
    {
        let account = ledger.accounts[p];
        proof {
            lemma_history(txs, keys[p as int]);
            assert(account.sums(slots, keys[p as int]) && account.counts(txs, keys[p as int]));
            lemma_take_push(activity(txs), p as int);
            lemma_take_push(fragments(txs), p as int);
            lemma_take_push(growths(txs), p as int);
            assert(spend_rates(txs).take(p + 1) =~= spend_rates(txs).take(p as int).push(
                spend_rates(txs)[p as int],
            ));
        }
        active.offer(account.tx_count as i128, Ghost(activity(txs).take(p as int)), Ghost(0));
        fragmented.offer(
            account.unspent_count as i128,
            Ghost(fragments(txs).take(p as int)),
            Ghost(0),
        );
        let delta: i64 = signed_growth(
            account.baseline_unspent_atomic,
            account.total_unspent_atomic,
        );
        growing.offer(delta as i128, Ghost(growths(txs).take(p as int)), Ghost(i64::MIN as int));
        spending.offer(
            account.spent_count,
            account.unspent_count + account.spent_count,
            Ghost(spend_rates(txs).take(p as int)),
        );
        p += 1;
    }
    proof {
        assert(activity(txs).take(p as int) =~= activity(txs));
        assert(fragments(txs).take(p as int) =~= fragments(txs));
        assert(growths(txs).take(p as int) =~= growths(txs));
        assert(spend_rates(txs).take(p as int) =~= spend_rates(txs));
        lemma_values_fit(txs);
    }
    let delta: i64 = growing.value as i64;
    Ok(
        WalletIntelligence {
            most_active_address: name_or_nothing(&ledger.index, active.place),
            most_active_tx_count: active.value as u64,
            most_fragmented_address: name_or_nothing(&ledger.index, fragmented.place),
            most_fragmented_unspent_count: fragmented.value as u64,
            fastest_growing_address: name_or_nothing(&ledger.index, growing.place),
            fastest_growing_delta_atomic: delta,
            fastest_growing_delta_snap: signed_snap_string(delta),
            highest_spend_rate_address: name_or_nothing(&ledger.index, spending.place),
            highest_spend_rate_spent: spending.part,
            highest_spend_rate_total: spending.whole,
            largest_output_amount_atomic: largest.amount,
            largest_output_amount_snap: atomic_to_snap_string(largest.amount),
            largest_output_txid: largest.txid,
            largest_output_receiver: largest.receiver,
            total_wallets_scanned: ledger.accounts.len() as u64,
            total_tx_scanned: position,
        },
    )
}

proof fn lemma_take_push(values: Seq<int>, p: int)
    requires
        0 <= p < values.len(),
    ensures
        values.take(p + 1) == values.take(p).push(values[p]),
{
    assert(values.take(p + 1) =~= values.take(p).push(values[p]));
}

/// The values that are compared are held by the types in which they are reported.
proof fn lemma_values_fit(txs: Seq<Tx>)
    requires
        txs.len() <= u64::MAX,
        all_slots(txs).len() <= u64::MAX,
    ensures
        forall|i: int| 0 <= i < activity(txs).len() ==> 0 <= #[trigger] activity(txs)[i] <= u64::MAX,
        forall|i: int|
            0 <= i < fragments(txs).len() ==> 0 <= #[trigger] fragments(txs)[i] <= u64::MAX,
        forall|i: int|
            0 <= i < growths(txs).len() ==> i64::MIN <= #[trigger] growths(txs)[i] <= i64::MAX,
{
    let keys = wallets(all_slots(txs));
    assert forall|i: int| 0 <= i < keys.len() implies tx_count(txs, #[trigger] keys[i]) <= txs.len()
        && outputs_to(all_slots(txs), keys[i]) <= all_slots(txs).len() by {
        lemma_history(txs, keys[i]);
    }
}

} // verus!
