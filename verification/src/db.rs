//! Totals over the default tree: global metrics, balances and the top receivers.

use vstd::prelude::*;

use crate::index::NameIndex;
use crate::keys::{Address, KEY_BYTES};
use crate::model::{
    all_slots, amount_in, every_slot, paid_to, saturated, slots_are_spent_or_unspent, spent_count,
    unspent_count, unspent_sum, valid_txs, value_bytes, wallets, StoredEntry,
};
use crate::outputs::{
    decode_outputs, slot_of, slots_of, stored_keys_are_whole, whole_keys, Slot, TxOutput,
};
use crate::rank::{places, rank_descending, ranking, ranks};
use crate::store::{lemma_scan_step, read_tx, ReadFault, Snapshot};
use crate::tally::{
    lemma_spent_step, lemma_whole_step, place_wallet, wallet_texts, wallet_totals, Tally,
};

verus! {

// ---------------------------------------------------------------------------
// Slot by slot
// ---------------------------------------------------------------------------

/// What one more slot adds to the counts and the sum.
pub proof fn lemma_count_step(slots: Seq<Slot>, slot: Slot)
    ensures
        unspent_count(slots.push(slot)) == unspent_count(slots) + if slot is Some {
            1nat
        } else {
            0nat
        },
        spent_count(slots.push(slot)) == spent_count(slots) + if slot is None {
            1nat
        } else {
            0nat
        },
        unspent_sum(slots.push(slot)) == unspent_sum(slots) + amount_in(slot),
{
    assert(slots.push(slot).drop_last() =~= slots);
}

/// The slots scanned once one more output of a transaction is.
pub proof fn lemma_next_slot(before: Seq<Slot>, outputs: Seq<Option<TxOutput>>, j: int)
    requires
        0 <= j < outputs.len(),
    ensures
        before + slots_of(outputs).take(j + 1) == (before + slots_of(outputs).take(j)).push(
            slot_of(outputs[j]),
        ),
        match slot_of(outputs[j]) {
            Some((_, key)) => key.len() == KEY_BYTES,
            None => true,
        },
{
    stored_keys_are_whole(outputs);
    assert(slots_of(outputs)[j] == slot_of(outputs[j]));
    assert(before + slots_of(outputs).take(j + 1) =~= (before + slots_of(outputs).take(j)).push(
        slot_of(outputs[j]),
    ));
}

/// A scan of no output of a transaction, and one of all.
pub proof fn lemma_scan_ends(before: Seq<Slot>, outputs: Seq<Option<TxOutput>>)
    ensures
        before + slots_of(outputs).take(0) == before,
        before + slots_of(outputs).take(outputs.len() as int) == before + slots_of(outputs),
{
    assert(before + slots_of(outputs).take(0) =~= before);
    assert(slots_of(outputs).take(outputs.len() as int) =~= slots_of(outputs));
}

// ---------------------------------------------------------------------------
// Global metrics
// ---------------------------------------------------------------------------

/// High-level totals of the default tree.
#[derive(Debug, Clone)]
pub struct GlobalMetrics {
    pub tx_entries_scanned: u64,
    pub outputs_total: u64,
    pub outputs_unspent: u64,
    pub outputs_spent: u64,
    pub wallets_with_unspent: u64,
    pub utxo_total_unspent_atomic: u64,
}

/// Whether `g` holds the totals of the transactions among the entries.
pub open spec fn is_global_metrics(entries: Seq<StoredEntry>, g: GlobalMetrics) -> bool {
    let txs = valid_txs(entries);
    let slots = all_slots(txs);
    &&& g.tx_entries_scanned == txs.len()
    &&& g.outputs_total == slots.len()
    &&& g.outputs_unspent == unspent_count(slots)
    &&& g.outputs_spent == spent_count(slots)
    &&& g.wallets_with_unspent == wallets(slots).len()
    &&& g.utxo_total_unspent_atomic == saturated(unspent_sum(slots))
}

impl GlobalMetrics {
    /// Whether the counts over slots are those of `slots`.
    spec fn counts(&self, slots: Seq<Slot>) -> bool {
        &&& self.outputs_total == slots.len()
        &&& self.outputs_unspent == unspent_count(slots)
        &&& self.outputs_spent == spent_count(slots)
        &&& self.utxo_total_unspent_atomic == saturated(unspent_sum(slots))
    }

    /// Counts the outputs of one more transaction.
    fn count_outputs(
        &mut self,
        index: &mut NameIndex,
        outputs: &Vec<Option<TxOutput>>,
        Ghost(before): Ghost<Seq<Slot>>,
    )
        requires
            old(self).counts(before),
            before.len() + outputs.len() <= u64::MAX,
            whole_keys(before),
            old(index).well_formed(),
            old(index)@ == wallet_texts(before),
        ensures
            final(self).counts(before + slots_of(outputs@)),
            final(self).tx_entries_scanned == old(self).tx_entries_scanned,
            whole_keys(before + slots_of(outputs@)),
            final(index).well_formed(),
            final(index)@ == wallet_texts(before + slots_of(outputs@)),
    {
        let ghost txs = self.tx_entries_scanned;
        let mut j: usize = 0;
        proof {
            lemma_scan_ends(before, outputs@);
        }
        while j < outputs.len()
            invariant
                j <= outputs.len(),
                before.len() + outputs.len() <= u64::MAX,
                self.counts(before + slots_of(outputs@).take(j as int)),
                self.tx_entries_scanned == txs,
                whole_keys(before + slots_of(outputs@).take(j as int)),
                index.well_formed(),
                index@ == wallet_texts(before + slots_of(outputs@).take(j as int)),
            decreases outputs.len() - j,
        {
            let ghost slots = before + slots_of(outputs@).take(j as int);
            proof {
                lemma_next_slot(before, outputs@, j as int);
                lemma_count_step(slots, slot_of(outputs@[j as int]));
                lemma_whole_step(slots, slot_of(outputs@[j as int]));
                lemma_spent_step(slots);
                slots_are_spent_or_unspent(slots);
            }
            self.outputs_total = self.outputs_total + 1;
            match &outputs[j] {
                Some(out) => {
                    self.outputs_unspent = self.outputs_unspent + 1;
                    self.utxo_total_unspent_atomic = self.utxo_total_unspent_atomic.saturating_add(
                        out.amount,
                    );
                    let name = out.receiver.dump_base36();
                    let _ = place_wallet(
                        index,
                        name.as_str(),
                        Ghost(out.amount),
                        Ghost(out.receiver@),
                        Ghost(slots),
                    );
                },
                None => {
                    self.outputs_spent = self.outputs_spent + 1;
                },
            }
            j += 1;
        }
        proof {
            lemma_scan_ends(before, outputs@);
        }
    }
}

/// Scans the default tree and computes its high-level totals.
pub fn global_metrics(db: &Snapshot) -> (r: Result<GlobalMetrics, ReadFault>)
    requires
        db@.countable(),
    ensures
        match r {
            Ok(g) => db@.fault is None && is_global_metrics(db@.entries, g),
            Err(e) => db@.fault == Some(e.text@),
        },
{
    db.full_read()?;
    let mut g = GlobalMetrics {
        tx_entries_scanned: 0,
        outputs_total: 0,
        outputs_unspent: 0,
        outputs_spent: 0,
        wallets_with_unspent: 0,
        utxo_total_unspent_atomic: 0,
    };
    let mut index = NameIndex::new();
    let mut i: usize = 0;
    let ghost mut slots: Seq<Slot> = seq![];
    proof {
        assert(db@.entries.take(0) =~= seq![]);
        assert(index@ =~= wallet_texts(slots));
    }
    while i < db.entries.len()
        invariant
            i <= db.entries.len(),
            db@.countable(),
            slots == all_slots(valid_txs(db@.entries.take(i as int))),
            slots.len() <= value_bytes(db@.entries.take(i as int)),
            valid_txs(db@.entries.take(i as int)).len() <= i,
            g.tx_entries_scanned == valid_txs(db@.entries.take(i as int)).len(),
            g.counts(slots),
            whole_keys(slots),
            index.well_formed(),
            index@ == wallet_texts(slots),
        decreases db.entries.len() - i,
    {
        proof {
            lemma_scan_step(db@.entries, i as int);
        }
        if let Some(tx) = read_tx(&db.entries[i]) {
            g.tx_entries_scanned = g.tx_entries_scanned + 1;
            g.count_outputs(&mut index, &tx.outputs, Ghost(slots));
            proof {
                let txs = valid_txs(db@.entries.take(i as int));
                assert(txs.push(tx@).drop_last() =~= txs);
                slots = slots + slots_of(tx.outputs@);
            }
        }
        i += 1;
    }
    assert(db@.entries.take(i as int) =~= db@.entries);
    g.wallets_with_unspent = index.len() as u64;
    Ok(g)
}

// ---------------------------------------------------------------------------
// Balances
// ---------------------------------------------------------------------------

/// Adds what the outputs pay an address to a running sum.
fn add_paid(
    sum: u64,
    outputs: &Vec<Option<TxOutput>>,
    address: &Address,
    Ghost(before): Ghost<Seq<Slot>>,
) -> (r: u64)
    requires
        sum == saturated(paid_to(before, address@)),
    ensures
        r == saturated(paid_to(before + slots_of(outputs@), address@)),
{
    let mut sum: u64 = sum;
    let mut j: usize = 0;
    proof {
        lemma_scan_ends(before, outputs@);
    }
    while j < outputs.len()
        invariant
            j <= outputs.len(),
            sum == saturated(paid_to(before + slots_of(outputs@).take(j as int), address@)),
        decreases outputs.len() - j,
    {
        let ghost slots = before + slots_of(outputs@).take(j as int);
        proof {
            lemma_next_slot(before, outputs@, j as int);
            assert(slots.push(slot_of(outputs@[j as int])).drop_last() =~= slots);
        }
        if let Some(out) = &outputs[j] {
            if out.receiver.same(address) {
                sum = sum.saturating_add(out.amount);
            }
        }
        j += 1;
    }
    proof {
        lemma_scan_ends(before, outputs@);
    }
    sum
}

/// The confirmed balance of an address: the sum of its unspent outputs, in any entry that decodes.
pub fn confirmed_balance(db: &Snapshot, address: &Address) -> (r: Result<u64, ReadFault>)
    ensures
        match r {
            Ok(sum) => db@.fault is None && sum == saturated(
                paid_to(every_slot(db@.entries), address@),
            ),
            Err(e) => db@.fault == Some(e.text@),
        },
{
    db.full_read()?;
    let mut sum: u64 = 0;
    let mut i: usize = 0;
    assert(db@.entries.take(0) =~= seq![]);
    while i < db.entries.len()
        invariant
            i <= db.entries.len(),
            sum == saturated(paid_to(every_slot(db@.entries.take(i as int)), address@)),
        decreases db.entries.len() - i,
    {
        proof {
            lemma_scan_step(db@.entries, i as int);
        }
        if let Ok(outputs) = decode_outputs(db.entries[i].value.as_slice()) {
            sum = add_paid(
                sum,
                &outputs,
                address,
                Ghost(every_slot(db@.entries.take(i as int))),
            );
        }
        i += 1;
    }
    assert(db@.entries.take(i as int) =~= db@.entries);
    Ok(sum)
}

// ---------------------------------------------------------------------------
// Top receivers
// ---------------------------------------------------------------------------

/// A receiver and the sum of its unspent outputs.
#[derive(Debug, Clone)]
pub struct TopReceiverRow {
    pub receiver_base36: String,
    pub total_unspent: u64,
}

impl View for TopReceiverRow {
    type V = (Seq<char>, u64);

    open spec fn view(&self) -> (Seq<char>, u64) {
        (self.receiver_base36@, self.total_unspent)
    }
}

/// The contents of rows.
pub open spec fn receiver_rows(rows: Seq<TopReceiverRow>) -> Seq<(Seq<char>, u64)> {
    Seq::new(rows.len(), |i: int| rows[i]@)
}

/// The first `limit` wallets by what they received, the one seen earlier first among equals.
pub open spec fn top_rows(slots: Seq<Slot>, limit: nat) -> Seq<(Seq<char>, u64)> {
    let totals = wallet_totals(slots);
    let order = ranking(totals);
    Seq::new(
        if limit < totals.len() {
            limit
        } else {
            totals.len()
        },
        |i: int| (wallet_texts(slots)[order[i]], totals[order[i]]),
    )
}

/// Whether the rows are the first `limit` receivers among the entries. Memory held a sum for every
/// wallet, so there are no more wallets than it can address.
pub open spec fn are_top_receivers(
    entries: Seq<StoredEntry>,
    limit: usize,
    rows: Seq<TopReceiverRow>,
) -> bool {
    &&& receiver_rows(rows) == top_rows(every_slot(entries), limit as nat)
    &&& wallets(every_slot(entries)).len() <= usize::MAX
}

/// Tallies the outputs of one more entry.
fn tally_outputs(
    tally: &mut Tally,
    outputs: &Vec<Option<TxOutput>>,
    Ghost(before): Ghost<Seq<Slot>>,
)
    requires
        old(tally).of(before),
    ensures
        final(tally).of(before + slots_of(outputs@)),
{
    let mut j: usize = 0;
    proof {
        lemma_scan_ends(before, outputs@);
    }
    while j < outputs.len()
        invariant
            j <= outputs.len(),
            tally.of(before + slots_of(outputs@).take(j as int)),
        decreases outputs.len() - j,
    {
        let ghost slots = before + slots_of(outputs@).take(j as int);
        proof {
            lemma_next_slot(before, outputs@, j as int);
            lemma_spent_step(slots);
            lemma_whole_step(slots, slot_of(outputs@[j as int]));
        }
        if let Some(out) = &outputs[j] {
            let name = out.receiver.dump_base36();
            let _ = tally.pay(name.as_str(), out.amount, Ghost(out.receiver@), Ghost(slots));
        }
        j += 1;
    }
    proof {
        lemma_scan_ends(before, outputs@);
    }
}

/// The receivers with the largest sums of unspent outputs, in any entry that decodes.
pub fn top_receivers(db: &Snapshot, limit: usize) -> (r: Result<Vec<TopReceiverRow>, ReadFault>)
    ensures
        match r {
            Ok(rows) => db@.fault is None && are_top_receivers(db@.entries, limit, rows@),
            Err(e) => db@.fault == Some(e.text@),
        },
{
    db.full_read()?;
    let mut tally = Tally::new();
    let mut i: usize = 0;
    assert(db@.entries.take(0) =~= seq![]);
    while i < db.entries.len()
        invariant
            i <= db.entries.len(),
            tally.of(every_slot(db@.entries.take(i as int))),
        decreases db.entries.len() - i,
    {
        proof {
            lemma_scan_step(db@.entries, i as int);
        }
        if let Ok(outputs) = decode_outputs(db.entries[i].value.as_slice()) {
            tally_outputs(&mut tally, &outputs, Ghost(every_slot(db@.entries.take(i as int))));
        }
        i += 1;
    }
    assert(db@.entries.take(i as int) =~= db@.entries);
    let ghost slots = every_slot(db@.entries);
    let order = rank_descending(&tally.totals);
    let mut rows: Vec<TopReceiverRow> = Vec::new();
    let mut p: usize = 0;
    assert(receiver_rows(rows@) =~= top_rows(slots, limit as nat).take(0));
    while p < order.len() && p < limit
        invariant
            p <= order.len(),
            p <= limit,
            tally.of(slots),
            places(order@) == ranking(tally.totals@),
            ranks(
                tally.totals@,
                ranking(tally.totals@),
                0,
                tally.totals.len() as int,
            ),
            receiver_rows(rows@) == top_rows(slots, limit as nat).take(p as int),
        decreases order.len() - p,
    {
        assert(places(order@)[p as int] == order@[p as int]);
        let place: usize = order[p];
        let ghost before = receiver_rows(rows@);
        rows.push(
            TopReceiverRow {
                receiver_base36: tally.index.name_at(place),
                total_unspent: tally.totals[place],
            },
        );
        proof {
            let all = top_rows(slots, limit as nat);
            assert(receiver_rows(rows@) =~= before.push(all[p as int]));
            assert(all.take(p + 1) =~= all.take(p as int).push(all[p as int]));
        }
        p += 1;
    }
    assert(top_rows(slots, limit as nat).take(p as int) =~= top_rows(slots, limit as nat));
    Ok(rows)
}

} // verus!
