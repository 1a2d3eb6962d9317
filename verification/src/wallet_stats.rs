//! The summary of one wallet.

use vstd::prelude::*;

use crate::amounts::{
    atomic_to_snap_string, growth, signed_growth, signed_snap_string, signed_snap_text, snap_text,
    Ratio,
};
use crate::db::{lemma_next_slot, lemma_scan_ends};
use crate::keys::{key_text, Address};
use crate::model::{
    all_slots, baseline, counts_add_up, first_seen, involves, largest_to, last_seen, named_txs,
    outputs_to, paid_to, receiver_is_within_the_whole, saturated, slots_are_spent_or_unspent,
    spent_beside, spent_count, tx_count, value_bytes, StoredEntry, Tx,
};
use crate::outputs::{decode_outputs, slot_of, slots_of, Slot, TxOutput};
use crate::store::{lemma_scan_step, read_txid, ReadFault, Snapshot};

verus! {

// ---------------------------------------------------------------------------
// What is reported
// ---------------------------------------------------------------------------

/// The summary of one wallet.
#[derive(Debug, Clone)]
pub struct WalletStats {
    pub address: String,
    pub tx_count: u64,
    pub unspent_count: u64,
    pub spent_count: u64,
    pub total_unspent_atomic: u64,
    pub total_unspent_snap: String,
    pub baseline_unspent_atomic: u64,
    pub baseline_unspent_snap: String,
    pub delta_atomic: i64,
    pub delta_snap: String,
    /// `rising`, `falling` or `stable`.
    pub trend: String,
    /// The spent outputs among all outputs; of none where there is no output.
    pub spend_rate: Ratio,
    pub largest_output_atomic: u64,
    pub largest_output_snap: String,
    pub avg_output_atomic: u64,
    pub avg_output_snap: String,
    /// `LOW`, `MEDIUM` or `HIGH`.
    pub fragmentation: String,
    pub first_seen_txid: String,
    pub last_seen_txid: String,
    pub first_seen_index: u64,
    pub last_seen_index: u64,
}

/// Which way a balance moves.
pub open spec fn trend_text(delta: int) -> Seq<char> {
    if delta > 0 {
        "rising"@
    } else if delta < 0 {
        "falling"@
    } else {
        "stable"@
    }
}

/// How fragmented a wallet is: up to four unspent outputs, up to twenty, or more.
pub open spec fn fragmentation_text(unspent: nat) -> Seq<char> {
    if unspent <= 4 {
        "LOW"@
    } else if unspent <= 20 {
        "MEDIUM"@
    } else {
        "HIGH"@
    }
}

/// The average of `count` amounts with the sum `total`, rounded down.
pub open spec fn average(total: u64, count: nat) -> u64 {
    if count > 0 {
        (total as nat / count) as u64
    } else {
        0
    }
}

/// Whether a text and a number name a transaction: its id and its position, or nothing and zero
/// where there is none.
pub open spec fn names_place(txs: Seq<Tx>, place: Option<int>, txid: Seq<char>, at: u64) -> bool {
    match place {
        Some(i) => txid == txs[i].txid && at == i,
        None => txid.len() == 0 && at == 0,
    }
}

/// Whether `w` is the summary of the wallet `key` over the entries. Positions count every entry
/// whose key names a transaction.
pub open spec fn is_wallet_stats(entries: Seq<StoredEntry>, key: Seq<u8>, w: WalletStats) -> bool {
    let txs = named_txs(entries);
    let slots = all_slots(txs);
    let total = saturated(paid_to(slots, key));
    let delta = growth(baseline(txs, key), total);
    &&& w.address@ == key_text(key)
    &&& w.tx_count == tx_count(txs, key)
    &&& w.unspent_count == outputs_to(slots, key)
    &&& w.spent_count == spent_beside(txs, key)
    &&& w.total_unspent_atomic == total
    &&& w.total_unspent_snap@ == snap_text(total)
    &&& w.baseline_unspent_atomic == baseline(txs, key)
    &&& w.baseline_unspent_snap@ == snap_text(baseline(txs, key))
    &&& w.delta_atomic == delta
    &&& w.delta_snap@ == signed_snap_text(delta)
    &&& w.trend@ == trend_text(delta)
    &&& w.spend_rate.part == spent_beside(txs, key)
    &&& w.spend_rate.whole == outputs_to(slots, key) + spent_beside(txs, key)
    &&& w.largest_output_atomic == largest_to(slots, key)
    &&& w.largest_output_snap@ == snap_text(largest_to(slots, key) as u64)
    &&& w.avg_output_atomic == average(total, outputs_to(slots, key))
    &&& w.avg_output_snap@ == snap_text(average(total, outputs_to(slots, key)))
    &&& w.fragmentation@ == fragmentation_text(outputs_to(slots, key))
    &&& names_place(txs, first_seen(txs, key), w.first_seen_txid@, w.first_seen_index)
    &&& names_place(txs, last_seen(txs, key), w.last_seen_txid@, w.last_seen_index)
}

// ---------------------------------------------------------------------------
// One transaction more
// ---------------------------------------------------------------------------

/// What one more transaction does to the history of a wallet.
pub proof fn lemma_tx_step(txs: Seq<Tx>, tx: Tx, key: Seq<u8>)
    ensures
        ({
            let more = txs.push(tx);
            let hit = involves(tx, key);
            &&& all_slots(more) == all_slots(txs) + tx.slots
            &&& tx_count(more, key) == tx_count(txs, key) + if hit {
                1nat
            } else {
                0nat
            }
            &&& spent_beside(more, key) == spent_beside(txs, key) + if hit {
                spent_count(tx.slots)
            } else {
                0nat
            }
            &&& last_seen(more, key) == if hit {
                Some(txs.len() as int)
            } else {
                last_seen(txs, key)
            }
            &&& first_seen(more, key) == if first_seen(txs, key) is None && hit {
                Some(txs.len() as int)
            } else {
                first_seen(txs, key)
            }
            &&& baseline(more, key) == if first_seen(txs, key) is None && hit {
                saturated(paid_to(all_slots(more), key))
            } else {
                baseline(txs, key)
            }
            &&& outputs_to(all_slots(more), key) == outputs_to(all_slots(txs), key) + outputs_to(
                tx.slots,
                key,
            )
        }),
{
    let more = txs.push(tx);
    assert(more.drop_last() =~= txs);
    counts_add_up(all_slots(txs), tx.slots, key);
    lemma_history(txs, key);
}

/// How the parts of a wallet's history hang together.
pub proof fn lemma_history(txs: Seq<Tx>, key: Seq<u8>)
    ensures
        match first_seen(txs, key) {
            Some(i) => 0 <= i < txs.len() && outputs_to(all_slots(txs), key) > 0,
            None => tx_count(txs, key) == 0 && spent_beside(txs, key) == 0 && paid_to(
                all_slots(txs),
                key,
            ) == 0 && outputs_to(all_slots(txs), key) == 0,
        },
        match last_seen(txs, key) {
            Some(i) => 0 <= i < txs.len() && first_seen(txs, key) is Some,
            None => first_seen(txs, key) is None,
        },
        tx_count(txs, key) <= txs.len(),
        outputs_to(all_slots(txs), key) + spent_beside(txs, key) <= all_slots(txs).len(),
    decreases txs.len(),
{
    if txs.len() > 0 {
        let rest = txs.drop_last();
        lemma_history(rest, key);
        counts_add_up(all_slots(rest), txs.last().slots, key);
        receiver_is_within_the_whole(txs.last().slots, key);
        slots_are_spent_or_unspent(txs.last().slots);
    }
}

// ---------------------------------------------------------------------------
// Scanning
// ---------------------------------------------------------------------------

/// How many slots are spent.
pub(crate) fn count_spent(outputs: &Vec<Option<TxOutput>>) -> (r: u64)
    requires
        outputs.len() <= u64::MAX,
    ensures
        r == spent_count(slots_of(outputs@)),
        r <= outputs.len(),
{
    let mut r: u64 = 0;
    let mut j: usize = 0;
    assert(slots_of(outputs@).take(0) =~= seq![]);
    while j < outputs.len()
        invariant
            j <= outputs.len(),
            outputs.len() <= u64::MAX,
            r <= j,
            r == spent_count(slots_of(outputs@).take(j as int)),
        decreases outputs.len() - j,
    {
        assert(slots_of(outputs@).take(j + 1).drop_last() =~= slots_of(outputs@).take(j as int));
        if outputs[j].is_none() {
            r = r + 1;
        }
        j += 1;
    }
    assert(slots_of(outputs@).take(j as int) =~= slots_of(outputs@));
    r
}

/// What a wallet received.
struct Receipts {
    count: u64,
    total: u64,
    largest: u64,
}

impl Receipts {
    spec fn of(&self, slots: Seq<Slot>, key: Seq<u8>) -> bool {
        &&& self.count == outputs_to(slots, key)
        &&& self.total == saturated(paid_to(slots, key))
        &&& self.largest == largest_to(slots, key)
    }

    /// Adds the outputs of one more transaction.
    fn receive(
        &mut self,
        outputs: &Vec<Option<TxOutput>>,
        address: &Address,
        Ghost(before): Ghost<Seq<Slot>>,
    )
        requires
            old(self).of(before, address@),
            before.len() + outputs.len() <= u64::MAX,
        ensures
            final(self).of(before + slots_of(outputs@), address@),
    {
        let mut j: usize = 0;
        proof {
            lemma_scan_ends(before, outputs@);
        }
        while j < outputs.len()
            invariant
                j <= outputs.len(),
                before.len() + outputs.len() <= u64::MAX,
                self.of(before + slots_of(outputs@).take(j as int), address@),
            decreases outputs.len() - j,
        {
            let ghost slots = before + slots_of(outputs@).take(j as int);
            proof {
                lemma_next_slot(before, outputs@, j as int);
                assert(slots.push(slot_of(outputs@[j as int])).drop_last() =~= slots);
                receiver_is_within_the_whole(slots, address@);
                slots_are_spent_or_unspent(slots);
            }
            if let Some(out) = &outputs[j] {
                if out.receiver.same(address) {
                    self.count = self.count + 1;
                    self.total = self.total.saturating_add(out.amount);
                    if out.amount > self.largest {
                        self.largest = out.amount;
                    }
                }
            }
            j += 1;
        }
        proof {
            lemma_scan_ends(before, outputs@);
        }
    }
}

fn trend_of(delta: i64) -> (r: String)
    ensures
        r@ == trend_text(delta as int),
{
    if delta > 0 {
        "rising".to_string()
    } else if delta < 0 {
        "falling".to_string()
    } else {
        "stable".to_string()
    }
}

fn fragmentation_of(unspent: u64) -> (r: String)
    ensures
        r@ == fragmentation_text(unspent as nat),
{
    if unspent <= 4 {
        "LOW".to_string()
    } else if unspent <= 20 {
        "MEDIUM".to_string()
    } else {
        "HIGH".to_string()
    }
}

/// Summarises one wallet in a single scan, with the order of the entries standing for time.
pub fn wallet_stats(db: &Snapshot, address: &Address) -> (r: Result<WalletStats, ReadFault>)
    requires
        db@.countable(),
    ensures
        match r {
            Ok(w) => db@.fault is None && is_wallet_stats(db@.entries, address@, w),
            Err(e) => db@.fault == Some(e.text@),
        },
{
    db.full_read()?;
    let mut got = Receipts { count: 0, total: 0, largest: 0 };
    let mut txs: u64 = 0;
    let mut spent: u64 = 0;
    let mut base: u64 = 0;
    let mut first_txid = String::new();
    let mut first_at: u64 = 0;
    let mut last_txid = String::new();
    let mut last_at: u64 = 0;
    let mut index: u64 = 0;
    let mut i: usize = 0;
    let ghost key = address@;
    let ghost mut seen: Seq<Tx> = seq![];
    assert(db@.entries.take(0) =~= seq![]);
    while i < db.entries.len()
        invariant
            i <= db.entries.len(),
            db@.countable(),
            key == address@,
            seen == named_txs(db@.entries.take(i as int)),
            all_slots(seen).len() <= value_bytes(db@.entries.take(i as int)),
            index == seen.len(),
            index <= i,
            got.of(all_slots(seen), key),
            txs == tx_count(seen, key),
            spent == spent_beside(seen, key),
            base == baseline(seen, key),
            names_place(seen, first_seen(seen, key), first_txid@, first_at),
            names_place(seen, last_seen(seen, key), last_txid@, last_at),
        decreases db.entries.len() - i,
    {
        proof {
            lemma_scan_step(db@.entries, i as int);
            lemma_history(seen, key);
        }
        if let Some(txid) = read_txid(&db.entries[i]) {
            let outputs = match decode_outputs(db.entries[i].value.as_slice()) {
                Ok(outputs) => outputs,
                Err(_) => Vec::new(),
            };
            let ghost tx = Tx { txid: txid@, slots: slots_of(outputs@) };
            proof {
                assert(outputs@.len() == 0 ==> slots_of(outputs@) =~= seq![]);
                lemma_tx_step(seen, tx, key);
                lemma_history(seen.push(tx), key);
            }
            let count_before: u64 = got.count;
            got.receive(&outputs, address, Ghost(all_slots(seen)));
            if got.count > count_before {
                let spent_here: u64 = count_spent(&outputs);
                spent = spent + spent_here;
                if txs == 0 {
                    proof {
                        lemma_counted_is_seen(seen, key);
                    }
                    first_txid = txid.clone();
                    first_at = index;
                    base = got.total;
                }
                proof {
                    lemma_counted_is_seen(seen, key);
                }
                txs = txs + 1;
                last_txid = txid;
                last_at = index;
            }
            proof {
                seen = seen.push(tx);
            }
            index = index + 1;
        }
        i += 1;
    }
    proof {
        assert(db@.entries.take(i as int) =~= db@.entries);
        lemma_history(seen, key);
    }
    let average: u64 = if got.count > 0 {
        got.total / got.count
    } else {
        0
    };
    let delta: i64 = signed_growth(base, got.total);
    Ok(
        WalletStats {
            address: address.dump_base36(),
            tx_count: txs,
            unspent_count: got.count,
            spent_count: spent,
            total_unspent_atomic: got.total,
            total_unspent_snap: atomic_to_snap_string(got.total),
            baseline_unspent_atomic: base,
            baseline_unspent_snap: atomic_to_snap_string(base),
            delta_atomic: delta,
            delta_snap: signed_snap_string(delta),
            trend: trend_of(delta),
            spend_rate: Ratio { part: spent, whole: got.count + spent },
            largest_output_atomic: got.largest,
            largest_output_snap: atomic_to_snap_string(got.largest),
            avg_output_atomic: average,
            avg_output_snap: atomic_to_snap_string(average),
            fragmentation: fragmentation_of(got.count),
            first_seen_txid: first_txid,
            last_seen_txid: last_txid,
            first_seen_index: first_at,
            last_seen_index: last_at,
        },
    )
}

/// A wallet has transactions exactly where it was seen.
proof fn lemma_counted_is_seen(txs: Seq<Tx>, key: Seq<u8>)
    ensures
        tx_count(txs, key) == 0 <==> first_seen(txs, key) is None,
    decreases txs.len(),
{
    if txs.len() > 0 {
        lemma_counted_is_seen(txs.drop_last(), key);
    }
}

} // verus!
