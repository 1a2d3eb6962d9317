//! The mathematical picture of the store: transactions, their output slots, and what is counted
//! and summed over them.

use vstd::prelude::*;

use crate::codec::utf8_text;
use crate::keys::{names_tx, KEY_BYTES};
use crate::outputs::{stored_slots, whole_keys, Slot};

verus! {

// ---------------------------------------------------------------------------
// Amounts
// ---------------------------------------------------------------------------

/// A sum of amounts, held at the largest amount where it would exceed it.
pub open spec fn saturated(n: nat) -> u64 {
    if n <= u64::MAX {
        n as u64
    } else {
        u64::MAX
    }
}

/// Adding one amount after another, each time held at the largest amount, holds the whole sum.
pub proof fn saturation_is_of_the_sum(n: nat, amount: u64)
    ensures
        saturated(n + amount as nat) == (if saturated(n) + amount > u64::MAX {
            u64::MAX
        } else {
            (saturated(n) + amount) as u64
        }),
{
}

// ---------------------------------------------------------------------------
// Slots
// ---------------------------------------------------------------------------

/// How many slots are unspent.
pub open spec fn unspent_count(slots: Seq<Slot>) -> nat
    decreases slots.len(),
{
    if slots.len() == 0 {
        0
    } else {
        unspent_count(slots.drop_last()) + if slots.last() is Some {
            1nat
        } else {
            0nat
        }
    }
}

/// How many slots are spent.
pub open spec fn spent_count(slots: Seq<Slot>) -> nat
    decreases slots.len(),
{
    if slots.len() == 0 {
        0
    } else {
        spent_count(slots.drop_last()) + if slots.last() is None {
            1nat
        } else {
            0nat
        }
    }
}

/// The amount in a slot; nothing where it is spent.
pub open spec fn amount_in(slot: Slot) -> nat {
    match slot {
        Some((amount, _)) => amount as nat,
        None => 0,
    }
}

/// Whether a slot pays `key`.
pub open spec fn pays(slot: Slot, key: Seq<u8>) -> bool {
    match slot {
        Some((_, k)) => k == key,
        None => false,
    }
}

/// The sum of all unspent amounts.
pub open spec fn unspent_sum(slots: Seq<Slot>) -> nat
    decreases slots.len(),
{
    if slots.len() == 0 {
        0
    } else {
        unspent_sum(slots.drop_last()) + amount_in(slots.last())
    }
}

/// The sum of the unspent amounts that `key` received.
pub open spec fn paid_to(slots: Seq<Slot>, key: Seq<u8>) -> nat
    decreases slots.len(),
{
    if slots.len() == 0 {
        0
    } else {
        paid_to(slots.drop_last(), key) + if pays(slots.last(), key) {
            amount_in(slots.last())
        } else {
            0nat
        }
    }
}

/// How many unspent outputs `key` received.
pub open spec fn outputs_to(slots: Seq<Slot>, key: Seq<u8>) -> nat
    decreases slots.len(),
{
    if slots.len() == 0 {
        0
    } else {
        outputs_to(slots.drop_last(), key) + if pays(slots.last(), key) {
            1nat
        } else {
            0nat
        }
    }
}

/// The largest unspent amount that `key` received, or zero.
pub open spec fn largest_to(slots: Seq<Slot>, key: Seq<u8>) -> nat
    decreases slots.len(),
{
    if slots.len() == 0 {
        0
    } else {
        let before = largest_to(slots.drop_last(), key);
        if pays(slots.last(), key) && amount_in(slots.last()) > before {
            amount_in(slots.last())
        } else {
            before
        }
    }
}

/// The receivers of unspent outputs, each once, in the order in which they first appear.
pub open spec fn wallets(slots: Seq<Slot>) -> Seq<Seq<u8>>
    decreases slots.len(),
{
    if slots.len() == 0 {
        seq![]
    } else {
        let before = wallets(slots.drop_last());
        match slots.last() {
            Some((_, key)) => if before.contains(key) {
                before
            } else {
                before.push(key)
            },
            None => before,
        }
    }
}

// ---------------------------------------------------------------------------
// Transactions
// ---------------------------------------------------------------------------

/// A stored transaction: its id as text and its output slots.
pub struct Tx {
    pub txid: Seq<char>,
    pub slots: Seq<Slot>,
}

/// The slots of all transactions, in scan order.
pub open spec fn all_slots(txs: Seq<Tx>) -> Seq<Slot>
    decreases txs.len(),
{
    if txs.len() == 0 {
        seq![]
    } else {
        all_slots(txs.drop_last()) + txs.last().slots
    }
}

/// Whether a transaction holds an unspent output of `key`.
pub open spec fn involves(tx: Tx, key: Seq<u8>) -> bool {
    outputs_to(tx.slots, key) > 0
}

/// How many transactions hold an unspent output of `key`.
pub open spec fn tx_count(txs: Seq<Tx>, key: Seq<u8>) -> nat
    decreases txs.len(),
{
    if txs.len() == 0 {
        0
    } else {
        tx_count(txs.drop_last(), key) + if involves(txs.last(), key) {
            1nat
        } else {
            0nat
        }
    }
}

/// How many spent slots stand in the transactions that hold an unspent output of `key`.
pub open spec fn spent_beside(txs: Seq<Tx>, key: Seq<u8>) -> nat
    decreases txs.len(),
{
    if txs.len() == 0 {
        0
    } else {
        spent_beside(txs.drop_last(), key) + if involves(txs.last(), key) {
            spent_count(txs.last().slots)
        } else {
            0nat
        }
    }
}

/// The first transaction that holds an unspent output of `key`.
pub open spec fn first_seen(txs: Seq<Tx>, key: Seq<u8>) -> Option<int>
    decreases txs.len(),
{
    if txs.len() == 0 {
        None
    } else {
        match first_seen(txs.drop_last(), key) {
            Some(i) => Some(i),
            None => if involves(txs.last(), key) {
                Some(txs.len() - 1)
            } else {
                None
            },
        }
    }
}

/// The last transaction that holds an unspent output of `key`.
pub open spec fn last_seen(txs: Seq<Tx>, key: Seq<u8>) -> Option<int>
    decreases txs.len(),
{
    if txs.len() == 0 {
        None
    } else if involves(txs.last(), key) {
        Some(txs.len() - 1)
    } else {
        last_seen(txs.drop_last(), key)
    }
}

/// What `key` held after the first transaction in which it appears.
pub open spec fn baseline(txs: Seq<Tx>, key: Seq<u8>) -> u64 {
    match first_seen(txs, key) {
        Some(i) => saturated(paid_to(txs[i].slots, key)),
        None => 0,
    }
}

// ---------------------------------------------------------------------------
// The store
// ---------------------------------------------------------------------------

/// An entry of the store.
pub struct StoredEntry {
    pub key: Seq<u8>,
    pub value: Seq<u8>,
}

/// The transaction id that the key of an entry names, as text.
pub open spec fn entry_txid(entry: StoredEntry) -> Option<Seq<char>> {
    match utf8_text(entry.key) {
        Some(s) => if names_tx(s) {
            Some(s)
        } else {
            None
        },
        None => None,
    }
}

/// The transaction that an entry holds, if its key names one and its value decodes.
pub open spec fn entry_tx(entry: StoredEntry) -> Option<Tx> {
    match entry_txid(entry) {
        Some(txid) => match stored_slots(entry.value) {
            Some(slots) => Some(Tx { txid, slots }),
            None => None,
        },
        None => None,
    }
}

/// The transactions of the store, in key order.
pub open spec fn valid_txs(entries: Seq<StoredEntry>) -> Seq<Tx>
    decreases entries.len(),
{
    if entries.len() == 0 {
        seq![]
    } else {
        let before = valid_txs(entries.drop_last());
        match entry_tx(entries.last()) {
            Some(tx) => before.push(tx),
            None => before,
        }
    }
}

/// The entries of the store whose keys name a transaction; one whose value does not decode counts
/// as a transaction without outputs.
pub open spec fn named_txs(entries: Seq<StoredEntry>) -> Seq<Tx>
    decreases entries.len(),
{
    if entries.len() == 0 {
        seq![]
    } else {
        let before = named_txs(entries.drop_last());
        match entry_txid(entries.last()) {
            Some(txid) => match stored_slots(entries.last().value) {
                Some(slots) => before.push(Tx { txid, slots }),
                None => before.push(Tx { txid, slots: seq![] }),
            },
            None => before,
        }
    }
}

/// The slots of every entry whose value decodes, whatever its key.
pub open spec fn every_slot(entries: Seq<StoredEntry>) -> Seq<Slot>
    decreases entries.len(),
{
    if entries.len() == 0 {
        seq![]
    } else {
        let before = every_slot(entries.drop_last());
        match stored_slots(entries.last().value) {
            Some(slots) => before + slots,
            None => before,
        }
    }
}

/// The bytes that the values of the entries take.
pub open spec fn value_bytes(entries: Seq<StoredEntry>) -> nat
    decreases entries.len(),
{
    if entries.len() == 0 {
        0
    } else {
        value_bytes(entries.drop_last()) + entries.last().value.len()
    }
}

// ---------------------------------------------------------------------------
// Facts about slots
// ---------------------------------------------------------------------------

/// Every slot is spent or unspent.
pub proof fn slots_are_spent_or_unspent(slots: Seq<Slot>)
    ensures
        unspent_count(slots) + spent_count(slots) == slots.len(),
    decreases slots.len(),
{
    if slots.len() > 0 {
        slots_are_spent_or_unspent(slots.drop_last());
    }
}

/// Counts and sums over two runs of slots add up.
pub proof fn counts_add_up(a: Seq<Slot>, b: Seq<Slot>, key: Seq<u8>)
    ensures
        unspent_count(a + b) == unspent_count(a) + unspent_count(b),
        spent_count(a + b) == spent_count(a) + spent_count(b),
        unspent_sum(a + b) == unspent_sum(a) + unspent_sum(b),
        paid_to(a + b, key) == paid_to(a, key) + paid_to(b, key),
        outputs_to(a + b, key) == outputs_to(a, key) + outputs_to(b, key),
    decreases b.len(),
{
    if b.len() == 0 {
        assert(a + b =~= a);
    } else {
        counts_add_up(a, b.drop_last(), key);
        assert((a + b).drop_last() =~= a + b.drop_last());
        assert((a + b).last() == b.last());
    }
}

/// A receiver that got no output got no amount, and every receiver got no more than all did.
pub proof fn receiver_is_within_the_whole(slots: Seq<Slot>, key: Seq<u8>)
    ensures
        outputs_to(slots, key) == 0 ==> paid_to(slots, key) == 0 && largest_to(slots, key) == 0,
        outputs_to(slots, key) <= unspent_count(slots),
        paid_to(slots, key) <= unspent_sum(slots),
        largest_to(slots, key) <= paid_to(slots, key),
        largest_to(slots, key) <= u64::MAX,
    decreases slots.len(),
{
    if slots.len() > 0 {
        receiver_is_within_the_whole(slots.drop_last(), key);
    }
}

/// The wallets are the receivers of unspent outputs, each once.
pub proof fn wallets_are_the_receivers(slots: Seq<Slot>)
    ensures
        wallets(slots).no_duplicates(),
        forall|key: Seq<u8>| #[trigger]
            wallets(slots).contains(key) <==> outputs_to(slots, key) > 0,
        wallets(slots).len() <= unspent_count(slots),
    decreases slots.len(),
{
    if slots.len() > 0 {
        let before = wallets(slots.drop_last());
        wallets_are_the_receivers(slots.drop_last());
        match slots.last() {
            Some((_, k)) => {
                if !before.contains(k) {
                    assert forall|key: Seq<u8>| #[trigger]
                        wallets(slots).contains(key) <==> outputs_to(slots, key) > 0 by {
                        if before.contains(key) {
                            let i = choose|i: int| 0 <= i < before.len() && before[i] == key;
                            assert(wallets(slots)[i] == key);
                        }
                        if key == k {
                            assert(wallets(slots)[before.len() as int] == key);
                        }
                        if wallets(slots).contains(key) && key != k {
                            let i = choose|i: int|
                                0 <= i < wallets(slots).len() && wallets(slots)[i] == key;
                            assert(before[i] == key);
                        }
                        assert(before.contains(key) <==> outputs_to(slots.drop_last(), key) > 0);
                    }
                } else {
                    assert forall|key: Seq<u8>| #[trigger]
                        wallets(slots).contains(key) <==> outputs_to(slots, key) > 0 by {
                        assert(before.contains(key) <==> outputs_to(slots.drop_last(), key) > 0);
                    }
                }
            },
            None => {
                assert forall|key: Seq<u8>| #[trigger]
                    wallets(slots).contains(key) <==> outputs_to(slots, key) > 0 by {
                    assert(before.contains(key) <==> outputs_to(slots.drop_last(), key) > 0);
                }
            },
        }
    }
}

/// The wallets of whole keys are whole keys.
pub proof fn wallets_are_whole_keys(slots: Seq<Slot>)
    requires
        whole_keys(slots),
    ensures
        forall|i: int|
            0 <= i < wallets(slots).len() ==> (#[trigger] wallets(slots)[i]).len() == KEY_BYTES,
    decreases slots.len(),
{
    if slots.len() > 0 {
        let before = wallets(slots.drop_last());
        wallets_are_whole_keys(slots.drop_last());
        assert(slots[slots.len() - 1] == slots.last());
        assert forall|i: int| 0 <= i < wallets(slots).len() implies (
        #[trigger] wallets(slots)[i]).len() == KEY_BYTES by {
            if i < before.len() {
                assert(wallets(slots)[i] == before[i]);
            }
        }
    }
}

} // verus!
