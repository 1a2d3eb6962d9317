//! What the counts and sums over the store say, slot by slot and entry by entry.

use vstd::prelude::*;

use crate::codec::utf8_text;
use crate::keys::named_key;
use crate::model::{
    all_slots, counts_add_up, every_slot, first_seen, largest_to, last_seen, named_txs, outputs_to,
    paid_to, spent_beside, spent_count, tx_count, unspent_count, unspent_sum, valid_txs,
    value_bytes, wallets, wallets_are_the_receivers, StoredEntry, Tx,
};
use crate::outputs::{stored_slots, Slot};

verus! {

// ---------------------------------------------------------------------------
// Words
// ---------------------------------------------------------------------------

/// The sum of numbers.
pub open spec fn sum(numbers: Seq<nat>) -> nat {
    numbers.fold_left(0, |a: nat, b: nat| a + b)
}

/// A sum as an amount holds it: the sum, or the largest amount where it is larger.
pub open spec fn held(n: nat) -> nat {
    if n <= u64::MAX {
        n
    } else {
        u64::MAX as nat
    }
}

/// Being an unspent output.
pub open spec fn is_unspent() -> spec_fn(Slot) -> bool {
    |slot: Slot| slot is Some
}

/// Being a spent output.
pub open spec fn is_spent() -> spec_fn(Slot) -> bool {
    |slot: Slot| slot is None
}

/// Being an unspent output of `key`.
pub open spec fn is_of(key: Seq<u8>) -> spec_fn(Slot) -> bool {
    |slot: Slot|
        match slot {
            Some((_, receiver)) => receiver == key,
            None => false,
        }
}

/// The amounts in slots; nothing where one is spent.
pub open spec fn amounts(slots: Seq<Slot>) -> Seq<nat> {
    slots.map_values(
        |slot: Slot|
            match slot {
                Some((amount, _)) => amount as nat,
                None => 0nat,
            },
    )
}

/// Holding an unspent output of `key`.
pub open spec fn is_paying(key: Seq<u8>) -> spec_fn(Tx) -> bool {
    |tx: Tx| tx.slots.filter(is_of(key)).len() > 0
}

/// Having a key that names a transaction.
pub open spec fn is_named() -> spec_fn(StoredEntry) -> bool {
    |entry: StoredEntry|
        match utf8_text(entry.key) {
            Some(text) => named_key(text) is Some,
            None => false,
        }
}

/// Having a value that decodes.
pub open spec fn is_decodable() -> spec_fn(StoredEntry) -> bool {
    |entry: StoredEntry| stored_slots(entry.value) is Some
}

/// Holding a transaction: having a key that names one, and a value that decodes.
pub open spec fn is_tx() -> spec_fn(StoredEntry) -> bool {
    |entry: StoredEntry| is_named()(entry) && is_decodable()(entry)
}

// ---------------------------------------------------------------------------
// Slots
// ---------------------------------------------------------------------------

/// The counts over slots are those of the spent ones, of the unspent ones, and of the unspent ones
/// of a key.
pub proof fn counts_are_of_slots(slots: Seq<Slot>, key: Seq<u8>)
    ensures
        unspent_count(slots) == slots.filter(is_unspent()).len(),
        spent_count(slots) == slots.filter(is_spent()).len(),
        outputs_to(slots, key) == slots.filter(is_of(key)).len(),
    decreases slots.len(),
{
    reveal(Seq::filter);
    if slots.len() > 0 {
        counts_are_of_slots(slots.drop_last(), key);
    }
}

/// The sums over slots are those of all unspent amounts, and of those that a key received.
pub proof fn sums_are_of_slots(slots: Seq<Slot>, key: Seq<u8>)
    ensures
        unspent_sum(slots) == sum(amounts(slots)),
        paid_to(slots, key) == sum(amounts(slots.filter(is_of(key)))),
    decreases slots.len(),
{
    reveal(Seq::filter);
    if slots.len() > 0 {
        let rest = slots.drop_last();
        sums_are_of_slots(rest, key);
        assert(amounts(slots).drop_last() =~= amounts(rest));
        let kept = rest.filter(is_of(key));
        assert(amounts(kept.push(slots.last())).drop_last() =~= amounts(kept));
    }
}

/// The largest amount that a key received is received by it, and no larger one is.
pub proof fn largest_is_received(slots: Seq<Slot>, key: Seq<u8>)
    ensures
        forall|i: int|
            0 <= i < slots.len() && is_of(key)(#[trigger] slots[i]) ==> (slots[i]->0).0
                <= largest_to(slots, key),
        slots.filter(is_of(key)).len() == 0 ==> largest_to(slots, key) == 0,
        slots.filter(is_of(key)).len() > 0 ==> exists|i: int|
            0 <= i < slots.len() && #[trigger] slots[i] == Some(
                (largest_to(slots, key) as u64, key),
            ),
        largest_to(slots, key) <= u64::MAX,
    decreases slots.len(),
{
    reveal(Seq::filter);
    if slots.len() > 0 {
        let rest = slots.drop_last();
        largest_is_received(rest, key);
        assert forall|i: int| 0 <= i < slots.len() && is_of(key)(#[trigger] slots[i]) implies (
        slots[i]->0).0 <= largest_to(slots, key) by {
            if i < rest.len() {
                assert(rest[i] == slots[i]);
            }
        }
        if rest.filter(is_of(key)).len() > 0 {
            let i = choose|i: int|
                0 <= i < rest.len() && #[trigger] rest[i] == Some(
                    (largest_to(rest, key) as u64, key),
                );
            assert(slots[i] == rest[i]);
        }
        if is_of(key)(slots.last()) {
            let amount = (slots.last()->0).0;
            assert(slots[slots.len() - 1] == Some((amount, key)));
        }
    }
}

/// The wallets are the keys that receive an unspent output, each once.
pub proof fn wallets_receive(slots: Seq<Slot>, key: Seq<u8>)
    ensures
        wallets(slots).no_duplicates(),
        wallets(slots).contains(key) <==> slots.filter(is_of(key)).len() > 0,
{
    wallets_are_the_receivers(slots);
    counts_are_of_slots(slots, key);
}

// ---------------------------------------------------------------------------
// Transactions
// ---------------------------------------------------------------------------

/// The slots of transactions are those of the first, then those of the next, and so on.
pub proof fn slots_are_in_order(txs: Seq<Tx>)
    ensures
        all_slots(txs) == txs.map_values(|tx: Tx| tx.slots).flatten(),
    decreases txs.len(),
{
    let parts = txs.map_values(|tx: Tx| tx.slots);
    if txs.len() > 0 {
        let rest = txs.drop_last();
        slots_are_in_order(rest);
        let before = rest.map_values(|tx: Tx| tx.slots);
        assert(parts =~= before.push(txs.last().slots));
        before.lemma_flatten_push(txs.last().slots);
    }
}

/// The history of a key: the transactions that hold an unspent output of it, the first and the last
/// of them, and the spent slots in them.
pub proof fn history_is_of_paying_txs(txs: Seq<Tx>, key: Seq<u8>)
    ensures
        tx_count(txs, key) == txs.filter(is_paying(key)).len(),
        spent_beside(txs, key) == sum(
            txs.filter(is_paying(key)).map_values(|tx: Tx| tx.slots.filter(is_spent()).len()),
        ),
        match first_seen(txs, key) {
            Some(i) => 0 <= i < txs.len() && is_paying(key)(txs[i]) && forall|j: int|
                0 <= j < i ==> !is_paying(key)(#[trigger] txs[j]),
            None => forall|j: int| 0 <= j < txs.len() ==> !is_paying(key)(#[trigger] txs[j]),
        },
        match last_seen(txs, key) {
            Some(i) => 0 <= i < txs.len() && is_paying(key)(txs[i]) && forall|j: int|
                i < j < txs.len() ==> !is_paying(key)(#[trigger] txs[j]),
            None => forall|j: int| 0 <= j < txs.len() ==> !is_paying(key)(#[trigger] txs[j]),
        },
    decreases txs.len(),
{
    reveal(Seq::filter);
    if txs.len() > 0 {
        let rest = txs.drop_last();
        let last = txs.last();
        history_is_of_paying_txs(rest, key);
        counts_are_of_slots(last.slots, key);
        assert forall|j: int| 0 <= j < rest.len() implies rest[j] == #[trigger] txs[j] by {}
        assert(txs[txs.len() - 1] == last);
        let kept = rest.filter(is_paying(key));
        let spent = |tx: Tx| tx.slots.filter(is_spent()).len();
        assert(kept.push(last).map_values(spent).drop_last() =~= kept.map_values(spent));
    }
}

// ---------------------------------------------------------------------------
// Entries
// ---------------------------------------------------------------------------

/// The transactions of the store are its entries that hold one, in their order; each has the text
/// of its key as its id.
pub proof fn valid_txs_are_entries(entries: Seq<StoredEntry>)
    ensures
        valid_txs(entries).len() == entries.filter(is_tx()).len(),
        forall|i: int|
            0 <= i < valid_txs(entries).len() ==> utf8_text(entries.filter(is_tx())[i].key) == Some(
                (#[trigger] valid_txs(entries)[i]).txid,
            ) && stored_slots(entries.filter(is_tx())[i].value) == Some(
                valid_txs(entries)[i].slots,
            ),
    decreases entries.len(),
{
    reveal(Seq::filter);
    if entries.len() > 0 {
        valid_txs_are_entries(entries.drop_last());
    }
}

/// The positions of a wallet's history count the entries whose keys name a transaction, in their
/// order; one whose value does not decode holds no slot.
pub proof fn named_txs_are_entries(entries: Seq<StoredEntry>)
    ensures
        named_txs(entries).len() == entries.filter(is_named()).len(),
        forall|i: int|
            0 <= i < named_txs(entries).len() ==> utf8_text(entries.filter(is_named())[i].key)
                == Some((#[trigger] named_txs(entries)[i]).txid) && named_txs(entries)[i].slots
                == match stored_slots(entries.filter(is_named())[i].value) {
                Some(slots) => slots,
                None => seq![],
            },
    decreases entries.len(),
{
    reveal(Seq::filter);
    if entries.len() > 0 {
        named_txs_are_entries(entries.drop_last());
    }
}

/// The slots of the store are those of every entry whose value decodes, whatever its key.
pub proof fn every_slot_is_of_an_entry(entries: Seq<StoredEntry>)
    ensures
        every_slot(entries) == entries.filter(is_decodable()).map_values(
            |entry: StoredEntry| stored_slots(entry.value)->0,
        ).flatten(),
    decreases entries.len(),
{
    reveal(Seq::filter);
    let slots = |entry: StoredEntry| stored_slots(entry.value)->0;
    let parts = entries.filter(is_decodable()).map_values(slots);
    if entries.len() > 0 {
        let rest = entries.drop_last();
        every_slot_is_of_an_entry(rest);
        let before = rest.filter(is_decodable()).map_values(slots);
        if stored_slots(entries.last().value) is Some {
            assert(parts =~= before.push(slots(entries.last())));
            before.lemma_flatten_push(slots(entries.last()));
        }
    }
}

/// What a key received in the store is the sum of what it received entry by entry.
pub proof fn balances_add_up(first: Seq<StoredEntry>, second: Seq<StoredEntry>, key: Seq<u8>)
    ensures
        paid_to(every_slot(first + second), key) == paid_to(every_slot(first), key) + paid_to(
            every_slot(second),
            key,
        ),
    decreases second.len(),
{
    if second.len() == 0 {
        assert(first + second =~= first);
    } else {
        let rest = second.drop_last();
        balances_add_up(first, rest, key);
        assert((first + second).drop_last() =~= first + rest);
        assert((first + second).last() == second.last());
        if let Some(slots) = stored_slots(second.last().value) {
            counts_add_up(every_slot(first + rest), slots, key);
            counts_add_up(every_slot(rest), slots, key);
        }
    }
}

/// The bytes of the values are those of one after the other.
pub proof fn bytes_are_of_values(entries: Seq<StoredEntry>)
    ensures
        value_bytes(entries) == sum(
            entries.map_values(|entry: StoredEntry| entry.value.len()),
        ),
    decreases entries.len(),
{
    let sizes = |entry: StoredEntry| entry.value.len();
    if entries.len() > 0 {
        bytes_are_of_values(entries.drop_last());
        assert(entries.map_values(sizes).drop_last() =~= entries.drop_last().map_values(sizes));
    }
}

} // verus!
