//! Running totals per receiver, kept while outputs are scanned.

use vstd::prelude::*;

use crate::index::NameIndex;
use crate::keys::{key_text, key_text_is_injective, KEY_BYTES};
use crate::model::{
    outputs_to, paid_to, receiver_is_within_the_whole, saturated, wallets,
    wallets_are_the_receivers, wallets_are_whole_keys,
};
use crate::outputs::{whole_keys, Slot};

verus! {

/// The texts of the wallets, in the order in which they first appear.
pub open spec fn wallet_texts(slots: Seq<Slot>) -> Seq<Seq<char>> {
    Seq::new(wallets(slots).len(), |i: int| key_text(wallets(slots)[i]))
}

/// What each wallet received.
pub open spec fn wallet_totals(slots: Seq<Slot>) -> Seq<u64> {
    Seq::new(wallets(slots).len(), |i: int| saturated(paid_to(slots, wallets(slots)[i])))
}

/// What one more unspent output does to the wallets.
pub proof fn lemma_payment_step(slots: Seq<Slot>, amount: u64, key: Seq<u8>)
    ensures
        ({
            let more = slots.push(Some((amount, key)));
            let known = wallets(slots).contains(key);
            &&& wallets(more) == if known {
                wallets(slots)
            } else {
                wallets(slots).push(key)
            }
            &&& !known ==> outputs_to(slots, key) == 0 && paid_to(slots, key) == 0
            &&& paid_to(more, key) == paid_to(slots, key) + amount
            &&& outputs_to(more, key) == outputs_to(slots, key) + 1
            &&& forall|other: Seq<u8>|
                other != key ==> #[trigger] paid_to(more, other) == paid_to(slots, other)
            &&& forall|other: Seq<u8>|
                other != key ==> #[trigger] outputs_to(more, other) == outputs_to(slots, other)
        }),
{
    let more = slots.push(Some((amount, key)));
    assert(more.drop_last() =~= slots);
    wallets_are_the_receivers(slots);
    receiver_is_within_the_whole(slots, key);
}

/// What one more spent output does to the wallets: nothing.
pub proof fn lemma_spent_step(slots: Seq<Slot>)
    ensures
        wallets(slots.push(None)) == wallets(slots),
        wallet_texts(slots.push(None)) == wallet_texts(slots),
        wallet_totals(slots.push(None)) == wallet_totals(slots),
        forall|key: Seq<u8>| #[trigger] paid_to(slots.push(None), key) == paid_to(slots, key),
        forall|key: Seq<u8>| #[trigger] outputs_to(slots.push(None), key) == outputs_to(slots, key),
{
    assert(slots.push(None).drop_last() =~= slots);
    assert(wallet_texts(slots.push(None)) =~= wallet_texts(slots));
    assert(wallet_totals(slots.push(None)) =~= wallet_totals(slots));
}

/// A wallet is known by its key exactly where it is known by its text.
pub proof fn lemma_known_by_text(slots: Seq<Slot>, key: Seq<u8>)
    requires
        whole_keys(slots),
        key.len() == KEY_BYTES,
    ensures
        wallet_texts(slots).contains(key_text(key)) <==> wallets(slots).contains(key),
{
    wallets_are_whole_keys(slots);
    if wallet_texts(slots).contains(key_text(key)) {
        let i = choose|i: int|
            0 <= i < wallet_texts(slots).len() && wallet_texts(slots)[i] == key_text(key);
        key_text_is_injective(wallets(slots)[i], key);
    }
    if wallets(slots).contains(key) {
        let i = choose|i: int| 0 <= i < wallets(slots).len() && wallets(slots)[i] == key;
        assert(wallet_texts(slots)[i] == key_text(key));
    }
}

/// One more slot keeps the receivers whole.
pub proof fn lemma_whole_step(slots: Seq<Slot>, slot: Slot)
    requires
        whole_keys(slots),
        match slot {
            Some((_, key)) => key.len() == KEY_BYTES,
            None => true,
        },
    ensures
        whole_keys(slots.push(slot)),
{
    assert forall|i: int| 0 <= i < slots.push(slot).len() implies match #[trigger] slots.push(slot)[i] {
        Some((_, key)) => key.len() == KEY_BYTES,
        None => true,
    } by {
        if i < slots.len() {
            assert(slots.push(slot)[i] == slots[i]);
        }
    }
}

/// Finds the place of a receiver among the wallets, or gives it the next one.
pub(crate) fn place_wallet(
    index: &mut NameIndex,
    name: &str,
    Ghost(amount): Ghost<u64>,
    Ghost(key): Ghost<Seq<u8>>,
    Ghost(slots): Ghost<Seq<Slot>>,
) -> (place: usize)
    requires
        old(index).well_formed(),
        old(index)@ == wallet_texts(slots),
        whole_keys(slots),
        key.len() == KEY_BYTES,
        name@ == key_text(key),
    ensures
        final(index).well_formed(),
        final(index)@ == wallet_texts(slots.push(Some((amount, key)))),
        whole_keys(slots.push(Some((amount, key)))),
        place < wallets(slots.push(Some((amount, key)))).len(),
        wallets(slots.push(Some((amount, key))))[place as int] == key,
        place < wallets(slots).len() <==> wallets(slots).contains(key),
        place <= wallets(slots).len(),
{
    let ghost more = slots.push(Some((amount, key)));
    proof {
        lemma_known_by_text(slots, key);
        lemma_payment_step(slots, amount, key);
        lemma_whole_step(slots, Some((amount, key)));
        wallets_are_whole_keys(more);
        assert(wallet_texts(more) =~= (if wallets(slots).contains(key) {
            wallet_texts(slots)
        } else {
            wallet_texts(slots).push(key_text(key))
        }));
    }
    let place = index.place_of(name);
    proof {
        assert(wallet_texts(more)[place as int] == key_text(key));
        key_text_is_injective(wallets(more)[place as int], key);
        wallets_are_the_receivers(more);
        if wallets(slots).contains(key) {
            let i = choose|i: int| 0 <= i < wallets(slots).len() && wallets(slots)[i] == key;
            assert(wallets(more)[i] == key);
        } else if place < wallets(slots).len() {
            assert(wallets(more)[place as int] == wallets(slots)[place as int]);
        }
    }
    place
}

/// The total of every wallet so far.
pub struct Tally {
    pub index: NameIndex,
    pub totals: Vec<u64>,
}

impl Tally {
    /// Whether the tally is that of the slots.
    pub open spec fn of(&self, slots: Seq<Slot>) -> bool {
        &&& self.index.well_formed()
        &&& self.index@ == wallet_texts(slots)
        &&& self.totals@ == wallet_totals(slots)
        &&& whole_keys(slots)
    }

    /// The tally of nothing.
    pub fn new() -> (r: Tally)
        ensures
            r.of(seq![]),
    {
        let r = Tally { index: NameIndex::new(), totals: Vec::new() };
        assert(r.index@ =~= wallet_texts(seq![]));
        assert(r.totals@ =~= wallet_totals(seq![]));
        r
    }

    /// Counts one more unspent output.
    pub(crate) fn pay(
        &mut self,
        name: &str,
        amount: u64,
        Ghost(key): Ghost<Seq<u8>>,
        Ghost(slots): Ghost<Seq<Slot>>,
    ) -> (place: usize)
        requires
            old(self).of(slots),
            key.len() == KEY_BYTES,
            name@ == key_text(key),
        ensures
            final(self).of(slots.push(Some((amount, key)))),
            place < wallets(slots.push(Some((amount, key)))).len(),
            wallets(slots.push(Some((amount, key))))[place as int] == key,
            place < wallets(slots).len() <==> wallets(slots).contains(key),
            place <= wallets(slots).len(),
    {
        let ghost more = slots.push(Some((amount, key)));
        let place = place_wallet(
            &mut self.index,
            name,
            Ghost(amount),
            Ghost(key),
            Ghost(slots),
        );
        proof {
            lemma_payment_step(slots, amount, key);
        }
        if place == self.totals.len() {
            self.totals.push(0);
        }
        assert(self.totals@[place as int] == saturated(paid_to(slots, key)));
        let total: u64 = self.totals[place].saturating_add(amount);
        self.totals.set(place, total);
        proof {
            wallets_are_the_receivers(more);
            assert forall|i: int| 0 <= i < wallets(more).len() implies self.totals@[i]
                == #[trigger] wallet_totals(more)[i] by {
                if i != place {
                    assert(wallets(more)[i] != key);
                    assert(wallets(more)[i] == wallets(slots)[i]);
                    assert(wallet_totals(slots)[i] == saturated(paid_to(slots, wallets(slots)[i])));
                    assert(paid_to(more, wallets(more)[i]) == paid_to(slots, wallets(slots)[i]));
                }
            }
            assert(self.totals@ =~= wallet_totals(more));
        }
        place
    }
}

} // verus!
