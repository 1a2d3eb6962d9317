//! Stored transaction outputs and how they are read from the bytes of an entry.

use vstd::prelude::*;

use crate::keys::{Address, KEY_BYTES};

verus! {

/// One output of a transaction: an amount in atomic units and who received it.
#[derive(Debug, Clone, Copy)]
pub struct TxOutput {
    pub amount: u64,
    pub receiver: Address,
}

/// An output slot of a stored transaction: the amount and the receiver's key while the output is
/// unspent, nothing once it is spent.
pub type Slot = Option<(u64, Seq<u8>)>;

/// The slot that a stored output fills.
pub open spec fn slot_of(o: Option<TxOutput>) -> Slot {
    match o {
        Some(out) => Some((out.amount, out.receiver@)),
        None => None,
    }
}

/// The slots of a stored transaction.
pub open spec fn slots_of(outputs: Seq<Option<TxOutput>>) -> Seq<Slot> {
    Seq::new(outputs.len(), |i: int| slot_of(outputs[i]))
}

/// Whether every receiver in the slots is a whole key.
pub open spec fn whole_keys(slots: Seq<Slot>) -> bool {
    forall|i: int|
        0 <= i < slots.len() ==> match #[trigger] slots[i] {
            Some((_, key)) => key.len() == KEY_BYTES,
            None => true,
        }
}

/// The receivers of stored outputs are whole keys.
pub proof fn stored_keys_are_whole(outputs: Seq<Option<TxOutput>>)
    ensures
        whole_keys(slots_of(outputs)),
{
}

// ---------------------------------------------------------------------------
// The stored form
// ---------------------------------------------------------------------------

/// The number that bytes stand for, least significant byte first.
pub open spec fn le_value(bytes: Seq<u8>) -> nat
    decreases bytes.len(),
{
    if bytes.len() == 0 {
        0
    } else {
        bytes[0] as nat + 256 * le_value(bytes.skip(1))
    }
}

/// The number at a position, and the position behind it: a byte up to 250 is the number itself,
/// and 251, 252 and 253 announce a number of two, four and eight bytes.
pub open spec fn number_at(bytes: Seq<u8>, at: int) -> Option<(nat, int)> {
    if at >= bytes.len() {
        None
    } else if bytes[at] <= 250 {
        Some((bytes[at] as nat, at + 1))
    } else if bytes[at] == 251 && at + 3 <= bytes.len() {
        Some((le_value(bytes.subrange(at + 1, at + 3)), at + 3))
    } else if bytes[at] == 252 && at + 5 <= bytes.len() {
        Some((le_value(bytes.subrange(at + 1, at + 5)), at + 5))
    } else if bytes[at] == 253 && at + 9 <= bytes.len() {
        Some((le_value(bytes.subrange(at + 1, at + 9)), at + 9))
    } else {
        None
    }
}

/// The slot at a position, and the position behind it: a zero stands for a spent output, and a one
/// precedes the amount and the key of an unspent one.
pub open spec fn slot_at(bytes: Seq<u8>, at: int) -> Option<(Slot, int)> {
    if at >= bytes.len() {
        None
    } else if bytes[at] == 0 {
        Some((None, at + 1))
    } else if bytes[at] == 1 {
        match number_at(bytes, at + 1) {
            Some((amount, next)) => if next + KEY_BYTES <= bytes.len() {
                Some(
                    (
                        Some((amount as u64, bytes.subrange(next, next + KEY_BYTES))),
                        next + KEY_BYTES,
                    ),
                )
            } else {
                None
            },
            None => None,
        }
    } else {
        None
    }
}

/// The `n` slots from a position on.
pub open spec fn slots_from(bytes: Seq<u8>, at: int, n: nat) -> Option<Seq<Slot>>
    decreases n,
{
    if n == 0 {
        Some(seq![])
    } else {
        match slot_at(bytes, at) {
            Some((slot, next)) => match slots_from(bytes, next, (n - 1) as nat) {
                Some(rest) => Some(seq![slot] + rest),
                None => None,
            },
            None => None,
        }
    }
}

/// The slots that bytes hold: their number, then one slot after the other. Bytes behind them are
/// ignored.
pub open spec fn held_slots(bytes: Seq<u8>) -> Option<Seq<Slot>> {
    match number_at(bytes, 0) {
        Some((n, next)) => slots_from(bytes, next, n),
        None => None,
    }
}

/// Every slot takes at least one byte.
pub proof fn slots_take_bytes(bytes: Seq<u8>, at: int, n: nat)
    requires
        0 <= at,
        slots_from(bytes, at, n) is Some,
    ensures
        slots_from(bytes, at, n)->0.len() == n,
        n > 0 ==> at + n <= bytes.len(),
    decreases n,
{
    if n > 0 {
        let (_, next) = slot_at(bytes, at)->0;
        slots_take_bytes(bytes, next, (n - 1) as nat);
    }
}

/// An upper bound of the memory that one decoded output slot takes.
pub const SLOT_BYTES: usize = 48;

/// Whether memory can address as many slots as are declared.
pub open spec fn addressable(bytes: Seq<u8>) -> bool {
    match number_at(bytes, 0) {
        Some((n, _)) => n * SLOT_BYTES <= isize::MAX,
        None => true,
    }
}

proof fn lemma_le_value_bound(bytes: Seq<u8>)
    ensures
        bytes.len() == 0 ==> le_value(bytes) == 0,
        bytes.len() == 1 ==> le_value(bytes) == bytes[0],
        bytes.len() >= 1 ==> le_value(bytes) == bytes[0] + 256 * le_value(bytes.skip(1)),
{
    reveal_with_fuel(le_value, 2);
}

/// The number in the `width` bytes from `from` on, least significant byte first.
fn read_le(bytes: &[u8], from: usize, width: usize) -> (r: u64)
    requires
        width <= 8,
        from + width <= bytes.len(),
    ensures
        r == le_value(bytes@.subrange(from as int, from + width)),
{
    let mut value: u64 = 0;
    let mut left: usize = width;
    proof {
        assert(bytes@.subrange(from + width, from + width) =~= seq![]);
        reveal(vstd::arithmetic::power::pow);
    }
    while left > 0
        invariant
            left <= width <= 8,
            from + width <= bytes.len(),
            value == le_value(bytes@.subrange(from + left, from + width)),
            value < vstd::arithmetic::power::pow(256, (width - left) as nat),
        decreases left,
    {
        proof {
            let tail = bytes@.subrange(from + left, from + width);
            let longer = bytes@.subrange(from + left - 1, from + width);
            assert(longer.skip(1) =~= tail);
            assert(longer[0] == bytes@[from + left - 1]);
            lemma_le_value_bound(longer);
            reveal(vstd::arithmetic::power::pow);
            assert(256 * vstd::arithmetic::power::pow(256, (width - left) as nat)
                == vstd::arithmetic::power::pow(256, (width - left + 1) as nat));
            vstd::arithmetic::power::lemma_pow_increases(256, (width - left + 1) as nat, 8);
            assert(vstd::arithmetic::power::pow(256, 8) == 0x1_0000_0000_0000_0000) by {
                reveal_with_fuel(vstd::arithmetic::power::pow, 9);
            }
        }
        left = left - 1;
        value = bytes[from + left] as u64 + 256 * value;
    }
    value
}

/// Reads the number of slots that the bytes declare.
fn declared_slots(bytes: &[u8]) -> (r: Option<u64>)
    ensures
        match number_at(bytes@, 0) {
            Some((n, _)) => r == Some(n as u64) && n <= u64::MAX,
            None => r is None,
        },
{
    if bytes.len() == 0 {
        return None;
    }
    let head: u8 = bytes[0];
    if head <= 250 {
        Some(head as u64)
    } else if head == 251 && bytes.len() >= 3 {
        Some(read_le(bytes, 1, 2))
    } else if head == 252 && bytes.len() >= 5 {
        Some(read_le(bytes, 1, 4))
    } else if head == 253 && bytes.len() >= 9 {
        Some(read_le(bytes, 1, 8))
    } else {
        None
    }
}

// ---------------------------------------------------------------------------
// Decoding
// ---------------------------------------------------------------------------

/// The error of the decoder.
#[verifier::external_type_specification]
#[verifier::external_body]
pub struct ExDecodeError(bincode::error::DecodeError);

/// `bincode::decode_from_slice`, under the standard configuration, reads a vector of optional
/// `snap_coin` outputs from the beginning of the bytes and leaves what is behind it unread; it
/// fails exactly where the bytes do not hold one. Before it reads a slot it asks for the memory of
/// all that are declared, and panics where that is more than can be addressed, which is why their
/// number is bounded here.
#[verifier::external_body]
fn bincode_decode(bytes: &[u8]) -> (r: Result<Vec<Option<TxOutput>>, bincode::error::DecodeError>)
    requires
        addressable(bytes@),
    ensures
        match r {
            Ok(outputs) => held_slots(bytes@) == Some(slots_of(outputs@)),
            Err(_) => held_slots(bytes@) is None,
        },
{
    let (outputs, _) = bincode::decode_from_slice::<
        Vec<Option<snap_coin::core::transaction::TransactionOutput>>,
        _,
    >(bytes, bincode::config::standard())?;
    Ok(
        outputs.into_iter().map(
            |o| o.map(|o| TxOutput { amount: o.amount, receiver: Address { key: *o.receiver } }),
        ).collect(),
    )
}

/// `bincode::error::DecodeError` renders itself as a diagnostic. Its wording quotes type names
/// that the compiler chooses, so nothing is claimed of it.
#[verifier::external_body]
fn decode_error_text(e: &bincode::error::DecodeError) -> (r: String)
{
    e.to_string()
}

/// Why the outputs of an entry cannot be read.
#[derive(Debug)]
pub enum DecodeFault {
    /// More outputs are declared than memory can address.
    TooManyOutputs,
    /// The bytes are no outputs; the decoder's diagnostic.
    Malformed(String),
}

/// The slots of the transaction that the value of an entry holds, if it holds one that memory can
/// address.
pub open spec fn stored_slots(value: Seq<u8>) -> Option<Seq<Slot>> {
    if addressable(value) {
        held_slots(value)
    } else {
        None
    }
}

/// Reads the outputs that the value of an entry holds.
pub fn decode_outputs(value: &[u8]) -> (r: Result<Vec<Option<TxOutput>>, DecodeFault>)
    ensures
        match r {
            Ok(outputs) => stored_slots(value@) == Some(slots_of(outputs@)) && outputs.len()
                <= value.len(),
            Err(fault) => stored_slots(value@) is None && (fault is TooManyOutputs
                <==> !addressable(value@)),
        },
{
    proof {
        if let Some((n, next)) = number_at(value@, 0) {
            if held_slots(value@) is Some {
                slots_take_bytes(value@, next, n);
            }
        }
    }
    if let Some(n) = declared_slots(value) {
        if n > isize::MAX as u64 / SLOT_BYTES as u64 {
            return Err(DecodeFault::TooManyOutputs);
        }
    }
    match bincode_decode(value) {
        Ok(outputs) => Ok(outputs),
        Err(e) => Err(DecodeFault::Malformed(decode_error_text(&e))),
    }
}

} // verus!
