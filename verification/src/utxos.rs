//! The outputs of one transaction, and the transactions that pay one address.

use vstd::prelude::*;
use vstd::string::*;

use crate::index::texts;
use crate::keys::{key_text, named_key, Address, TxId};
use crate::model::{counts_add_up, entry_tx, involves, outputs_to, valid_txs, Tx};
use crate::outputs::{
    addressable, decode_outputs, slot_of, slots_of, stored_slots, DecodeFault, Slot, TxOutput,
};
use crate::store::{lemma_scan_step, read_tx, Lookup, ReadFault, Snapshot};

verus! {

// ---------------------------------------------------------------------------
// One transaction
// ---------------------------------------------------------------------------

/// The outputs of a stored transaction.
#[derive(Debug, Clone)]
pub struct DecodedUtxo {
    pub txid: String,
    pub outputs: Vec<DecodedOutput>,
}

/// One output of a stored transaction.
#[derive(Debug, Clone)]
pub struct DecodedOutput {
    pub index: usize,
    /// `spent` or `unspent`.
    pub state: String,
    pub amount: Option<u64>,
    pub receiver: Option<String>,
}

/// What a decoded output says.
pub struct OutputRow {
    pub index: int,
    pub state: Seq<char>,
    pub amount: Option<u64>,
    pub receiver: Option<Seq<char>>,
}

impl View for DecodedOutput {
    type V = OutputRow;

    open spec fn view(&self) -> OutputRow {
        OutputRow {
            index: self.index as int,
            state: self.state@,
            amount: self.amount,
            receiver: match self.receiver {
                Some(text) => Some(text@),
                None => None,
            },
        }
    }
}

/// What decoded outputs say.
pub open spec fn output_rows(outputs: Seq<DecodedOutput>) -> Seq<OutputRow> {
    Seq::new(outputs.len(), |i: int| outputs[i]@)
}

/// What is said of the slot at position `i`.
pub open spec fn slot_row(i: int, slot: Slot) -> OutputRow {
    match slot {
        Some((amount, key)) => OutputRow {
            index: i,
            state: "unspent"@,
            amount: Some(amount),
            receiver: Some(key_text(key)),
        },
        None => OutputRow { index: i, state: "spent"@, amount: None, receiver: None },
    }
}

/// What is said of slots.
pub open spec fn slot_rows(slots: Seq<Slot>) -> Seq<OutputRow> {
    Seq::new(slots.len(), |i: int| slot_row(i, slots[i]))
}

/// Why the outputs of a transaction cannot be shown.
#[derive(Debug)]
pub enum UtxoError {
    /// The text names no transaction.
    InvalidTxid,
    /// The store could not be read.
    Read(ReadFault),
    /// The store holds no such transaction.
    NotFound,
    /// What the store holds is no transaction.
    Undecodable(DecodeFault),
}

/// What is said of undecodable outputs.
pub open spec fn fault_text(fault: DecodeFault) -> Seq<char> {
    match fault {
        DecodeFault::TooManyOutputs => "more outputs are declared than there can be"@,
        DecodeFault::Malformed(text) => text@,
    }
}

impl UtxoError {
    /// The message of the error.
    pub open spec fn text(&self) -> Seq<char> {
        match self {
            UtxoError::InvalidTxid => "invalid txid base36"@,
            UtxoError::Read(fault) => fault.text@,
            UtxoError::NotFound => "txid not found in db"@,
            UtxoError::Undecodable(fault) => "bincode decode failed: "@ + fault_text(*fault),
        }
    }

    /// The message of the error.
    pub fn message(&self) -> (r: String)
        ensures
            r@ == self.text(),
    {
        match self {
            UtxoError::InvalidTxid => "invalid txid base36".to_string(),
            UtxoError::Read(fault) => fault.text.clone(),
            UtxoError::NotFound => "txid not found in db".to_string(),
            UtxoError::Undecodable(fault) => {
                let mut s = "bincode decode failed: ".to_string();
                match fault {
                    DecodeFault::TooManyOutputs => s.append(
                        "more outputs are declared than there can be",
                    ),
                    DecodeFault::Malformed(text) => s.append(text.as_str()),
                }
                s
            },
        }
    }
}

/// The key under which the store holds the transaction that a text names: its own base-36 text.
pub fn utxo_key(txid_b36: &str) -> (r: Result<String, UtxoError>)
    ensures
        match r {
            Ok(key) => named_key(txid_b36@) is Some && key@ == key_text(named_key(txid_b36@)->0),
            Err(e) => named_key(txid_b36@) is None && e is InvalidTxid,
        },
{
    match TxId::new_from_base36(txid_b36) {
        Some(txid) => Ok(txid.dump_base36()),
        None => Err(UtxoError::InvalidTxid),
    }
}

/// What is shown of the transaction that a text names, once the store was asked for it.
pub open spec fn shows_utxo(
    txid_b36: Seq<char>,
    found: Lookup,
    r: Result<DecodedUtxo, UtxoError>,
) -> bool {
    match named_key(txid_b36) {
        None => r matches Err(UtxoError::InvalidTxid),
        Some(key) => match found {
            Lookup::Failed(fault) => r matches Err(UtxoError::Read(e)) && e.text@ == fault.text@,
            Lookup::Missing => r matches Err(UtxoError::NotFound),
            Lookup::Found(value) => match stored_slots(value@) {
                None => r matches Err(UtxoError::Undecodable(fault)) && (fault is TooManyOutputs
                    <==> !addressable(value@)),
                Some(slots) => r matches Ok(d) && d.txid@ == key_text(key) && output_rows(
                    d.outputs@,
                ) == slot_rows(slots),
            },
        },
    }
}

/// Shows the outputs of a transaction.
pub fn decoded_rows(outputs: &Vec<Option<TxOutput>>) -> (r: Vec<DecodedOutput>)
    ensures
        output_rows(r@) == slot_rows(slots_of(outputs@)),
{
    let mut rows: Vec<DecodedOutput> = Vec::new();
    let mut i: usize = 0;
    let ghost all = slot_rows(slots_of(outputs@));
    assert(output_rows(rows@) =~= all.take(0));
    while i < outputs.len()
        invariant
            i <= outputs.len(),
            all == slot_rows(slots_of(outputs@)),
            output_rows(rows@) == all.take(i as int),
        decreases outputs.len() - i,
    {
        let ghost before = output_rows(rows@);
        let row = match &outputs[i] {
            Some(out) => DecodedOutput {
                index: i,
                state: "unspent".to_string(),
                amount: Some(out.amount),
                receiver: Some(out.receiver.dump_base36()),
            },
            None => DecodedOutput {
                index: i,
                state: "spent".to_string(),
                amount: None,
                receiver: None,
            },
        };
        let ghost said = row@;
        rows.push(row);
        proof {
            assert(slots_of(outputs@)[i as int] == slot_of(outputs@[i as int]));
            assert(said == all[i as int]);
            assert(output_rows(rows@) =~= before.push(said));
            assert(all.take(i + 1) =~= all.take(i as int).push(all[i as int]));
        }
        i += 1;
    }
    assert(all.take(i as int) =~= all);
    rows
}

/// Shows the transaction that a text names, where `found` is what the store holds under the key
/// that [`utxo_key`] gives.
pub fn decode_utxo_entry(txid_b36: &str, found: &Lookup) -> (r: Result<DecodedUtxo, UtxoError>)
    ensures
        shows_utxo(txid_b36@, *found, r),
{
    let txid = utxo_key(txid_b36)?;
    match found {
        Lookup::Failed(fault) => Err(UtxoError::Read(ReadFault { text: fault.text.clone() })),
        Lookup::Missing => Err(UtxoError::NotFound),
        Lookup::Found(value) => match decode_outputs(value.as_slice()) {
            Ok(outputs) => Ok(DecodedUtxo { txid, outputs: decoded_rows(&outputs) }),
            Err(fault) => Err(UtxoError::Undecodable(fault)),
        },
    }
}

// ---------------------------------------------------------------------------
// The transactions of an address
// ---------------------------------------------------------------------------

/// The ids of the transactions that hold an unspent output of `key`, in scan order.
pub open spec fn paying_txids(txs: Seq<Tx>, key: Seq<u8>) -> Seq<Seq<char>>
    decreases txs.len(),
{
    if txs.len() == 0 {
        seq![]
    } else {
        let before = paying_txids(txs.drop_last(), key);
        if involves(txs.last(), key) {
            before.push(txs.last().txid)
        } else {
            before
        }
    }
}

/// Whether a list has reached its limit. The limit is looked at behind every item, so that one
/// item is listed even where it is zero.
pub open spec fn reached(count: nat, limit: Option<usize>) -> bool {
    match limit {
        Some(n) => count >= 1 && count >= n,
        None => false,
    }
}

/// How many items of a list of `count` there is room for.
pub open spec fn room(count: nat, limit: Option<usize>) -> nat {
    match limit {
        Some(n) => if count <= n {
            count
        } else if n == 0 {
            1
        } else {
            n as nat
        },
        None => count,
    }
}

/// A list of transaction ids, and the fault that cut it short, if one did.
#[derive(Debug)]
pub struct TxidList {
    pub txids: Vec<String>,
    pub fault: Option<ReadFault>,
}

/// Whether one of the outputs goes to the address.
pub fn pays_address(outputs: &Vec<Option<TxOutput>>, address: &Address) -> (r: bool)
    ensures
        r == (outputs_to(slots_of(outputs@), address@) > 0),
{
    let ghost slots = slots_of(outputs@);
    let mut i: usize = 0;
    assert(slots.take(0) =~= seq![]);
    while i < outputs.len()
        invariant
            i <= outputs.len(),
            slots == slots_of(outputs@),
            outputs_to(slots.take(i as int), address@) == 0,
        decreases outputs.len() - i,
    {
        proof {
            assert(slots.take(i + 1).drop_last() =~= slots.take(i as int));
            assert(slots.take(i + 1).last() == slot_of(outputs@[i as int]));
        }
        if let Some(out) = &outputs[i] {
            if out.receiver.same(address) {
                proof {
                    assert(slots =~= slots.take(i + 1) + slots.skip(i + 1));
                    counts_add_up(slots.take(i + 1), slots.skip(i + 1), address@);
                }
                return true;
            }
        }
        i += 1;
    }
    assert(slots.take(i as int) =~= slots);
    false
}

/// What listing the transactions of an address gives: as many as there is room for, and the fault
/// where the reading ran into it before the limit was reached.
pub open spec fn lists_txids(db: Snapshot, key: Seq<u8>, limit: Option<usize>, r: TxidList) -> bool {
    let all = paying_txids(valid_txs(db@.entries), key);
    &&& texts(r.txids@) == all.take(room(all.len(), limit) as int)
    &&& match r.fault {
        Some(e) => !reached(all.len(), limit) && db@.fault == Some(e.text@),
        None => reached(all.len(), limit) || db@.fault is None,
    }
}

proof fn lemma_paying_grow(db: Snapshot, key: Seq<u8>, i: int)
    requires
        0 <= i <= db@.entries.len(),
    ensures
        paying_txids(valid_txs(db@.entries.take(i)), key).is_prefix_of(
            paying_txids(valid_txs(db@.entries), key),
        ),
    decreases db@.entries.len() - i,
{
    let entries = db@.entries;
    if i < entries.len() {
        lemma_paying_grow(db, key, i + 1);
        lemma_scan_step(entries, i);
        let txs = valid_txs(entries.take(i));
        if let Some(tx) = entry_tx(entries[i]) {
            assert(txs.push(tx).drop_last() =~= txs);
        }
    } else {
        assert(entries.take(i) =~= entries);
    }
}

/// Lists the transactions that hold an unspent output of an address.
pub fn list_txids(db: &Snapshot, address: &Address, limit: Option<usize>) -> (r: TxidList)
    ensures
        lists_txids(*db, address@, limit, r),
{
    let mut txids: Vec<String> = Vec::new();
    let mut i: usize = 0;
    let ghost all = paying_txids(valid_txs(db@.entries), address@);
    assert(db@.entries.take(0) =~= seq![]);
    assert(texts(txids@) =~= seq![]);
    while i < db.entries.len()
        invariant
            i <= db.entries.len(),
            all == paying_txids(valid_txs(db@.entries), address@),
            texts(txids@) == paying_txids(valid_txs(db@.entries.take(i as int)), address@),
            !reached(txids@.len(), limit),
        decreases db.entries.len() - i,
    {
        proof {
            lemma_scan_step(db@.entries, i as int);
            lemma_paying_grow(*db, address@, i + 1);
        }
        if let Some(tx) = read_tx(&db.entries[i]) {
            let ghost txs = valid_txs(db@.entries.take(i as int));
            assert(txs.push(tx@).drop_last() =~= txs);
            if pays_address(&tx.outputs, address) {
                let ghost before = texts(txids@);
                let ghost text = tx.txid@;
                txids.push(tx.txid);
                assert(texts(txids@) =~= before.push(text));
                if let Some(n) = limit {
                    if txids.len() >= n {
                        assert(texts(txids@) =~= all.take(txids@.len() as int));
                        return TxidList { txids, fault: None };
                    }
                }
            }
        }
        i += 1;
    }
    proof {
        assert(db@.entries.take(i as int) =~= db@.entries);
        assert(all.take(all.len() as int) =~= all);
    }
    match db.full_read() {
        Ok(()) => TxidList { txids, fault: None },
        Err(e) => TxidList { txids, fault: Some(e) },
    }
}

/// The transactions that hold an unspent output of an address, as many as there is room for.
pub fn utxos_for(db: &Snapshot, address: &Address, limit: Option<usize>) -> (r: Result<
    Vec<String>,
    ReadFault,
>)
    ensures
        ({
            let all = paying_txids(valid_txs(db@.entries), address@);
            match r {
                Ok(txids) => {
                    &&& texts(txids@) == all.take(room(all.len(), limit) as int)
                    &&& reached(all.len(), limit) || db@.fault is None
                },
                Err(e) => !reached(all.len(), limit) && db@.fault == Some(e.text@),
            }
        }),
{
    let list = list_txids(db, address, limit);
    match list.fault {
        Some(e) => Err(e),
        None => Ok(list.txids),
    }
}

} // verus!
