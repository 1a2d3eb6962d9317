//! What reading the store yields, and the transactions in it.

use vstd::prelude::*;
use vstd::string::*;

use crate::codec::text_from_utf8;
use crate::keys::TxId;
use crate::model::{
    entry_tx, entry_txid, every_slot, named_txs, valid_txs, value_bytes, StoredEntry, Tx,
};
use crate::outputs::{decode_outputs, slots_of, stored_slots, TxOutput};

verus! {

/// The name under which the default tree goes.
pub const DEFAULT_TREE: &'static str = "__sled__default";

/// A key and its value.
#[derive(Debug)]
pub struct Entry {
    pub key: Vec<u8>,
    pub value: Vec<u8>,
}

impl View for Entry {
    type V = StoredEntry;

    open spec fn view(&self) -> StoredEntry {
        StoredEntry { key: self.key@, value: self.value@ }
    }
}

/// What iterating over a tree yielded: its entries in key order, up to the end or to the first
/// entry that could not be read.
#[derive(Debug)]
pub struct Snapshot {
    pub entries: Vec<Entry>,
    /// How many entries the store reports.
    pub len: u64,
    /// Why the entry behind the last one could not be read, where that was so.
    pub fault: Option<String>,
}

/// What iterating over a tree yielded.
pub struct Reading {
    pub entries: Seq<StoredEntry>,
    pub len: u64,
    pub fault: Option<Seq<char>>,
}

/// The entries behind a vector of them.
pub open spec fn stored(entries: Seq<Entry>) -> Seq<StoredEntry> {
    Seq::new(entries.len(), |i: int| entries[i]@)
}

impl View for Snapshot {
    type V = Reading;

    open spec fn view(&self) -> Reading {
        Reading {
            entries: stored(self.entries@),
            len: self.len,
            fault: match self.fault {
                Some(text) => Some(text@),
                None => None,
            },
        }
    }
}

impl Reading {
    /// Whether memory can hold counts of everything that the values could hold.
    pub open spec fn countable(self) -> bool {
        value_bytes(self.entries) <= u64::MAX
    }

    /// Whether reading the first `n` entries runs into the fault.
    pub open spec fn fails_within(self, n: int) -> bool {
        self.fault is Some && n > self.entries.len()
    }

    /// The first `n` entries, or all where there are fewer.
    pub open spec fn first(self, n: int) -> Seq<StoredEntry> {
        if n < self.entries.len() {
            self.entries.take(n)
        } else {
            self.entries
        }
    }
}

/// An entry could not be read.
#[derive(Debug)]
pub struct ReadFault {
    pub text: String,
}

/// What has to be read from the store.
#[derive(Debug)]
pub enum DbRequest {
    /// The entries of a tree whose keys begin with a prefix, no more than so many.
    Entries { tree: String, prefix: Vec<u8>, at_most: Option<usize> },
    /// What a tree holds under a key.
    Value { tree: String, key: Vec<u8> },
}

/// What has to be read from the store.
pub enum RequestView {
    Entries { tree: Seq<char>, prefix: Seq<u8>, at_most: Option<usize> },
    Value { tree: Seq<char>, key: Seq<u8> },
}

impl View for DbRequest {
    type V = RequestView;

    open spec fn view(&self) -> RequestView {
        match self {
            DbRequest::Entries { tree, prefix, at_most } => RequestView::Entries {
                tree: tree@,
                prefix: prefix@,
                at_most: *at_most,
            },
            DbRequest::Value { tree, key } => RequestView::Value { tree: tree@, key: key@ },
        }
    }
}

/// A reading of the default tree: the first entries, as many as are needed, or all.
pub open spec fn default_entries(at_most: Option<usize>) -> RequestView {
    RequestView::Entries { tree: DEFAULT_TREE@, prefix: seq![], at_most }
}

/// A reading of the default tree.
pub fn read_default(at_most: Option<usize>) -> (r: DbRequest)
    ensures
        r@ == default_entries(at_most),
{
    let prefix: Vec<u8> = Vec::new();
    assert(prefix@ =~= seq![]);
    DbRequest::Entries { tree: DEFAULT_TREE.to_string(), prefix, at_most }
}

/// What the store holds under a key.
#[derive(Debug)]
pub enum Lookup {
    Found(Vec<u8>),
    Missing,
    /// The store could not be read.
    Failed(ReadFault),
}

impl Snapshot {
    /// The fault that ends a reading of the whole tree, if there is one.
    pub fn full_read(&self) -> (r: Result<(), ReadFault>)
        ensures
            match r {
                Ok(()) => self@.fault is None,
                Err(e) => self@.fault == Some(e.text@),
            },
    {
        match &self.fault {
            Some(text) => Err(ReadFault { text: text.clone() }),
            None => Ok(()),
        }
    }

    /// The fault that ends a reading of the first `n` entries, if there is one.
    pub fn read_first(&self, n: usize) -> (r: Result<usize, ReadFault>)
        ensures
            match r {
                Ok(count) => !self@.fails_within(n as int) && count == self@.first(n as int).len()
                    && count <= self.entries.len(),
                Err(e) => self@.fails_within(n as int) && self@.fault == Some(e.text@),
            },
    {
        if n <= self.entries.len() {
            return Ok(n);
        }
        match &self.fault {
            Some(text) => Err(ReadFault { text: text.clone() }),
            None => Ok(self.entries.len()),
        }
    }

    /// Whether memory can hold counts of everything that the values could hold.
    pub fn is_countable(&self) -> (r: bool)
        ensures
            r == self@.countable(),
    {
        let mut sum: u64 = 0;
        let mut i: usize = 0;
        assert(self@.entries.take(0) =~= seq![]);
        while i < self.entries.len()
            invariant
                i <= self.entries.len(),
                sum == value_bytes(self@.entries.take(i as int)),
            decreases self.entries.len() - i,
        {
            proof {
                lemma_scan_step(self@.entries, i as int);
            }
            let size: u64 = self.entries[i].value.len() as u64;
            if size > u64::MAX - sum {
                return false;
            }
            sum = sum + size;
            i += 1;
        }
        assert(self@.entries.take(i as int) =~= self@.entries);
        true
    }
}

// ---------------------------------------------------------------------------
// Reading step by step
// ---------------------------------------------------------------------------

proof fn lemma_bytes_grow(entries: Seq<StoredEntry>, i: int)
    requires
        0 <= i <= entries.len(),
    ensures
        value_bytes(entries.take(i)) <= value_bytes(entries),
    decreases entries.len() - i,
{
    if i < entries.len() {
        lemma_bytes_grow(entries, i + 1);
        assert(entries.take(i + 1).drop_last() =~= entries.take(i));
    } else {
        assert(entries.take(i) =~= entries);
    }
}

/// What one more entry adds to a scan.
pub proof fn lemma_scan_step(entries: Seq<StoredEntry>, i: int)
    requires
        0 <= i < entries.len(),
    ensures
        valid_txs(entries.take(i + 1)) == (match entry_tx(entries[i]) {
            Some(tx) => valid_txs(entries.take(i)).push(tx),
            None => valid_txs(entries.take(i)),
        }),
        named_txs(entries.take(i + 1)) == (match entry_txid(entries[i]) {
            Some(txid) => match stored_slots(entries[i].value) {
                Some(slots) => named_txs(entries.take(i)).push(Tx { txid, slots }),
                None => named_txs(entries.take(i)).push(Tx { txid, slots: seq![] }),
            },
            None => named_txs(entries.take(i)),
        }),
        every_slot(entries.take(i + 1)) == (match stored_slots(entries[i].value) {
            Some(slots) => every_slot(entries.take(i)) + slots,
            None => every_slot(entries.take(i)),
        }),
        value_bytes(entries.take(i + 1)) == value_bytes(entries.take(i)) + entries[i].value.len(),
        value_bytes(entries.take(i + 1)) <= value_bytes(entries),
{
    assert(entries.take(i + 1).drop_last() =~= entries.take(i));
    assert(entries.take(i + 1).last() == entries[i]);
    lemma_bytes_grow(entries, i + 1);
}

// ---------------------------------------------------------------------------
// Transactions
// ---------------------------------------------------------------------------

/// A transaction of the store: its id as text and its outputs.
#[derive(Debug)]
pub struct TxEntry {
    pub txid: String,
    pub outputs: Vec<Option<TxOutput>>,
}

impl View for TxEntry {
    type V = Tx;

    open spec fn view(&self) -> Tx {
        Tx { txid: self.txid@, slots: slots_of(self.outputs@) }
    }
}

/// The transactions behind a vector of them.
pub open spec fn txs_of(txs: Seq<TxEntry>) -> Seq<Tx> {
    Seq::new(txs.len(), |i: int| txs[i]@)
}

/// The transaction id that the key of an entry names, as text.
pub fn read_txid(entry: &Entry) -> (r: Option<String>)
    ensures
        match r {
            Some(txid) => entry_txid(entry@) == Some(txid@),
            None => entry_txid(entry@) is None,
        },
{
    match text_from_utf8(entry.key.as_slice()) {
        Some(text) => match TxId::new_from_base36(text.as_str()) {
            Some(_) => Some(text),
            None => None,
        },
        None => None,
    }
}

/// The transaction that an entry holds, if its key names one and its value decodes.
pub fn read_tx(entry: &Entry) -> (r: Option<TxEntry>)
    ensures
        match r {
            Some(tx) => entry_tx(entry@) == Some(tx@) && tx.outputs.len() <= entry.value.len(),
            None => entry_tx(entry@) is None,
        },
{
    match read_txid(entry) {
        Some(txid) => match decode_outputs(entry.value.as_slice()) {
            Ok(outputs) => Some(TxEntry { txid, outputs }),
            Err(_) => None,
        },
        None => None,
    }
}

/// The transactions of the store, in key order; entries that hold none are passed over.
pub fn collect_valid_tx_entries(db: &Snapshot) -> (r: Result<Vec<TxEntry>, ReadFault>)
    ensures
        match r {
            Ok(txs) => db@.fault is None && txs_of(txs@) == valid_txs(db@.entries),
            Err(e) => db@.fault == Some(e.text@),
        },
{
    db.full_read()?;
    let mut out: Vec<TxEntry> = Vec::new();
    let mut i: usize = 0;
    assert(db@.entries.take(0) =~= seq![]);
    assert(txs_of(out@) =~= seq![]);
    while i < db.entries.len()
        invariant
            i <= db.entries.len(),
            txs_of(out@) == valid_txs(db@.entries.take(i as int)),
        decreases db.entries.len() - i,
    {
        proof {
            lemma_scan_step(db@.entries, i as int);
        }
        if let Some(tx) = read_tx(&db.entries[i]) {
            let ghost before = txs_of(out@);
            let ghost last = tx@;
            out.push(tx);
            assert(txs_of(out@) =~= before.push(last));
        }
        i += 1;
    }
    assert(db@.entries.take(i as int) =~= db@.entries);
    Ok(out)
}

} // verus!
