//! Looking at the keys of the default tree: a histogram of their buckets, and samples.

use vstd::prelude::*;
use vstd::string::*;

use crate::buckets::{bucket_key, cuttable, is_cuttable, sorting};
use crate::codec::{hex_text, text_in_hex};
use crate::index::NameIndex;
use crate::model::StoredEntry;
use crate::rank::{places, rank_descending, ranking, ranks};
use crate::store::{Entry, ReadFault, Snapshot, DEFAULT_TREE};

verus! {

// ---------------------------------------------------------------------------
// Histograms
// ---------------------------------------------------------------------------

/// The labels, each once, in the order in which they first appear.
pub open spec fn distinct(labels: Seq<Seq<char>>) -> Seq<Seq<char>>
    decreases labels.len(),
{
    if labels.len() == 0 {
        seq![]
    } else {
        let before = distinct(labels.drop_last());
        if before.contains(labels.last()) {
            before
        } else {
            before.push(labels.last())
        }
    }
}

/// How often a label appears.
pub open spec fn occurrences(labels: Seq<Seq<char>>, label: Seq<char>) -> nat
    decreases labels.len(),
{
    if labels.len() == 0 {
        0
    } else {
        occurrences(labels.drop_last(), label) + if labels.last() == label {
            1nat
        } else {
            0nat
        }
    }
}

/// How often each of the distinct labels appears.
pub open spec fn histogram(labels: Seq<Seq<char>>) -> Seq<u64> {
    Seq::new(distinct(labels).len(), |i: int| occurrences(labels, distinct(labels)[i]) as u64)
}

/// The distinct labels are those that appear.
pub proof fn distinct_labels_appear(labels: Seq<Seq<char>>)
    ensures
        distinct(labels).no_duplicates(),
        forall|label: Seq<char>| #[trigger]
            distinct(labels).contains(label) <==> occurrences(labels, label) > 0,
        forall|label: Seq<char>| #[trigger] occurrences(labels, label) <= labels.len(),
        distinct(labels).len() <= labels.len(),
    decreases labels.len(),
{
    if labels.len() > 0 {
        let rest = labels.drop_last();
        let before = distinct(rest);
        let last = labels.last();
        distinct_labels_appear(rest);
        assert forall|label: Seq<char>| #[trigger]
            distinct(labels).contains(label) <==> occurrences(labels, label) > 0 by {
            assert(before.contains(label) <==> occurrences(rest, label) > 0);
            if !before.contains(last) {
                if before.contains(label) {
                    let i = choose|i: int| 0 <= i < before.len() && before[i] == label;
                    assert(distinct(labels)[i] == label);
                }
                if label == last {
                    assert(distinct(labels)[before.len() as int] == label);
                }
                if distinct(labels).contains(label) && label != last {
                    let i = choose|i: int|
                        0 <= i < distinct(labels).len() && distinct(labels)[i] == label;
                    assert(before[i] == label);
                }
            }
        }
        assert forall|label: Seq<char>| #[trigger]
            occurrences(labels, label) <= labels.len() by {
            assert(occurrences(rest, label) <= rest.len());
        }
    }
}

/// A bucket and how many keys are in it.
#[derive(Debug, Clone)]
pub struct PrefixRow {
    pub bucket: String,
    pub count: u64,
}

impl View for PrefixRow {
    type V = (Seq<char>, u64);

    open spec fn view(&self) -> (Seq<char>, u64) {
        (self.bucket@, self.count)
    }
}

/// What rows say.
pub open spec fn prefix_rows(rows: Seq<PrefixRow>) -> Seq<(Seq<char>, u64)> {
    Seq::new(rows.len(), |i: int| rows[i]@)
}

/// The first `top` labels by how often they appear, the one that appeared earlier first among
/// equals.
pub open spec fn top_labels(labels: Seq<Seq<char>>, top: nat) -> Seq<(Seq<char>, u64)> {
    let counts = histogram(labels);
    let order = ranking(counts);
    Seq::new(
        if top < counts.len() {
            top
        } else {
            counts.len()
        },
        |i: int| (distinct(labels)[order[i]], counts[order[i]]),
    )
}

/// A running histogram.
struct Histogram {
    index: NameIndex,
    counts: Vec<u64>,
}

impl Histogram {
    spec fn of(&self, labels: Seq<Seq<char>>) -> bool {
        &&& self.index.well_formed()
        &&& self.index@ == distinct(labels)
        &&& self.counts@ == histogram(labels)
    }

    fn new() -> (r: Histogram)
        ensures
            r.of(seq![]),
    {
        let r = Histogram { index: NameIndex::new(), counts: Vec::new() };
        assert(r.index@ =~= distinct(seq![]));
        assert(r.counts@ =~= histogram(seq![]));
        r
    }

    /// Counts one more label.
    fn count(&mut self, label: &str, Ghost(labels): Ghost<Seq<Seq<char>>>)
        requires
            old(self).of(labels),
            labels.len() < u64::MAX,
        ensures
            final(self).of(labels.push(label@)),
    {
        let ghost more = labels.push(label@);
        proof {
            assert(more.drop_last() =~= labels);
            distinct_labels_appear(labels);
            distinct_labels_appear(more);
        }
        let place = self.index.place_of(label);
        if place == self.counts.len() {
            self.counts.push(0);
        }
        assert(distinct(more)[place as int] == label@);
        assert(self.counts@[place as int] == occurrences(labels, label@));
        let count: u64 = self.counts[place] + 1;
        self.counts.set(place, count);
        proof {
            assert forall|i: int| 0 <= i < distinct(more).len() implies self.counts@[i]
                == #[trigger] histogram(more)[i] by {
                if i != place {
                    assert(distinct(more)[i] != label@);
                    assert(distinct(more)[i] == distinct(labels)[i]);
                    assert(histogram(labels)[i] == occurrences(labels, distinct(labels)[i]));
                }
            }
            assert(self.counts@ =~= histogram(more));
        }
    }

    /// The first `top` labels by how often they appear.
    fn top(&self, top: usize, Ghost(labels): Ghost<Seq<Seq<char>>>) -> (rows: Vec<PrefixRow>)
        requires
            self.of(labels),
        ensures
            prefix_rows(rows@) == top_labels(labels, top as nat),
    {
        let order = rank_descending(&self.counts);
        let mut rows: Vec<PrefixRow> = Vec::new();
        let mut p: usize = 0;
        assert(prefix_rows(rows@) =~= top_labels(labels, top as nat).take(0));
        while p < order.len() && p < top
            invariant
                p <= order.len(),
                p <= top,
                self.of(labels),
                places(order@) == ranking(self.counts@),
                ranks(self.counts@, ranking(self.counts@), 0, self.counts.len() as int),
                prefix_rows(rows@) == top_labels(labels, top as nat).take(p as int),
            decreases order.len() - p,
        {
            assert(places(order@)[p as int] == order@[p as int]);
            let place: usize = order[p];
            let ghost before = prefix_rows(rows@);
            rows.push(PrefixRow { bucket: self.index.name_at(place), count: self.counts[place] });
            proof {
                let all = top_labels(labels, top as nat);
                assert(prefix_rows(rows@) =~= before.push(all[p as int]));
                assert(all.take(p + 1) =~= all.take(p as int).push(all[p as int]));
            }
            p += 1;
        }
        assert(top_labels(labels, top as nat).take(p as int) =~= top_labels(labels, top as nat));
        rows
    }
}

// ---------------------------------------------------------------------------
// The default tree
// ---------------------------------------------------------------------------

/// The buckets of the keys.
pub open spec fn bucket_labels(entries: Seq<StoredEntry>) -> Seq<Seq<char>> {
    Seq::new(entries.len(), |i: int| sorting(entries[i].key).bucket)
}

/// How many keys look like transaction ids.
pub open spec fn txid_like(entries: Seq<StoredEntry>) -> nat
    decreases entries.len(),
{
    if entries.len() == 0 {
        0
    } else {
        txid_like(entries.drop_last()) + if sorting(entries.last().key).looks_like_txid {
            1nat
        } else {
            0nat
        }
    }
}

/// How many keys are no text, or text with control characters.
pub open spec fn unreadable(entries: Seq<StoredEntry>) -> nat
    decreases entries.len(),
{
    if entries.len() == 0 {
        0
    } else {
        unreadable(entries.drop_last()) + if sorting(entries.last().key).non_utf8 {
            1nat
        } else {
            0nat
        }
    }
}

/// Whether the names of all buckets end or are cut between two characters.
pub open spec fn all_cuttable(entries: Seq<StoredEntry>) -> bool {
    forall|i: int| 0 <= i < entries.len() ==> cuttable((#[trigger] entries[i]).key)
}

/// Whether the names of the buckets of the first `n` keys end or are cut between two characters.
pub fn first_are_cuttable(db: &Snapshot, n: usize) -> (r: bool)
    ensures
        r == all_cuttable(db@.first(n as int)),
{
    let ghost seen = db@.first(n as int);
    let mut i: usize = 0;
    while i < db.entries.len() && i < n
        invariant
            i <= db.entries.len(),
            i <= n,
            seen == db@.first(n as int),
            forall|j: int| 0 <= j < i ==> cuttable((#[trigger] seen[j]).key),
        decreases db.entries.len() - i,
    {
        assert(seen[i as int] == db@.entries[i as int]);
        if !is_cuttable(db.entries[i].key.as_slice()) {
            return false;
        }
        i += 1;
    }
    true
}

/// Whether the four are the histogram of the sampled entries: how many there are, the first `top`
/// buckets, and how many keys look like transaction ids and how many are no text.
pub open spec fn is_prefix_stats(
    seen: Seq<StoredEntry>,
    top: nat,
    sampled: usize,
    rows: Seq<PrefixRow>,
    looks_like_txid_keys: u64,
    non_utf8_keys: u64,
) -> bool {
    &&& sampled == seen.len()
    &&& prefix_rows(rows) == top_labels(bucket_labels(seen), top)
    &&& looks_like_txid_keys == txid_like(seen)
    &&& non_utf8_keys == unreadable(seen)
}

/// The histogram of the buckets of the first `sample` keys: how many there were, the first `top`
/// buckets, and how many keys look like transaction ids and how many are no text.
pub fn default_prefix_stats(db: &Snapshot, sample: usize, top: usize) -> (r: Result<
    (usize, Vec<PrefixRow>, u64, u64),
    ReadFault,
>)
    requires
        all_cuttable(db@.first(sample as int)),
    ensures
        match r {
            Ok((sampled, rows, txids, others)) => !db@.fails_within(sample as int)
                && is_prefix_stats(
                db@.first(sample as int),
                top as nat,
                sampled,
                rows@,
                txids,
                others,
            ),
            Err(e) => db@.fails_within(sample as int) && db@.fault == Some(e.text@),
        },
{
    let sampled: usize = db.read_first(sample)?;
    let mut histogram = Histogram::new();
    let mut txids: u64 = 0;
    let mut others: u64 = 0;
    let mut i: usize = 0;
    let ghost seen = db@.first(sample as int);
    proof {
        assert(seen.take(0) =~= seq![]);
        assert(bucket_labels(seen.take(0)) =~= seq![]);
    }
    while i < sampled
        invariant
            i <= sampled,
            sampled <= db.entries.len(),
            seen == db@.first(sample as int),
            sampled == seen.len(),
            all_cuttable(seen),
            histogram.of(bucket_labels(seen.take(i as int))),
            txids == txid_like(seen.take(i as int)),
            txids <= i,
            others == unreadable(seen.take(i as int)),
            others <= i,
        decreases sampled - i,
    {
        let ghost labels = bucket_labels(seen.take(i as int));
        assert(seen[i as int] == db@.entries[i as int]);
        let found = bucket_key(db.entries[i].key.as_slice());
        histogram.count(found.bucket.as_str(), Ghost(labels));
        proof {
            assert(seen.take(i + 1).drop_last() =~= seen.take(i as int));
            assert(bucket_labels(seen.take(i + 1)) =~= labels.push(found.bucket@));
        }
        if found.looks_like_txid {
            txids = txids + 1;
        }
        if found.non_utf8 {
            others = others + 1;
        }
        i += 1;
    }
    assert(seen.take(i as int) =~= seen);
    let rows = histogram.top(top, Ghost(bucket_labels(seen)));
    Ok((sampled, rows, txids, others))
}

/// What is said of an entry.
pub struct KeyRow {
    pub key_utf8: Option<Seq<char>>,
    pub key_hex: Seq<char>,
    pub value_len: int,
    pub bucket: Seq<char>,
    pub looks_like_txid: bool,
}

/// What is said of an entry.
pub open spec fn key_row(entry: StoredEntry) -> KeyRow {
    KeyRow {
        key_utf8: sorting(entry.key).text,
        key_hex: hex_text(entry.key),
        value_len: entry.value.len() as int,
        bucket: sorting(entry.key).bucket,
        looks_like_txid: sorting(entry.key).looks_like_txid,
    }
}

/// What is said of entries.
pub open spec fn key_rows(entries: Seq<StoredEntry>) -> Seq<KeyRow> {
    Seq::new(entries.len(), |i: int| key_row(entries[i]))
}

/// A sample entry.
#[derive(Debug, Clone)]
pub struct KeyExample {
    pub key_utf8: Option<String>,
    pub key_hex: String,
    pub value_len: usize,
    pub bucket: String,
    pub looks_like_txid: bool,
}

impl View for KeyExample {
    type V = KeyRow;

    open spec fn view(&self) -> KeyRow {
        KeyRow {
            key_utf8: match self.key_utf8 {
                Some(text) => Some(text@),
                None => None,
            },
            key_hex: self.key_hex@,
            value_len: self.value_len as int,
            bucket: self.bucket@,
            looks_like_txid: self.looks_like_txid,
        }
    }
}

/// What samples say.
pub open spec fn example_rows(rows: Seq<KeyExample>) -> Seq<KeyRow> {
    Seq::new(rows.len(), |i: int| rows[i]@)
}

/// An entry in a preview.
#[derive(Debug, Clone)]
pub struct PreviewKeyRow {
    pub key_utf8: Option<String>,
    pub key_hex: String,
    pub value_len: usize,
    pub bucket: String,
    pub looks_like_txid: bool,
}

impl View for PreviewKeyRow {
    type V = KeyRow;

    open spec fn view(&self) -> KeyRow {
        KeyRow {
            key_utf8: match self.key_utf8 {
                Some(text) => Some(text@),
                None => None,
            },
            key_hex: self.key_hex@,
            value_len: self.value_len as int,
            bucket: self.bucket@,
            looks_like_txid: self.looks_like_txid,
        }
    }
}

/// What previews say.
pub open spec fn preview_rows(rows: Seq<PreviewKeyRow>) -> Seq<KeyRow> {
    Seq::new(rows.len(), |i: int| rows[i]@)
}

/// Shows an entry.
fn example(entry: &Entry) -> (r: KeyExample)
    requires
        cuttable(entry.key@),
    ensures
        r@ == key_row(entry@),
{
    let found = bucket_key(entry.key.as_slice());
    KeyExample {
        key_utf8: found.text,
        key_hex: text_in_hex(entry.key.as_slice()),
        value_len: entry.value.len(),
        bucket: found.bucket,
        looks_like_txid: found.looks_like_txid,
    }
}

/// Shows an entry in a preview.
pub(crate) fn preview(entry: &Entry) -> (r: PreviewKeyRow)
    requires
        cuttable(entry.key@),
    ensures
        r@ == key_row(entry@),
{
    let found = bucket_key(entry.key.as_slice());
    PreviewKeyRow {
        key_utf8: found.text,
        key_hex: text_in_hex(entry.key.as_slice()),
        value_len: entry.value.len(),
        bucket: found.bucket,
        looks_like_txid: found.looks_like_txid,
    }
}

/// The histogram of the default tree, with sample entries.
#[derive(Debug, Clone)]
pub struct DefaultTreeInspect {
    pub tree: String,
    pub len: u64,
    pub sample: usize,
    pub sampled: usize,
    pub looks_like_txid_keys: u64,
    pub non_utf8_keys: u64,
    pub top_prefixes: Vec<PrefixRow>,
    pub examples: Vec<KeyExample>,
}

/// The histogram of the default tree.
#[derive(Debug, Clone)]
pub struct PrefixStatsOut {
    pub tree: String,
    pub len: u64,
    pub sample: usize,
    pub sampled: usize,
    pub looks_like_txid_keys: u64,
    pub non_utf8_keys: u64,
    pub top_prefixes: Vec<PrefixRow>,
}

/// The first entries of the default tree.
#[derive(Debug, Clone)]
pub struct PreviewKeysOut {
    pub tree: String,
    pub len: u64,
    pub limit: usize,
    pub keys: Vec<PreviewKeyRow>,
}

/// Whether `out` is the histogram of the first `sample` keys with the first `examples` entries.
pub open spec fn is_inspection(
    db: Snapshot,
    sample: usize,
    top: usize,
    examples: usize,
    out: DefaultTreeInspect,
) -> bool {
    &&& out.tree@ == DEFAULT_TREE@
    &&& out.len == db@.len
    &&& out.sample == sample
    &&& is_prefix_stats(
        db@.first(sample as int),
        top as nat,
        out.sampled,
        out.top_prefixes@,
        out.looks_like_txid_keys,
        out.non_utf8_keys,
    )
    &&& example_rows(out.examples@) == key_rows(db@.first(examples as int))
}

/// Looks at the default tree.
pub fn inspect_default_tree(db: &Snapshot, sample: usize, top: usize, examples: usize) -> (r: Result<
    DefaultTreeInspect,
    ReadFault,
>)
    requires
        all_cuttable(db@.first(sample as int)),
        all_cuttable(db@.first(examples as int)),
    ensures
        match r {
            Ok(out) => !db@.fails_within(sample as int) && !db@.fails_within(examples as int)
                && is_inspection(*db, sample, top, examples, out),
            Err(e) => (db@.fails_within(sample as int) || db@.fails_within(examples as int))
                && db@.fault == Some(e.text@),
        },
{
    let (sampled, top_prefixes, looks_like_txid_keys, non_utf8_keys) = default_prefix_stats(
        db,
        sample,
        top,
    )?;
    let shown: usize = db.read_first(examples)?;
    let mut rows: Vec<KeyExample> = Vec::new();
    let mut i: usize = 0;
    let ghost seen = db@.first(examples as int);
    assert(example_rows(rows@) =~= key_rows(seen).take(0));
    while i < shown
        invariant
            i <= shown,
            shown <= db.entries.len(),
            seen == db@.first(examples as int),
            shown == seen.len(),
            all_cuttable(seen),
            example_rows(rows@) == key_rows(seen).take(i as int),
        decreases shown - i,
    {
        assert(seen[i as int] == db@.entries[i as int]);
        let ghost before = example_rows(rows@);
        let row = example(&db.entries[i]);
        let ghost said = row@;
        rows.push(row);
        proof {
            assert(example_rows(rows@) =~= before.push(said));
            assert(key_rows(seen).take(i + 1) =~= key_rows(seen).take(i as int).push(
                key_rows(seen)[i as int],
            ));
        }
        i += 1;
    }
    assert(key_rows(seen).take(i as int) =~= key_rows(seen));
    Ok(
        DefaultTreeInspect {
            tree: DEFAULT_TREE.to_string(),
            len: db.len,
            sample,
            sampled,
            looks_like_txid_keys,
            non_utf8_keys,
            top_prefixes,
            examples: rows,
        },
    )
}

/// Looks at the default tree.
pub fn inspect_default(db: &Snapshot, sample: usize, top: usize, examples: usize) -> (r: Result<
    DefaultTreeInspect,
    ReadFault,
>)
    requires
        all_cuttable(db@.first(sample as int)),
        all_cuttable(db@.first(examples as int)),
    ensures
        match r {
            Ok(out) => !db@.fails_within(sample as int) && !db@.fails_within(examples as int)
                && is_inspection(*db, sample, top, examples, out),
            Err(e) => (db@.fails_within(sample as int) || db@.fails_within(examples as int))
                && db@.fault == Some(e.text@),
        },
{
    inspect_default_tree(db, sample, top, examples)
}

/// Whether `out` is the histogram of the first `sample` keys.
pub open spec fn is_histogram(db: Snapshot, sample: usize, top: usize, out: PrefixStatsOut) -> bool {
    &&& out.tree@ == DEFAULT_TREE@
    &&& out.len == db@.len
    &&& out.sample == sample
    &&& is_prefix_stats(
        db@.first(sample as int),
        top as nat,
        out.sampled,
        out.top_prefixes@,
        out.looks_like_txid_keys,
        out.non_utf8_keys,
    )
}

/// The histogram of the default tree.
pub fn prefix_stats(db: &Snapshot, sample: usize, top: usize) -> (r: Result<
    PrefixStatsOut,
    ReadFault,
>)
    requires
        all_cuttable(db@.first(sample as int)),
    ensures
        match r {
            Ok(out) => !db@.fails_within(sample as int) && is_histogram(*db, sample, top, out),
            Err(e) => db@.fails_within(sample as int) && db@.fault == Some(e.text@),
        },
{
    let (sampled, top_prefixes, looks_like_txid_keys, non_utf8_keys) = default_prefix_stats(
        db,
        sample,
        top,
    )?;
    Ok(
        PrefixStatsOut {
            tree: DEFAULT_TREE.to_string(),
            len: db.len,
            sample,
            sampled,
            looks_like_txid_keys,
            non_utf8_keys,
            top_prefixes,
        },
    )
}

/// Whether `out` is a preview of the first `limit` entries.
pub open spec fn is_preview(db: Snapshot, limit: usize, out: PreviewKeysOut) -> bool {
    &&& out.tree@ == DEFAULT_TREE@
    &&& out.len == db@.len
    &&& out.limit == limit
    &&& preview_rows(out.keys@) == key_rows(db@.first(limit as int))
}

/// Previews the first entries of the default tree.
pub fn preview_keys(db: &Snapshot, limit: usize) -> (r: Result<PreviewKeysOut, ReadFault>)
    requires
        all_cuttable(db@.first(limit as int)),
    ensures
        match r {
            Ok(out) => !db@.fails_within(limit as int) && is_preview(*db, limit, out),
            Err(e) => db@.fails_within(limit as int) && db@.fault == Some(e.text@),
        },
{
    let shown: usize = db.read_first(limit)?;
    let mut keys: Vec<PreviewKeyRow> = Vec::new();
    let mut i: usize = 0;
    let ghost seen = db@.first(limit as int);
    assert(preview_rows(keys@) =~= key_rows(seen).take(0));
    while i < shown
        invariant
            i <= shown,
            shown <= db.entries.len(),
            seen == db@.first(limit as int),
            shown == seen.len(),
            all_cuttable(seen),
            preview_rows(keys@) == key_rows(seen).take(i as int),
        decreases shown - i,
    {
        assert(seen[i as int] == db@.entries[i as int]);
        let ghost before = preview_rows(keys@);
        let row = preview(&db.entries[i]);
        let ghost said = row@;
        keys.push(row);
        proof {
            assert(preview_rows(keys@) =~= before.push(said));
            assert(key_rows(seen).take(i + 1) =~= key_rows(seen).take(i as int).push(
                key_rows(seen)[i as int],
            ));
        }
        i += 1;
    }
    assert(key_rows(seen).take(i as int) =~= key_rows(seen));
    Ok(PreviewKeysOut { tree: DEFAULT_TREE.to_string(), len: db.len, limit, keys })
}

} // verus!
