//! What is said of the keys of the default tree: their buckets, histograms and samples.

use vstd::prelude::*;
use vstd::utf8::{decode_utf8_encode_utf8, encode_utf8, encode_utf8_valid_utf8, valid_utf8_split};

use crate::buckets::{
    cut_name, cuttable, lemma_before_colon, readable, sorting, txid_keys_share_a_bucket,
};
use crate::codec::{hex_reading, hex_text, hex_text_reads_back, utf8_text, HexFault};
use crate::counting::{is_named, sum};
use crate::inspect::{
    bucket_labels, distinct, distinct_labels_appear, example_rows, histogram, is_histogram,
    is_inspection, is_prefix_stats, is_preview, key_row, key_rows, occurrences, prefix_rows,
    preview_rows, top_labels, txid_like, unreadable, DefaultTreeInspect, PrefixRow, PrefixStatsOut,
    PreviewKeysOut,
};
use crate::keys::{named_key, names_hold_no_other};
use crate::laws::{lemma_occurrence_step, occurrences_of_all, txid_like_keys_are_in_their_bucket};
use crate::model::StoredEntry;
use crate::rank::{ahead, ranking, ranking_ranks};
use crate::store::Snapshot;
use crate::text::{control, lacks, trimming_drops_white_space, white_space};

verus! {

// ---------------------------------------------------------------------------
// Buckets
// ---------------------------------------------------------------------------

/// Whether a text holds none of the control characters.
pub open spec fn is_plain(s: Seq<char>) -> bool {
    forall|i: int|
        0 <= i < s.len() ==> 0x20 <= #[trigger] s[i] as u32 && !(0x7f <= s[i] as u32 <= 0x9f)
}

/// Whether a text is white space, or nothing.
pub open spec fn is_white(s: Seq<char>) -> bool {
    forall|i: int| 0 <= i < s.len() ==> white_space(#[trigger] s[i])
}

proof fn lemma_plain_is_readable(k: Seq<u8>, s: Seq<char>)
    requires
        utf8_text(k) == Some(s),
    ensures
        readable(k) == if is_plain(s) {
            Some(s)
        } else {
            None
        },
{
    if is_plain(s) {
        assert forall|i: int| 0 <= i < s.len() implies !control(#[trigger] s[i]) by {
            assert(0x20 <= s[i] as u32 && !(0x7f <= s[i] as u32 <= 0x9f));
        }
    } else {
        let i = choose|i: int|
            0 <= i < s.len() && !(0x20 <= #[trigger] s[i] as u32 && !(0x7f <= s[i] as u32
                <= 0x9f));
        assert(control(s[i]));
    }
}

proof fn lemma_names_are_plain(s: Seq<char>)
    requires
        named_key(s) is Some,
    ensures
        is_plain(s),
        lacks(s, ':'),
{
    assert forall|i: int| 0 <= i < s.len() implies 0x20 <= #[trigger] s[i] as u32 && !(0x7f
        <= s[i] as u32 <= 0x9f) && s[i] != ':' by {
        if s[i] as u32 <= 0x1f || 0x7f <= s[i] as u32 <= 0x9f || s[i] == ':' {
            names_hold_no_other(s, i);
        }
    }
}

/// A key that names a transaction is in the bucket of transaction ids and looks like one, and no
/// other key does.
pub proof fn txid_keys_are_told(k: Seq<u8>, value: Seq<u8>)
    ensures
        is_named()((StoredEntry { key: k, value })) <==> sorting(k).bucket == "txid"@,
        is_named()((StoredEntry { key: k, value })) <==> sorting(k).looks_like_txid,
{
    txid_keys_share_a_bucket(k);
    if let Some(s) = utf8_text(k) {
        lemma_plain_is_readable(k, s);
        if named_key(s) is Some {
            lemma_names_are_plain(s);
        }
    }
}

/// A key that is text without control characters is shown as that text. Without a colon it is in
/// the bucket of transaction ids where it names one, and else in that of other texts.
pub proof fn texts_without_colon_are_told(k: Seq<u8>, s: Seq<char>)
    requires
        utf8_text(k) == Some(s),
        is_plain(s),
        lacks(s, ':'),
    ensures
        sorting(k).text == Some(s),
        !sorting(k).non_utf8,
        sorting(k).bucket == if named_key(s) is Some {
            "txid"@
        } else {
            "utf8"@
        },
{
    lemma_plain_is_readable(k, s);
    lemma_before_colon(s, s.len() as int);
}

/// A key that is no text, or text with control characters, is shown as no text; its bucket tells
/// its first two bytes in hexadecimal, as far as it has them.
pub proof fn other_keys_go_by_their_bytes(k: Seq<u8>)
    requires
        utf8_text(k) matches Some(s) ==> !is_plain(s),
    ensures
        sorting(k).text is None,
        sorting(k).non_utf8,
        !sorting(k).looks_like_txid,
        k.len() == 0 ==> sorting(k).bucket == "hex:<empty>"@,
        k.len() == 1 ==> sorting(k).bucket == "hex:"@ + hex_text(k),
        k.len() >= 2 ==> sorting(k).bucket == "hex:"@ + hex_text(k.take(1)) + " "@ + hex_text(
            k.subrange(1, 2),
        ),
{
    if let Some(s) = utf8_text(k) {
        lemma_plain_is_readable(k, s);
    }
    if k.len() >= 2 {
        assert(k.take(1) =~= seq![k[0]]);
        assert(k.subrange(1, 2) =~= seq![k[1]]);
    }
}

/// A key that is text with a colon is in the bucket of what stands before the first one, without
/// white space around it, and cut behind 48 bytes. A stand-in serves where nothing is left.
pub proof fn texts_with_colon_go_by_their_prefix(
    k: Seq<u8>,
    a: Seq<char>,
    name: Seq<char>,
    b: Seq<char>,
    rest: Seq<char>,
)
    requires
        utf8_text(k) == Some(a + name + b + seq![':'] + rest),
        is_plain(a + name + b + seq![':'] + rest),
        is_white(a),
        is_white(b),
        lacks(name, ':'),
        name.len() > 0 ==> !white_space(name[0]) && !white_space(name.last()),
        cuttable(k),
    ensures
        sorting(k).text == Some(a + name + b + seq![':'] + rest),
        !sorting(k).non_utf8,
        !sorting(k).looks_like_txid,
        name.len() == 0 ==> sorting(k).bucket == "pfx:"@ + "utf8:<empty_prefix>"@,
        name.len() > 0 && encode_utf8(name).len() <= 48 ==> sorting(k).bucket == "pfx:"@ + name,
        encode_utf8(name).len() > 48 ==> exists|head: Seq<char>|
            sorting(k).bucket == "pfx:"@ + head && #[trigger] encode_utf8(head) == encode_utf8(
                name,
            ).take(48),
{
    let prefix = a + name + b;
    let s = prefix + seq![':'] + rest;
    lemma_plain_is_readable(k, s);
    assert forall|j: int| 0 <= j < prefix.len() implies #[trigger] s[j] != ':' by {
        if j < a.len() {
            assert(s[j] == a[j]);
        } else if j < a.len() + name.len() {
            assert(s[j] == name[j - a.len()]);
        } else {
            assert(s[j] == b[j - a.len() - name.len()]);
        }
    }
    assert(s[prefix.len() as int] == ':');
    lemma_before_colon(s, prefix.len() as int);
    assert(s.take(prefix.len() as int) =~= prefix);
    names_hold_no_other(s, prefix.len() as int);
    trimming_drops_white_space(a, name, b);
    if name.len() == 0 {
        reveal_strlit("utf8:<empty_prefix>");
        lemma_short_stand_in();
        assert(encode_utf8(name).len() == 0) by {
            assert(name =~= Seq::<char>::empty());
        }
    }
    if encode_utf8(name).len() > 48 {
        let bytes = encode_utf8(name);
        encode_utf8_valid_utf8(name);
        valid_utf8_split(bytes, 48);
        assert(bytes.take(48) =~= bytes.subrange(0, 48));
        decode_utf8_encode_utf8(bytes.take(48));
        let head = cut_name(name);
        assert(encode_utf8(head) == bytes.take(48));
    }
}

proof fn lemma_short_stand_in()
    ensures
        encode_utf8("utf8:<empty_prefix>"@).len() <= 48,
{
    reveal_strlit("utf8:<empty_prefix>");
    let text = "utf8:<empty_prefix>"@;
    assert(vstd::utf8::is_ascii_chars(text));
    vstd::utf8::is_ascii_chars_encode_utf8(text);
}

// ---------------------------------------------------------------------------
// Histograms
// ---------------------------------------------------------------------------

/// Being in a bucket.
pub open spec fn is_in(bucket: Seq<char>) -> spec_fn(StoredEntry) -> bool {
    |entry: StoredEntry| sorting(entry.key).bucket == bucket
}

/// Having a key that is no text, or text with control characters.
pub open spec fn is_raw() -> spec_fn(StoredEntry) -> bool {
    |entry: StoredEntry|
        match utf8_text(entry.key) {
            Some(text) => !is_plain(text),
            None => true,
        }
}

proof fn lemma_occurrences_are_entries(seen: Seq<StoredEntry>, bucket: Seq<char>)
    ensures
        occurrences(bucket_labels(seen), bucket) == seen.filter(is_in(bucket)).len(),
    decreases seen.len(),
{
    reveal(Seq::filter);
    if seen.len() > 0 {
        lemma_occurrences_are_entries(seen.drop_last(), bucket);
        assert(bucket_labels(seen).drop_last() =~= bucket_labels(seen.drop_last()));
    }
}

proof fn lemma_kinds_are_entries(seen: Seq<StoredEntry>)
    ensures
        txid_like(seen) == seen.filter(is_named()).len(),
        unreadable(seen) == seen.filter(is_raw()).len(),
    decreases seen.len(),
{
    reveal(Seq::filter);
    if seen.len() > 0 {
        lemma_kinds_are_entries(seen.drop_last());
        let last = seen.last();
        txid_keys_are_told(last.key, last.value);
        assert(last == (StoredEntry { key: last.key, value: last.value }));
        if let Some(s) = utf8_text(last.key) {
            lemma_plain_is_readable(last.key, s);
        }
    }
}

/// Every row of a histogram carries the number of sampled keys in its bucket; no bucket has two
/// rows, and none has more keys than one that stands before it.
pub proof fn histogram_rows_count_their_keys(
    seen: Seq<StoredEntry>,
    top: nat,
    sampled: usize,
    rows: Seq<PrefixRow>,
    looks_like_txid_keys: u64,
    non_utf8_keys: u64,
)
    requires
        is_prefix_stats(seen, top, sampled, rows, looks_like_txid_keys, non_utf8_keys),
    ensures
        sampled == seen.len(),
        rows.len() <= top,
        forall|r: int|
            0 <= r < rows.len() ==> (#[trigger] rows[r]).count == seen.filter(
                is_in(rows[r].bucket@),
            ).len() && rows[r].count > 0,
        forall|q: int, r: int|
            0 <= q < r < rows.len() ==> (#[trigger] rows[q]).bucket@ != (#[trigger] rows[r]).bucket@
                && rows[q].count >= rows[r].count,
{
    let labels = bucket_labels(seen);
    let counts = histogram(labels);
    let order = ranking(counts);
    let said = top_labels(labels, top);
    distinct_labels_appear(labels);
    ranking_ranks(counts);
    assert(prefix_rows(rows).len() == rows.len());
    assert forall|r: int| 0 <= r < rows.len() implies (#[trigger] rows[r]).count == seen.filter(
        is_in(rows[r].bucket@),
    ).len() && rows[r].count > 0 by {
        assert(prefix_rows(rows)[r] == rows[r]@);
        assert(said[r] == (distinct(labels)[order[r]], counts[order[r]]));
        let bucket = distinct(labels)[order[r]];
        assert(distinct(labels).contains(bucket));
        lemma_occurrences_are_entries(seen, bucket);
        assert(occurrences(labels, bucket) <= labels.len());
    }
    assert forall|q: int, r: int| 0 <= q < r < rows.len() implies (#[trigger] rows[q]).bucket@ != (
    #[trigger] rows[r]).bucket@ && rows[q].count >= rows[r].count by {
        assert(prefix_rows(rows)[q] == rows[q]@);
        assert(prefix_rows(rows)[r] == rows[r]@);
        assert(said[q] == (distinct(labels)[order[q]], counts[order[q]]));
        assert(said[r] == (distinct(labels)[order[r]], counts[order[r]]));
        assert(ahead(counts, order[q], order[r]));
    }
}

/// The bucket of a sampled key has a row in the histogram, unless the histogram is full of buckets
/// with at least as many keys.
pub proof fn histograms_show_the_top(
    seen: Seq<StoredEntry>,
    top: nat,
    sampled: usize,
    rows: Seq<PrefixRow>,
    looks_like_txid_keys: u64,
    non_utf8_keys: u64,
    i: int,
)
    requires
        is_prefix_stats(seen, top, sampled, rows, looks_like_txid_keys, non_utf8_keys),
        0 <= i < seen.len(),
    ensures
        ({
            let bucket = sorting(seen[i].key).bucket;
            ||| exists|r: int| 0 <= r < rows.len() && (#[trigger] rows[r]).bucket@ == bucket
            ||| rows.len() == top && forall|r: int|
                0 <= r < rows.len() ==> (#[trigger] rows[r]).count >= seen.filter(
                    is_in(bucket),
                ).len()
        }),
{
    let labels = bucket_labels(seen);
    let counts = histogram(labels);
    let order = ranking(counts);
    let bucket = labels[i];
    distinct_labels_appear(labels);
    ranking_ranks(counts);
    lemma_occurrences_are_entries(seen, bucket);
    lemma_occurs(labels, i);
    assert(distinct(labels).contains(bucket));
    let place = choose|p: int| 0 <= p < distinct(labels).len() && distinct(labels)[p] == bucket;
    assert(order.contains(place));
    let p = choose|p: int| 0 <= p < order.len() && order[p] == place;
    assert(prefix_rows(rows).len() == rows.len());
    if p < rows.len() {
        assert(prefix_rows(rows)[p] == rows[p]@);
        assert(rows[p].bucket@ == bucket);
    } else {
        assert forall|r: int| 0 <= r < rows.len() implies (#[trigger] rows[r]).count
            >= seen.filter(is_in(bucket)).len() by {
            assert(prefix_rows(rows)[r] == rows[r]@);
            assert(ahead(counts, order[r], order[p]));
            assert(occurrences(labels, bucket) <= labels.len());
        }
    }
}

proof fn lemma_occurs(labels: Seq<Seq<char>>, i: int)
    requires
        0 <= i < labels.len(),
    ensures
        occurrences(labels, labels[i]) > 0,
    decreases labels.len(),
{
    if i < labels.len() - 1 {
        lemma_occurs(labels.drop_last(), i);
    }
}

/// The names of the buckets of rows.
pub open spec fn buckets(rows: Seq<PrefixRow>) -> Seq<Seq<char>> {
    rows.map_values(|row: PrefixRow| row.bucket@)
}

/// The counts of rows.
pub open spec fn counts(rows: Seq<PrefixRow>) -> Seq<nat> {
    rows.map_values(|row: PrefixRow| row.count as nat)
}

proof fn lemma_sum_of_rows(labels: Seq<Seq<char>>, rows: Seq<PrefixRow>)
    requires
        forall|r: int|
            0 <= r < rows.len() ==> (#[trigger] rows[r]).count == occurrences(
                labels,
                rows[r].bucket@,
            ),
    ensures
        sum(counts(rows)) == occurrences_of_all(labels, buckets(rows)),
    decreases rows.len(),
{
    if rows.len() > 0 {
        let rest = rows.drop_last();
        assert forall|r: int| 0 <= r < rest.len() implies (#[trigger] rest[r]).count == occurrences(
            labels,
            rest[r].bucket@,
        ) by {
            assert(rest[r] == rows[r]);
        }
        lemma_sum_of_rows(labels, rest);
        assert(buckets(rows).drop_last() =~= buckets(rest));
        assert(counts(rows).drop_last() =~= counts(rest));
        assert(rows[rows.len() - 1] == rows.last());
    }
}

proof fn lemma_all_are_counted(labels: Seq<Seq<char>>, of: Seq<Seq<char>>)
    requires
        of.no_duplicates(),
        forall|i: int| 0 <= i < labels.len() ==> of.contains(#[trigger] labels[i]),
    ensures
        occurrences_of_all(labels, of) == labels.len(),
    decreases labels.len(),
{
    if labels.len() > 0 {
        let rest = labels.drop_last();
        assert forall|i: int| 0 <= i < rest.len() implies of.contains(#[trigger] rest[i]) by {
            assert(rest[i] == labels[i]);
        }
        lemma_all_are_counted(rest, of);
        lemma_occurrence_step(rest, labels.last(), of);
        assert(labels =~= rest.push(labels.last()));
        assert(labels[labels.len() - 1] == labels.last());
    } else {
        lemma_none_is_counted(labels, of);
    }
}

proof fn lemma_none_is_counted(labels: Seq<Seq<char>>, of: Seq<Seq<char>>)
    requires
        labels.len() == 0,
    ensures
        occurrences_of_all(labels, of) == 0,
    decreases of.len(),
{
    if of.len() > 0 {
        lemma_none_is_counted(labels, of.drop_last());
    }
}

/// Where the bucket of every sampled key has a row, the counts of a histogram add up to the number
/// of sampled keys. So they do where there is room for another row.
pub proof fn histogram_counts_add_up(
    seen: Seq<StoredEntry>,
    top: nat,
    sampled: usize,
    rows: Seq<PrefixRow>,
    looks_like_txid_keys: u64,
    non_utf8_keys: u64,
)
    requires
        is_prefix_stats(seen, top, sampled, rows, looks_like_txid_keys, non_utf8_keys),
    ensures
        (forall|i: int|
            0 <= i < seen.len() ==> buckets(rows).contains(
                sorting((#[trigger] seen[i]).key).bucket,
            )) ==> sum(counts(rows)) == sampled,
        rows.len() < top ==> sum(counts(rows)) == sampled,
{
    let labels = bucket_labels(seen);
    let of = buckets(rows);
    histogram_rows_count_their_keys(
        seen,
        top,
        sampled,
        rows,
        looks_like_txid_keys,
        non_utf8_keys,
    );
    assert forall|r: int| 0 <= r < rows.len() implies (#[trigger] rows[r]).count == occurrences(
        labels,
        rows[r].bucket@,
    ) by {
        lemma_occurrences_are_entries(seen, rows[r].bucket@);
    }
    lemma_sum_of_rows(labels, rows);
    assert forall|i: int, j: int| 0 <= i < of.len() && 0 <= j < of.len() && i != j implies of[i]
        != of[j] by {
        assert(of[i] == rows[i].bucket@ && of[j] == rows[j].bucket@);
    }
    if rows.len() < top {
        assert forall|i: int| 0 <= i < seen.len() implies of.contains(
            sorting((#[trigger] seen[i]).key).bucket,
        ) by {
            histograms_show_the_top(
                seen,
                top,
                sampled,
                rows,
                looks_like_txid_keys,
                non_utf8_keys,
                i,
            );
            let r = choose|r: int|
                0 <= r < rows.len() && (#[trigger] rows[r]).bucket@ == sorting(seen[i].key).bucket;
            assert(of[r] == sorting(seen[i].key).bucket);
        }
    }
    if forall|i: int|
        0 <= i < seen.len() ==> of.contains(sorting((#[trigger] seen[i]).key).bucket) {
        assert forall|i: int| 0 <= i < labels.len() implies of.contains(#[trigger] labels[i]) by {
            assert(labels[i] == sorting(seen[i].key).bucket);
        }
        lemma_all_are_counted(labels, of);
    }
}

/// The two numbers beside a histogram are those of the sampled keys that name a transaction, which
/// is also the count in the row of transaction ids, and of those that are no plain text.
pub proof fn histograms_tell_the_kinds_of_keys(
    seen: Seq<StoredEntry>,
    top: nat,
    sampled: usize,
    rows: Seq<PrefixRow>,
    looks_like_txid_keys: u64,
    non_utf8_keys: u64,
)
    requires
        is_prefix_stats(seen, top, sampled, rows, looks_like_txid_keys, non_utf8_keys),
    ensures
        looks_like_txid_keys == seen.filter(is_named()).len(),
        non_utf8_keys == seen.filter(is_raw()).len(),
        forall|r: int|
            0 <= r < rows.len() && (#[trigger] rows[r]).bucket@ == "txid"@ ==> rows[r].count
                == looks_like_txid_keys,
{
    lemma_kinds_are_entries(seen);
    histogram_rows_count_their_keys(
        seen,
        top,
        sampled,
        rows,
        looks_like_txid_keys,
        non_utf8_keys,
    );
    txid_like_keys_are_in_their_bucket(seen);
    lemma_occurrences_are_entries(seen, "txid"@);
}

// ---------------------------------------------------------------------------
// Samples
// ---------------------------------------------------------------------------

/// The smaller of two numbers.
pub open spec fn smaller(a: int, b: int) -> int {
    if a < b {
        a
    } else {
        b
    }
}

/// Whether what is shown of a key is true of an entry: its key in hexadecimal reads back as the
/// key, its text is that of the key where it is plain text, it is marked where it names a
/// transaction, and the length is that of the value.
pub open spec fn is_shown_as(
    entry: StoredEntry,
    key_utf8: Option<String>,
    key_hex: Seq<char>,
    value_len: usize,
    bucket: Seq<char>,
    looks_like_txid: bool,
) -> bool {
    &&& hex_reading(encode_utf8(key_hex)) == Ok::<Seq<u8>, HexFault>(entry.key)
    &&& value_len == entry.value.len()
    &&& bucket == sorting(entry.key).bucket
    &&& looks_like_txid <==> is_named()(entry)
    &&& match key_utf8 {
        Some(text) => utf8_text(entry.key) == Some(text@) && is_plain(text@),
        None => is_raw()(entry),
    }
}

pub(crate) proof fn lemma_row_is_true(entry: StoredEntry)
    ensures
        ({
            let row = key_row(entry);
            &&& hex_reading(encode_utf8(row.key_hex)) == Ok::<Seq<u8>, HexFault>(entry.key)
            &&& row.looks_like_txid <==> is_named()(entry)
            &&& match row.key_utf8 {
                Some(text) => utf8_text(entry.key) == Some(text) && is_plain(text),
                None => is_raw()(entry),
            }
        }),
{
    hex_text_reads_back(entry.key);
    txid_keys_are_told(entry.key, entry.value);
    assert(entry == (StoredEntry { key: entry.key, value: entry.value }));
    if let Some(s) = utf8_text(entry.key) {
        lemma_plain_is_readable(entry.key, s);
    }
}

/// A look at the default tree shows its name and size and its first entries, as many as were asked
/// for or as there are, each as it is; its histogram is that of the keys that were to be sampled.
pub proof fn inspections_show_the_entries(
    db: Snapshot,
    sample: usize,
    top: usize,
    examples: usize,
    out: DefaultTreeInspect,
    i: int,
)
    requires
        is_inspection(db, sample, top, examples, out),
    ensures
        out.tree@ == "__sled__default"@,
        out.len == db.len,
        out.sample == sample,
        out.sampled == smaller(sample as int, db.entries@.len() as int),
        out.examples@.len() == smaller(examples as int, db.entries@.len() as int),
        0 <= i < out.examples@.len() ==> is_shown_as(
            db.entries@[i]@,
            out.examples@[i].key_utf8,
            out.examples@[i].key_hex@,
            out.examples@[i].value_len,
            out.examples@[i].bucket@,
            out.examples@[i].looks_like_txid,
        ),
{
    let rows = out.examples@;
    assert(example_rows(rows).len() == rows.len());
    if 0 <= i < rows.len() {
        assert(example_rows(rows)[i] == rows[i]@);
        assert(key_rows(db@.first(examples as int))[i] == key_row(db.entries@[i]@));
        lemma_row_is_true(db.entries@[i]@);
    }
}

/// A histogram of the default tree shows its name and size, and samples as many keys as were asked
/// for or as there are.
pub proof fn histograms_sample_the_first_keys(
    db: Snapshot,
    sample: usize,
    top: usize,
    out: PrefixStatsOut,
)
    requires
        is_histogram(db, sample, top, out),
    ensures
        out.tree@ == "__sled__default"@,
        out.len == db.len,
        out.sample == sample,
        out.sampled == smaller(sample as int, db.entries@.len() as int),
        out.top_prefixes@.len() <= top,
        is_prefix_stats(
            db@.entries.take(out.sampled as int),
            top as nat,
            out.sampled,
            out.top_prefixes@,
            out.looks_like_txid_keys,
            out.non_utf8_keys,
        ),
{
    assert(prefix_rows(out.top_prefixes@).len() == out.top_prefixes@.len());
    assert(db@.entries.take(out.sampled as int) =~= db@.first(sample as int));
}

/// A preview shows the first entries of the default tree, as many as were asked for or as there
/// are, each as it is.
pub proof fn previews_show_the_entries(db: Snapshot, limit: usize, out: PreviewKeysOut, i: int)
    requires
        is_preview(db, limit, out),
    ensures
        out.tree@ == "__sled__default"@,
        out.len == db.len,
        out.limit == limit,
        out.keys@.len() == smaller(limit as int, db.entries@.len() as int),
        0 <= i < out.keys@.len() ==> is_shown_as(
            db.entries@[i]@,
            out.keys@[i].key_utf8,
            out.keys@[i].key_hex@,
            out.keys@[i].value_len,
            out.keys@[i].bucket@,
            out.keys@[i].looks_like_txid,
        ),
{
    let rows = out.keys@;
    assert(preview_rows(rows).len() == rows.len());
    if 0 <= i < rows.len() {
        assert(preview_rows(rows)[i] == rows[i]@);
        assert(key_rows(db@.first(limit as int))[i] == key_row(db.entries@[i]@));
        lemma_row_is_true(db.entries@[i]@);
    }
}

} // verus!
