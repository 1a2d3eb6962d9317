//! Lines of output.

use vstd::prelude::*;
use vstd::string::*;

use crate::buckets::{readable, readable_text};
use crate::codec::{hex_text, text_in_hex};
use crate::db::{receiver_rows, TopReceiverRow};
use crate::index::texts;
use crate::inspect::{KeyRow, PreviewKeyRow};
use crate::model::StoredEntry;
use crate::store::Entry;
use crate::text::{decimal, decimal_text};
use crate::utxos::{output_rows, DecodedOutput, OutputRow};

verus! {

/// Adds a line at the end.
pub fn add_line(lines: &mut Vec<String>, line: String)
    ensures
        texts(final(lines)@) == texts(old(lines)@).push(line@),
{
    let ghost text = line@;
    lines.push(line);
    assert(texts(lines@) =~= texts(old(lines)@).push(text));
}

/// No lines yet.
pub fn no_lines() -> (r: Vec<String>)
    ensures
        texts(r@) == Seq::<Seq<char>>::empty(),
{
    let r: Vec<String> = Vec::new();
    assert(texts(r@) =~= Seq::<Seq<char>>::empty());
    r
}

/// A label and a number.
pub open spec fn numbered(label: Seq<char>, n: nat) -> Seq<char> {
    label + decimal(n)
}

/// A label and a number.
pub fn numbered_text(label: &str, n: u64) -> (r: String)
    ensures
        r@ == numbered(label@, n as nat),
{
    let mut s = label.to_string();
    s.append(decimal_text(n).as_str());
    s
}

/// A label and a text.
pub fn labelled_text(label: &str, text: &str) -> (r: String)
    ensures
        r@ == label@ + text@,
{
    let mut s = label.to_string();
    s.append(text);
    s
}

/// How many of something were printed.
pub open spec fn printed(n: nat, what: Seq<char>) -> Seq<char> {
    "printed "@ + decimal(n) + what
}

/// How many of something were printed.
pub fn printed_text(n: usize, what: &str) -> (r: String)
    ensures
        r@ == printed(n as nat, what@),
{
    let mut s = numbered_text("printed ", n as u64);
    s.append(what);
    s
}

// ---------------------------------------------------------------------------
// Entries
// ---------------------------------------------------------------------------

/// The line of an entry: its key as text, where it is text without control characters, its key in
/// hexadecimal, and the length of its value.
pub open spec fn entry_line(entry: StoredEntry) -> Seq<char> {
    (match readable(entry.key) {
        Some(s) => "key=utf8:"@ + s + "  "@,
        None => seq![],
    }) + "key_hex:"@ + hex_text(entry.key) + "  value_len="@ + decimal(entry.value.len())
}

/// The lines of an entry.
pub open spec fn entry_lines(entry: StoredEntry, show_values: bool) -> Seq<Seq<char>> {
    if show_values {
        seq![entry_line(entry), "  value_hex:"@ + hex_text(entry.value)]
    } else {
        seq![entry_line(entry)]
    }
}

/// The lines of entries.
pub open spec fn all_entry_lines(entries: Seq<StoredEntry>, show_values: bool) -> Seq<Seq<char>>
    decreases entries.len(),
{
    if entries.len() == 0 {
        seq![]
    } else {
        all_entry_lines(entries.drop_last(), show_values) + entry_lines(entries.last(), show_values)
    }
}

/// Adds the lines of an entry.
pub fn print_entry(lines: &mut Vec<String>, entry: &Entry, show_values: bool)
    ensures
        texts(final(lines)@) == texts(old(lines)@) + entry_lines(entry@, show_values),
{
    let mut line = String::new();
    if let Some(s) = readable_text(entry.key.as_slice()) {
        line.append("key=utf8:");
        line.append(s.as_str());
        line.append("  ");
        assert(line@ =~= "key=utf8:"@ + s@ + "  "@);
    } else {
        assert(line@ =~= seq![]);
    }
    line.append("key_hex:");
    line.append(text_in_hex(entry.key.as_slice()).as_str());
    line.append("  value_len=");
    line.append(decimal_text(entry.value.len() as u64).as_str());
    let ghost before = texts(lines@);
    add_line(lines, line);
    if show_values {
        let value = text_in_hex(entry.value.as_slice());
        add_line(lines, labelled_text("  value_hex:", value.as_str()));
    }
    assert(texts(lines@) =~= before + entry_lines(entry@, show_values));
}

// ---------------------------------------------------------------------------
// Outputs
// ---------------------------------------------------------------------------

/// The line of an output.
pub open spec fn output_line(row: OutputRow) -> Seq<char> {
    if row.state == "spent"@ {
        "#"@ + decimal(row.index as nat) + ": spent"@
    } else {
        "#"@ + decimal(row.index as nat) + ": amount="@ + decimal(
            match row.amount {
                Some(amount) => amount as nat,
                None => 0,
            },
        ) + " receiver="@ + match row.receiver {
            Some(text) => text,
            None => seq![],
        }
    }
}

/// The lines of a transaction: its id, the number of its outputs, and a line for each.
pub open spec fn decoded_lines(txid: Seq<char>, rows: Seq<OutputRow>) -> Seq<Seq<char>> {
    seq!["txid="@ + txid, "outputs="@ + decimal(rows.len())] + Seq::new(
        rows.len(),
        |i: int| output_line(rows[i]),
    )
}

fn output_text(row: &DecodedOutput) -> (r: String)
    ensures
        r@ == output_line(row@),
{
    let mut s = numbered_text("#", row.index as u64);
    if row.state == "spent".to_string() {
        s.append(": spent");
        s
    } else {
        s.append(": amount=");
        let amount: u64 = match row.amount {
            Some(amount) => amount,
            None => 0,
        };
        s.append(decimal_text(amount).as_str());
        s.append(" receiver=");
        if let Some(text) = &row.receiver {
            s.append(text.as_str());
        } else {
            assert(s@ + seq![] =~= s@);
        }
        s
    }
}

/// The lines of a transaction.
pub fn print_decoded_outputs(txid: &str, outputs: &Vec<DecodedOutput>) -> (r: Vec<String>)
    ensures
        texts(r@) == decoded_lines(txid@, output_rows(outputs@)),
{
    let ghost rows = output_rows(outputs@);
    let ghost all = decoded_lines(txid@, rows);
    let mut lines = no_lines();
    add_line(&mut lines, labelled_text("txid=", txid));
    add_line(&mut lines, numbered_text("outputs=", outputs.len() as u64));
    let mut i: usize = 0;
    assert(texts(lines@) =~= all.take(2));
    while i < outputs.len()
        invariant
            i <= outputs.len(),
            rows == output_rows(outputs@),
            all == decoded_lines(txid@, rows),
            texts(lines@) == all.take(i + 2),
        decreases outputs.len() - i,
    {
        add_line(&mut lines, output_text(&outputs[i]));
        proof {
            assert(all[i + 2] == output_line(rows[i as int]));
            assert(all.take(i + 3) =~= all.take(i + 2).push(all[i + 2]));
        }
        i += 1;
    }
    assert(all.take(i + 2) =~= all);
    lines
}

// ---------------------------------------------------------------------------
// Receivers
// ---------------------------------------------------------------------------

/// A rank, with at least two digits.
pub open spec fn rank_text(n: nat) -> Seq<char> {
    if n < 10 {
        "0"@ + decimal(n)
    } else {
        decimal(n)
    }
}

/// The line of a receiver with its rank.
pub open spec fn receiver_line(rank: nat, row: (Seq<char>, u64)) -> Seq<char> {
    "#"@ + rank_text(rank) + " receiver="@ + row.0 + " total_unspent="@ + decimal(row.1 as nat)
}

/// The lines of receivers, ranked from one on.
pub open spec fn receiver_lines(rows: Seq<(Seq<char>, u64)>) -> Seq<Seq<char>> {
    Seq::new(rows.len(), |i: int| receiver_line((i + 1) as nat, rows[i]))
}

/// The lines of receivers.
pub fn print_receivers(rows: &Vec<TopReceiverRow>) -> (r: Vec<String>)
    ensures
        texts(r@) == receiver_lines(receiver_rows(rows@)),
{
    let ghost all = receiver_lines(receiver_rows(rows@));
    let mut lines = no_lines();
    let mut i: usize = 0;
    assert(texts(lines@) =~= all.take(0));
    while i < rows.len()
        invariant
            i <= rows.len(),
            all == receiver_lines(receiver_rows(rows@)),
            texts(lines@) == all.take(i as int),
        decreases rows.len() - i,
    {
        let rank: u64 = i as u64 + 1;
        let mut s = "#".to_string();
        if rank < 10 {
            s.append("0");
        }
        s.append(decimal_text(rank).as_str());
        s.append(" receiver=");
        s.append(rows[i].receiver_base36.as_str());
        s.append(" total_unspent=");
        s.append(decimal_text(rows[i].total_unspent).as_str());
        proof {
            let row = receiver_rows(rows@)[i as int];
            assert("#"@ + "0"@ + decimal(rank as nat) =~= "#"@ + ("0"@ + decimal(rank as nat)));
            assert(s@ == receiver_line(rank as nat, row));
            assert(all[i as int] == receiver_line(rank as nat, row));
            assert(all.take(i + 1) =~= all.take(i as int).push(all[i as int]));
        }
        add_line(&mut lines, s);
        i += 1;
    }
    assert(all.take(i as int) =~= all);
    lines
}

// ---------------------------------------------------------------------------
// Previews
// ---------------------------------------------------------------------------

/// A truth value as text.
pub open spec fn truth(b: bool) -> Seq<char> {
    if b {
        "true"@
    } else {
        "false"@
    }
}

/// The line of an entry in a preview.
pub open spec fn preview_line(row: KeyRow) -> Seq<char> {
    (match row.key_utf8 {
        Some(s) => "key=utf8:"@ + s + "  "@,
        None => seq![],
    }) + "key_hex:"@ + row.key_hex + "  value_len="@ + decimal(row.value_len as nat)
        + "  bucket="@ + row.bucket + "  txid="@ + truth(row.looks_like_txid)
}

/// The lines of entries in a preview.
pub open spec fn preview_lines(rows: Seq<KeyRow>) -> Seq<Seq<char>> {
    Seq::new(rows.len(), |i: int| preview_line(rows[i]))
}

/// The line of an entry in a preview.
pub fn preview_text(row: &PreviewKeyRow) -> (r: String)
    ensures
        r@ == preview_line(row@),
{
    let mut s = String::new();
    if let Some(text) = &row.key_utf8 {
        s.append("key=utf8:");
        s.append(text.as_str());
        s.append("  ");
        assert(s@ =~= "key=utf8:"@ + text@ + "  "@);
    } else {
        assert(s@ =~= seq![]);
    }
    s.append("key_hex:");
    s.append(row.key_hex.as_str());
    s.append("  value_len=");
    s.append(decimal_text(row.value_len as u64).as_str());
    s.append("  bucket=");
    s.append(row.bucket.as_str());
    s.append("  txid=");
    if row.looks_like_txid {
        s.append("true");
    } else {
        s.append("false");
    }
    s
}

} // verus!
