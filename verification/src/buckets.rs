//! Sorting keys into buckets by how they begin.

use vstd::prelude::*;
use vstd::string::*;
use vstd::utf8::{encode_utf8, is_char_boundary};

use crate::codec::{hex_char, hex_text, text_from_utf8, utf8_text};
use crate::keys::{names_hold_no_other, names_tx, TxId};
use crate::text::{chars_of, control, is_control, trim, trimmed};

verus! {

/// How many bytes of a prefix a bucket is named by.
pub const PREFIX_BYTES: usize = 48;

/// Whether a text holds no control character.
pub open spec fn printable(s: Seq<char>) -> bool {
    forall|i: int| 0 <= i < s.len() ==> !control(#[trigger] s[i])
}

/// The text of a key, if it is UTF-8 without control characters.
pub open spec fn readable(k: Seq<u8>) -> Option<Seq<char>> {
    match utf8_text(k) {
        Some(s) => if printable(s) {
            Some(s)
        } else {
            None
        },
        None => None,
    }
}

/// The part of a text before its first colon, if it has one.
pub open spec fn before_colon(s: Seq<char>) -> Option<Seq<char>>
    decreases s.len(),
{
    if s.len() == 0 {
        None
    } else if s[0] == ':' {
        Some(seq![])
    } else {
        match before_colon(s.skip(1)) {
            Some(rest) => Some(seq![s[0]] + rest),
            None => None,
        }
    }
}

/// The name of a prefix: the prefix without white space around it, or a stand-in where nothing is
/// left.
pub open spec fn prefix_name(prefix: Seq<char>) -> Seq<char> {
    if trim(prefix).len() == 0 {
        "utf8:<empty_prefix>"@
    } else {
        trim(prefix)
    }
}

/// Whether the name of a prefix ends or is cut between two characters.
pub open spec fn cuttable_name(name: Seq<char>) -> bool {
    encode_utf8(name).len() > PREFIX_BYTES ==> is_char_boundary(
        encode_utf8(name),
        PREFIX_BYTES as int,
    )
}

/// Whether the name of a key's bucket ends or is cut between two characters.
pub open spec fn cuttable(k: Seq<u8>) -> bool {
    match readable(k) {
        Some(s) => match before_colon(s) {
            Some(prefix) => cuttable_name(prefix_name(prefix)),
            None => true,
        },
        None => true,
    }
}

/// What is said of a key.
pub struct Sorted {
    pub bucket: Seq<char>,
    pub text: Option<Seq<char>>,
    pub looks_like_txid: bool,
    pub non_utf8: bool,
}

/// The bucket of keys that are no text: by their first two bytes.
pub open spec fn hex_bucket(k: Seq<u8>) -> Seq<char> {
    if k.len() == 0 {
        "hex:<empty>"@
    } else if k.len() == 1 {
        "hex:"@ + hex_text(k)
    } else {
        "hex:"@ + hex_text(seq![k[0]]) + " "@ + hex_text(seq![k[1]])
    }
}

/// The name of a prefix as far as it fits.
pub open spec fn cut_name(name: Seq<char>) -> Seq<char> {
    if encode_utf8(name).len() > PREFIX_BYTES {
        vstd::utf8::decode_utf8(encode_utf8(name).take(PREFIX_BYTES as int))
    } else {
        name
    }
}

/// What is said of a key: texts go by the prefix before their first colon, or else by whether they
/// name a transaction; all others by their first bytes.
pub open spec fn sorting(k: Seq<u8>) -> Sorted {
    match readable(k) {
        Some(s) => Sorted {
            bucket: match before_colon(s) {
                Some(prefix) => "pfx:"@ + cut_name(prefix_name(prefix)),
                None => if names_tx(s) {
                    "txid"@
                } else {
                    "utf8"@
                },
            },
            text: Some(s),
            looks_like_txid: names_tx(s),
            non_utf8: false,
        },
        None => Sorted {
            bucket: hex_bucket(k),
            text: None,
            looks_like_txid: false,
            non_utf8: true,
        },
    }
}

proof fn lemma_colon_found(s: Seq<char>) -> (i: int)
    requires
        before_colon(s) is Some,
    ensures
        0 <= i < s.len(),
        s[i] == ':',
    decreases s.len(),
{
    if s[0] == ':' {
        0
    } else {
        let i = lemma_colon_found(s.skip(1));
        i + 1
    }
}

/// Exactly the keys that look like transaction ids are in the bucket of transaction ids.
pub proof fn txid_keys_share_a_bucket(k: Seq<u8>)
    ensures
        sorting(k).looks_like_txid <==> sorting(k).bucket == "txid"@,
{
    reveal_strlit("txid");
    reveal_strlit("utf8");
    reveal_strlit("pfx:");
    reveal_strlit("hex:");
    reveal_strlit("hex:<empty>");
    if let Some(s) = readable(k) {
        if before_colon(s) is Some {
            let i = lemma_colon_found(s);
            names_hold_no_other(s, i);
            assert(sorting(k).bucket[0] == 'p');
            assert("txid"@[0] == 't');
        } else {
            assert("utf8"@[0] == 'u');
            assert("txid"@[0] == 't');
        }
    } else {
        assert(sorting(k).bucket[0] == 'h');
        assert("txid"@[0] == 't');
    }
}

// ---------------------------------------------------------------------------
// Sorting
// ---------------------------------------------------------------------------

/// What is said of a key.
#[derive(Debug)]
pub struct KeyBucket {
    pub bucket: String,
    /// The key as text, where it is text without control characters.
    pub text: Option<String>,
    pub looks_like_txid: bool,
    /// Whether the key is no text, or text with control characters.
    pub non_utf8: bool,
}

impl View for KeyBucket {
    type V = Sorted;

    open spec fn view(&self) -> Sorted {
        Sorted {
            bucket: self.bucket@,
            text: match self.text {
                Some(text) => Some(text@),
                None => None,
            },
            looks_like_txid: self.looks_like_txid,
            non_utf8: self.non_utf8,
        }
    }
}

fn nibble(d: u8) -> (c: char)
    requires
        d < 16,
    ensures
        c == hex_char(d as nat),
{
    if d < 10 {
        (48u8 + d) as char
    } else {
        (87u8 + d) as char
    }
}

/// Appends a byte in hexadecimal.
fn push_hex(s: &mut String, b: u8)
    ensures
        final(s)@ == old(s)@ + hex_text(seq![b]),
{
    s.push(nibble(b / 16));
    s.push(nibble(b % 16));
    assert(s@ =~= old(s)@ + hex_text(seq![b]));
}

/// The bucket of a key that is no text.
pub fn bucket_hex_prefix(k: &[u8]) -> (r: String)
    ensures
        r@ == hex_bucket(k@),
{
    if k.len() == 0 {
        return "hex:<empty>".to_string();
    }
    let mut s = "hex:".to_string();
    push_hex(&mut s, k[0]);
    if k.len() == 1 {
        assert(k@ =~= seq![k@[0]]);
        return s;
    }
    s.append(" ");
    push_hex(&mut s, k[1]);
    s
}

/// The text of a key, if it is UTF-8 without control characters.
pub fn readable_text(k: &[u8]) -> (r: Option<String>)
    ensures
        match r {
            Some(s) => readable(k@) == Some(s@),
            None => readable(k@) is None,
        },
{
    match text_from_utf8(k) {
        Some(s) => {
            let chars = chars_of(s.as_str());
            let mut i: usize = 0;
            while i < chars.len()
                invariant
                    i <= chars.len(),
                    chars@ == s@,
                    utf8_text(k@) == Some(s@),
                    forall|j: int| 0 <= j < i ==> !control(#[trigger] s@[j]),
                decreases chars.len() - i,
            {
                if is_control(chars[i]) {
                    assert(control(s@[i as int]));
                    return None;
                }
                i += 1;
            }
            Some(s)
        },
        None => None,
    }
}

pub(crate) proof fn lemma_before_colon(s: Seq<char>, i: int)
    requires
        0 <= i <= s.len(),
        forall|j: int| 0 <= j < i ==> #[trigger] s[j] != ':',
    ensures
        i == s.len() ==> before_colon(s) is None,
        i < s.len() && s[i] == ':' ==> before_colon(s) == Some(s.take(i)),
    decreases s.len(),
{
    if i > 0 {
        let rest = s.skip(1);
        assert forall|j: int| 0 <= j < i - 1 implies #[trigger] rest[j] != ':' by {
            assert(s[j + 1] != ':');
        }
        lemma_before_colon(rest, i - 1);
        assert(s[0] != ':');
        if i < s.len() {
            assert(rest[i - 1] == s[i]);
            assert(seq![s[0]] + rest.take(i - 1) =~= s.take(i));
        }
    } else if s.len() > 0 {
        assert(s.take(0) =~= seq![]);
    }
}

/// The name of the prefix before the first colon of a text, if it has one.
fn named_prefix(s: &str) -> (r: Option<String>)
    ensures
        match r {
            Some(name) => before_colon(s@) is Some && name@ == prefix_name(before_colon(s@)->0),
            None => before_colon(s@) is None,
        },
{
    let chars = chars_of(s);
    let mut i: usize = 0;
    while i < chars.len()
        invariant
            i <= chars.len(),
            chars@ == s@,
            forall|j: int| 0 <= j < i ==> #[trigger] s@[j] != ':',
        decreases chars.len() - i,
    {
        if chars[i] == ':' {
            proof {
                lemma_before_colon(s@, i as int);
                assert(chars@.subrange(0, i as int) =~= s@.take(i as int));
            }
            let name = trimmed(&chars, 0, i);
            if name.as_str().is_empty() {
                return Some("utf8:<empty_prefix>".to_string());
            }
            return Some(name);
        }
        i += 1;
    }
    proof {
        lemma_before_colon(s@, i as int);
    }
    None
}

/// Whether the name of a key's bucket ends or is cut between two characters.
pub fn is_cuttable(k: &[u8]) -> (r: bool)
    ensures
        r == cuttable(k@),
{
    match readable_text(k) {
        Some(s) => match named_prefix(s.as_str()) {
            Some(name) => name.as_str().as_bytes().len() <= PREFIX_BYTES
                || name.as_str().is_char_boundary(PREFIX_BYTES),
            None => true,
        },
        None => true,
    }
}

/// The name of a prefix as far as it fits.
fn cut(name: String) -> (r: String)
    requires
        cuttable_name(name@),
    ensures
        r@ == cut_name(name@),
{
    if name.as_str().as_bytes().len() > PREFIX_BYTES {
        let (head, _) = name.as_str().split_at(PREFIX_BYTES);
        proof {
            assert(head.spec_bytes() =~= encode_utf8(name@).take(PREFIX_BYTES as int));
            vstd::utf8::encode_utf8_decode_utf8(head@);
        }
        head.to_string()
    } else {
        name
    }
}

/// Sorts a key into its bucket.
pub fn bucket_key(k: &[u8]) -> (r: KeyBucket)
    requires
        cuttable(k@),
    ensures
        r@ == sorting(k@),
{
    match readable_text(k) {
        Some(s) => {
            let looks_like_txid = TxId::new_from_base36(s.as_str()).is_some();
            let bucket = match named_prefix(s.as_str()) {
                Some(name) => {
                    let short = cut(name);
                    let mut bucket = "pfx:".to_string();
                    bucket.append(short.as_str());
                    bucket
                },
                None => if looks_like_txid {
                    "txid".to_string()
                } else {
                    "utf8".to_string()
                },
            };
            KeyBucket { bucket, text: Some(s), looks_like_txid, non_utf8: false }
        },
        None => KeyBucket {
            bucket: bucket_hex_prefix(k),
            text: None,
            looks_like_txid: false,
            non_utf8: true,
        },
    }
}

} // verus!
