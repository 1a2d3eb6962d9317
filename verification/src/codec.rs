//! Byte-level readings: UTF-8 keys, hexadecimal texts and key specifications.

use vstd::prelude::*;
use vstd::string::*;
use vstd::utf8::{decode_utf8, encode_utf8, valid_utf8};

use crate::text::{
    begins_with, chars_of, has_prefix, text_of, trim, trimmed, trimming_drops_white_space,
    white_space,
};

verus! {

// ---------------------------------------------------------------------------
// UTF-8
// ---------------------------------------------------------------------------

/// The text that bytes hold, if they are UTF-8.
pub open spec fn utf8_text(bytes: Seq<u8>) -> Option<Seq<char>> {
    if valid_utf8(bytes) {
        Some(decode_utf8(bytes))
    } else {
        None
    }
}

/// `String::from_utf8` hands out the text of bytes that are UTF-8, and fails on all others.
#[verifier::external_body]
fn string_from_utf8(bytes: Vec<u8>) -> (r: Option<String>)
    ensures
        match r {
            Some(s) => utf8_text(bytes@) == Some(s@),
            None => utf8_text(bytes@) is None,
        },
{
    String::from_utf8(bytes).ok()
}

/// A copy of the bytes.
pub fn copy_bytes(bytes: &[u8]) -> (r: Vec<u8>)
    ensures
        r@ == bytes@,
{
    let mut out: Vec<u8> = Vec::new();
    out.extend_from_slice(bytes);
    assert(out@ =~= bytes@);
    out
}

/// The text that bytes hold, if they are UTF-8.
pub fn text_from_utf8(bytes: &[u8]) -> (r: Option<String>)
    ensures
        match r {
            Some(s) => utf8_text(bytes@) == Some(s@),
            None => utf8_text(bytes@) is None,
        },
{
    string_from_utf8(copy_bytes(bytes))
}

// ---------------------------------------------------------------------------
// Hexadecimal
// ---------------------------------------------------------------------------

/// The character of a hexadecimal digit, in lower case.
pub open spec fn hex_char(d: nat) -> char {
    if d < 10 {
        (48 + d) as char
    } else {
        (87 + d) as char
    }
}

/// The hexadecimal text of bytes: two digits for each.
pub open spec fn hex_text(bytes: Seq<u8>) -> Seq<char> {
    Seq::new(
        bytes.len() * 2,
        |i: int|
            if i % 2 == 0 {
                hex_char(bytes[i / 2] as nat / 16)
            } else {
                hex_char(bytes[i / 2] as nat % 16)
            },
    )
}

/// The value of a hexadecimal digit in ASCII, in either case.
pub open spec fn hex_digit(b: u8) -> Option<nat> {
    if 48 <= b <= 57 {
        Some((b - 48) as nat)
    } else if 97 <= b <= 102 {
        Some((b - 87) as nat)
    } else if 65 <= b <= 70 {
        Some((b - 55) as nat)
    } else {
        None
    }
}

/// Why a hexadecimal text cannot be read.
#[derive(Debug, Clone, Copy, PartialEq, Eq)]
pub enum HexFault {
    /// A byte that is no hexadecimal digit, and where it stands.
    InvalidCharacter { c: char, index: usize },
    /// The digits do not come in pairs.
    OddLength,
    /// The digits do not fill the place that they were meant for.
    InvalidLength,
}

/// Where the first byte stands that is no hexadecimal digit, if there is one.
pub open spec fn first_non_digit(data: Seq<u8>) -> Option<int>
    decreases data.len(),
{
    if data.len() == 0 {
        None
    } else {
        match first_non_digit(data.drop_last()) {
            Some(i) => Some(i),
            None => if hex_digit(data.last()) is None {
                Some(data.len() - 1)
            } else {
                None
            },
        }
    }
}

/// The bytes that pairs of hexadecimal digits stand for.
pub open spec fn hex_bytes(data: Seq<u8>) -> Seq<u8> {
    Seq::new(
        data.len() / 2,
        |i: int| (hex_digit(data[2 * i])->0 * 16 + hex_digit(data[2 * i + 1])->0) as u8,
    )
}

/// What reading a hexadecimal text gives: the bytes, or the first reason against it.
pub open spec fn hex_reading(data: Seq<u8>) -> Result<Seq<u8>, HexFault> {
    if data.len() % 2 != 0 {
        Err(HexFault::OddLength)
    } else {
        match first_non_digit(data) {
            Some(i) => Err(HexFault::InvalidCharacter { c: data[i] as char, index: i as usize }),
            None => Ok(hex_bytes(data)),
        }
    }
}

/// `hex::encode` renders each byte as two digits in lower case.
#[verifier::external_body]
fn hex_encode(data: &[u8]) -> (r: String)
    ensures
        r@ == hex_text(data@),
{
    hex::encode(data)
}

/// `hex::decode` reads pairs of digits in either case. It refuses an odd number of bytes first,
/// then names the first byte that is no digit; it never reports a length mismatch, which is for
/// targets of a fixed size.
#[verifier::external_body]
fn hex_decode(data: &[u8]) -> (r: Result<Vec<u8>, HexFault>)
    ensures
        match r {
            Ok(v) => hex_reading(data@) == Ok::<Seq<u8>, HexFault>(v@),
            Err(e) => hex_reading(data@) == Err::<Seq<u8>, HexFault>(e),
        },
{
    hex::decode(data).map_err(
        |e|
            match e {
                hex::FromHexError::InvalidHexCharacter { c, index } => HexFault::InvalidCharacter {
                    c,
                    index,
                },
                hex::FromHexError::OddLength => HexFault::OddLength,
                hex::FromHexError::InvalidStringLength => HexFault::InvalidLength,
            },
    )
}

/// The hexadecimal text of bytes.
pub fn text_in_hex(data: &[u8]) -> (r: String)
    ensures
        r@ == hex_text(data@),
{
    hex_encode(data)
}

// ---------------------------------------------------------------------------
// Key specifications
// ---------------------------------------------------------------------------

/// A key specification in hexadecimal that cannot be read.
#[derive(Debug)]
pub struct KeySpecError {
    /// The whole specification.
    pub spec: String,
    /// What is wrong with its hexadecimal part.
    pub cause: HexFault,
}

/// What a key specification stands for: the bytes behind `hex:` in hexadecimal, white space around
/// them left out; the text behind `utf8:`; else the whole text.
pub open spec fn key_spec_reading(spec: Seq<char>) -> Result<Seq<u8>, HexFault> {
    if begins_with(spec, "hex:"@) {
        hex_reading(encode_utf8(trim(spec.skip("hex:"@.len() as int))))
    } else if begins_with(spec, "utf8:"@) {
        Ok(encode_utf8(spec.skip("utf8:"@.len() as int)))
    } else {
        Ok(encode_utf8(spec))
    }
}

/// Reads a key specification: `hex:....`, `utf8:....` or plain text.
pub fn parse_key_spec(spec: &str) -> (r: Result<Vec<u8>, KeySpecError>)
    ensures
        match r {
            Ok(key) => key_spec_reading(spec@) == Ok::<Seq<u8>, HexFault>(key@),
            Err(e) => e.spec@ == spec@ && key_spec_reading(spec@) == Err::<Seq<u8>, HexFault>(
                e.cause,
            ),
        },
{
    let chars = chars_of(spec);
    let hex_mark = chars_of("hex:");
    let utf8_mark = chars_of("utf8:");
    if has_prefix(&chars, &hex_mark) {
        let digits = trimmed(&chars, hex_mark.len(), chars.len());
        assert(chars@.subrange(hex_mark@.len() as int, chars@.len() as int) =~= spec@.skip(
            hex_mark@.len() as int,
        ));
        match hex_decode(digits.as_str().as_bytes()) {
            Ok(key) => Ok(key),
            Err(cause) => Err(KeySpecError { spec: spec.to_string(), cause }),
        }
    } else if has_prefix(&chars, &utf8_mark) {
        let rest = text_of(&chars, utf8_mark.len(), chars.len());
        assert(chars@.subrange(utf8_mark@.len() as int, chars@.len() as int) =~= spec@.skip(
            utf8_mark@.len() as int,
        ));
        Ok(rest.as_str().as_bytes_vec())
    } else {
        Ok(spec.as_bytes_vec())
    }
}

// ---------------------------------------------------------------------------
// Readings undo renderings
// ---------------------------------------------------------------------------

proof fn lemma_all_digits(data: Seq<u8>)
    requires
        forall|i: int| 0 <= i < data.len() ==> hex_digit(#[trigger] data[i]) is Some,
    ensures
        first_non_digit(data) is None,
    decreases data.len(),
{
    if data.len() > 0 {
        let rest = data.drop_last();
        assert forall|i: int| 0 <= i < rest.len() implies hex_digit(#[trigger] rest[i]) is Some by {
            assert(rest[i] == data[i]);
        }
        lemma_all_digits(rest);
        assert(data.last() == data[data.len() - 1]);
    }
}

proof fn lemma_hex_char(d: nat)
    requires
        d < 16,
    ensures
        hex_char(d) <= '\u{7f}',
        hex_digit(hex_char(d) as u8) == Some(d),
        !white_space(hex_char(d)),
{
}

/// Reading the hexadecimal text of bytes gives the bytes back.
pub proof fn hex_text_reads_back(bytes: Seq<u8>)
    ensures
        hex_reading(encode_utf8(hex_text(bytes))) == Ok::<Seq<u8>, HexFault>(bytes),
{
    let text = hex_text(bytes);
    assert forall|i: int| 0 <= i < text.len() implies '\0' <= #[trigger] text[i] <= '\u{7f}' by {
        lemma_hex_char(bytes[i / 2] as nat / 16);
        lemma_hex_char(bytes[i / 2] as nat % 16);
    }
    assert(vstd::utf8::is_ascii_chars(text));
    vstd::utf8::is_ascii_chars_encode_utf8(text);
    let data = encode_utf8(text);
    assert forall|i: int| 0 <= i < data.len() implies hex_digit(#[trigger] data[i]) == Some(
        if i % 2 == 0 {
            bytes[i / 2] as nat / 16
        } else {
            bytes[i / 2] as nat % 16
        },
    ) by {
        lemma_hex_char(bytes[i / 2] as nat / 16);
        lemma_hex_char(bytes[i / 2] as nat % 16);
        assert(data[i] == text[i] as u8);
    }
    lemma_all_digits(data);
    assert forall|i: int| 0 <= i < bytes.len() implies #[trigger] hex_bytes(data)[i] == bytes[i] by {
        assert((2 * i) / 2 == i && (2 * i + 1) / 2 == i);
        assert(hex_digit(data[2 * i]) == Some(bytes[i] as nat / 16));
        assert(hex_digit(data[2 * i + 1]) == Some(bytes[i] as nat % 16));
    }
    assert(hex_bytes(data) =~= bytes);
}

/// A key is specified by `hex:` and its hexadecimal text, and a text by `utf8:` and itself.
pub proof fn key_specs_name_their_keys(bytes: Seq<u8>, text: Seq<char>)
    ensures
        key_spec_reading("hex:"@ + hex_text(bytes)) == Ok::<Seq<u8>, HexFault>(bytes),
        key_spec_reading("utf8:"@ + text) == Ok::<Seq<u8>, HexFault>(encode_utf8(text)),
{
    reveal_strlit("hex:");
    reveal_strlit("utf8:");
    let hex = "hex:"@ + hex_text(bytes);
    assert(hex.take("hex:"@.len() as int) =~= "hex:"@);
    assert(hex.skip("hex:"@.len() as int) =~= hex_text(bytes));
    assert(trim(hex_text(bytes)) == hex_text(bytes)) by {
        if bytes.len() > 0 {
            let text = hex_text(bytes);
            lemma_hex_char(bytes[0] as nat / 16);
            let last = text.len() - 1;
            lemma_hex_char(bytes[last / 2] as nat % 16);
            assert(text[0] == hex_char(bytes[0] as nat / 16));
            assert(last % 2 == 1);
            assert(text[last] == hex_char(bytes[last / 2] as nat % 16));
        }
    }
    hex_text_reads_back(bytes);
    let utf8 = "utf8:"@ + text;
    assert(utf8.take("utf8:"@.len() as int) =~= "utf8:"@);
    assert(utf8.skip("utf8:"@.len() as int) =~= text);
    assert(!begins_with(utf8, "hex:"@)) by {
        assert(utf8.take(4)[0] == 'u');
        assert("hex:"@[0] == 'h');
    }
}

/// A key specification without a mark stands for itself, and one in hexadecimal for the same bytes
/// with or without white space around its digits. It cannot be read just where its digits do not
/// come in pairs, or one of them is none.
pub proof fn key_specs_are_read_as_marked(
    spec: Seq<char>,
    digits: Seq<char>,
    a: Seq<char>,
    b: Seq<char>,
)
    requires
        digits.len() > 0,
        !white_space(digits[0]),
        !white_space(digits.last()),
        forall|i: int| 0 <= i < a.len() ==> white_space(#[trigger] a[i]),
        forall|i: int| 0 <= i < b.len() ==> white_space(#[trigger] b[i]),
    ensures
        !begins_with(spec, "hex:"@) && !begins_with(spec, "utf8:"@) ==> key_spec_reading(spec)
            == Ok::<Seq<u8>, HexFault>(encode_utf8(spec)),
        key_spec_reading("hex:"@ + (a + digits + b)) == key_spec_reading("hex:"@ + digits),
        key_spec_reading("hex:"@ + digits) is Ok <==> encode_utf8(digits).len() % 2 == 0 && forall|
            i: int,
        |
            0 <= i < encode_utf8(digits).len() ==> hex_digit(#[trigger] encode_utf8(digits)[i])
                is Some,
{
    reveal_strlit("hex:");
    let plain = "hex:"@ + digits;
    let wide = "hex:"@ + (a + digits + b);
    assert(plain.take(4) =~= "hex:"@);
    assert(wide.take(4) =~= "hex:"@);
    assert(plain.skip(4) =~= digits);
    assert(wide.skip(4) =~= a + digits + b);
    trimming_drops_white_space(a, digits, b);
    trimming_drops_white_space(Seq::empty(), digits, Seq::empty());
    assert(Seq::<char>::empty() + digits + Seq::<char>::empty() =~= digits);
    let data = encode_utf8(digits);
    lemma_first_non_digit(data);
}

proof fn lemma_first_non_digit(data: Seq<u8>)
    ensures
        first_non_digit(data) is None <==> forall|i: int|
            0 <= i < data.len() ==> hex_digit(#[trigger] data[i]) is Some,
    decreases data.len(),
{
    if data.len() > 0 {
        let rest = data.drop_last();
        lemma_first_non_digit(rest);
        assert forall|i: int| 0 <= i < rest.len() implies rest[i] == #[trigger] data[i] by {}
        assert(data[data.len() - 1] == data.last());
        if first_non_digit(rest) is Some {
            let i = choose|i: int|
                0 <= i < rest.len() && hex_digit(#[trigger] rest[i]) is None;
            assert(hex_digit(data[i]) is None);
        }
    }
}

} // verus!
