//! Wallet addresses and transaction ids, and the base-36 text that names them.

use vstd::arithmetic::power::pow;
use vstd::prelude::*;

verus! {

// ---------------------------------------------------------------------------
// Numbers behind keys and texts
// ---------------------------------------------------------------------------

/// How many bytes a public key or a transaction hash has.
pub const KEY_BYTES: usize = 32;

/// The number that bytes stand for, most significant byte first.
pub open spec fn be_value(bytes: Seq<u8>) -> nat
    decreases bytes.len(),
{
    if bytes.len() == 0 {
        0
    } else {
        be_value(bytes.drop_last()) * 256 + bytes.last() as nat
    }
}

/// The last `width` bytes of `n`, most significant byte first.
pub open spec fn be_bytes(n: nat, width: nat) -> Seq<u8>
    decreases width,
{
    if width == 0 {
        seq![]
    } else {
        be_bytes(n / 256, (width - 1) as nat).push((n % 256) as u8)
    }
}

/// The character of a base-36 digit: `0` to `9`, then `a` to `z`.
pub open spec fn base36_char(d: nat) -> char {
    if d < 10 {
        (48 + d) as char
    } else {
        (87 + d) as char
    }
}

/// The base-36 numeral of `n`, in lower case and without leading zeros.
pub open spec fn base36(n: nat) -> Seq<char>
    decreases n,
{
    if n < 36 {
        seq![base36_char(n)]
    } else {
        base36(n / 36).push(base36_char(n % 36))
    }
}

/// The value of a base-36 digit, in either case.
pub open spec fn base36_digit(c: char) -> Option<nat> {
    if '0' <= c <= '9' {
        Some((c as nat - 48) as nat)
    } else if 'a' <= c <= 'z' {
        Some((c as nat - 87) as nat)
    } else if 'A' <= c <= 'Z' {
        Some((c as nat - 55) as nat)
    } else {
        None
    }
}

/// The number that base-36 digits stand for; underscores between them are skipped.
pub open spec fn base36_digits(s: Seq<char>) -> Option<nat>
    decreases s.len(),
{
    if s.len() == 0 {
        Some(0)
    } else {
        match base36_digits(s.drop_last()) {
            None => None,
            Some(n) => if s.last() == '_' {
                Some(n)
            } else {
                match base36_digit(s.last()) {
                    Some(d) => Some(n * 36 + d),
                    None => None,
                }
            },
        }
    }
}

/// The number that a base-36 numeral stands for. A numeral may begin with one `+`, has at
/// least one digit, and does not begin with an underscore.
pub open spec fn base36_number(s: Seq<char>) -> Option<nat> {
    let t = if s.len() > 0 && s[0] == '+' {
        s.skip(1)
    } else {
        s
    };
    if t.len() == 0 || t[0] == '_' {
        None
    } else {
        base36_digits(t)
    }
}

/// The key that a text names: the bytes of its number, where they are no more than a key has.
pub open spec fn named_key(s: Seq<char>) -> Option<Seq<u8>> {
    match base36_number(s) {
        Some(n) => if n < pow(256, KEY_BYTES as nat) {
            Some(be_bytes(n, KEY_BYTES as nat))
        } else {
            None
        },
        None => None,
    }
}

/// The text that names a key.
pub open spec fn key_text(key: Seq<u8>) -> Seq<char> {
    base36(be_value(key))
}

// ---------------------------------------------------------------------------
// Laws of naming
// ---------------------------------------------------------------------------

proof fn lemma_be_value_bound(bytes: Seq<u8>)
    ensures
        be_value(bytes) < pow(256, bytes.len()),
    decreases bytes.len(),
{
    reveal(pow);
    if bytes.len() > 0 {
        lemma_be_value_bound(bytes.drop_last());
    }
}

proof fn lemma_be_bytes_of_value(bytes: Seq<u8>)
    ensures
        be_bytes(be_value(bytes), bytes.len()) == bytes,
    decreases bytes.len(),
{
    if bytes.len() > 0 {
        lemma_be_bytes_of_value(bytes.drop_last());
        let n = be_value(bytes);
        assert(n / 256 == be_value(bytes.drop_last()));
        assert(n % 256 == bytes.last() as nat);
        assert(bytes =~= bytes.drop_last().push(bytes.last()));
    } else {
        assert(bytes =~= seq![]);
    }
}

proof fn lemma_base36_reads_back(n: nat)
    ensures
        base36(n).len() > 0,
        base36_digit(base36(n)[0]) is Some,
        base36_digits(base36(n)) == Some(n),
    decreases n,
{
    reveal_with_fuel(base36_digits, 2);
    if n < 36 {
        assert(base36(n).drop_last() =~= seq![]);
    } else {
        lemma_base36_reads_back(n / 36);
        assert(base36(n).drop_last() =~= base36(n / 36));
        assert(base36(n)[0] == base36(n / 36)[0]);
    }
}

/// The text of a key names that key.
pub proof fn key_text_names_key(key: Seq<u8>)
    requires
        key.len() == KEY_BYTES,
    ensures
        named_key(key_text(key)) == Some(key),
{
    lemma_be_value_bound(key);
    lemma_be_bytes_of_value(key);
    lemma_base36_reads_back(be_value(key));
}

/// Two keys with one text are one key.
pub proof fn key_text_is_injective(a: Seq<u8>, b: Seq<u8>)
    requires
        a.len() == KEY_BYTES,
        b.len() == KEY_BYTES,
        key_text(a) == key_text(b),
    ensures
        a == b,
{
    key_text_names_key(a);
    key_text_names_key(b);
}

/// A text that names a key holds nothing but digits, underscores and a plus sign.
pub proof fn names_hold_no_other(s: Seq<char>, i: int)
    requires
        0 <= i < s.len(),
        base36_digit(s[i]) is None,
        s[i] != '_',
        s[i] != '+',
    ensures
        named_key(s) is None,
{
    let t = if s[0] == '+' {
        s.skip(1)
    } else {
        s
    };
    let j = if s[0] == '+' {
        i - 1
    } else {
        i
    };
    assert(t[j] == s[i]);
    lemma_other_stops_digits(t, j);
}

proof fn lemma_other_stops_digits(t: Seq<char>, i: int)
    requires
        0 <= i < t.len(),
        base36_digit(t[i]) is None,
        t[i] != '_',
    ensures
        base36_digits(t) is None,
    decreases t.len(),
{
    if i < t.len() - 1 {
        lemma_other_stops_digits(t.drop_last(), i);
    }
}

// ---------------------------------------------------------------------------
// Addresses
// ---------------------------------------------------------------------------

/// A wallet address: a public key.
#[derive(Debug, Clone, Copy)]
pub struct Address {
    pub key: [u8; 32],
}

impl View for Address {
    type V = Seq<u8>;

    open spec fn view(&self) -> Seq<u8> {
        self.key@
    }
}

/// `snap_coin::crypto::keys::Public::new_from_base36` reads a base-36 numeral, accepts it where
/// its number fits in the 32 bytes of a key, and pads the bytes with zeros in front;
/// `Public::dump_buf` hands those bytes out.
#[verifier::external_body]
fn public_from_base36(s: &str) -> (r: Option<[u8; 32]>)
    ensures
        match r {
            Some(key) => named_key(s@) == Some(key@),
            None => named_key(s@) is None,
        },
{
    snap_coin::crypto::keys::Public::new_from_base36(s).map(|p| *p.dump_buf())
}

/// `snap_coin::crypto::keys::Public::dump_base36` renders the number of the key's bytes in
/// base 36, in lower case and without leading zeros.
#[verifier::external_body]
fn public_to_base36(key: &[u8; 32]) -> (r: String)
    ensures
        r@ == key_text(key@),
{
    snap_coin::crypto::keys::Public::new_from_buf(key).dump_base36()
}

impl Address {
    /// The address that a base-36 text names, if it names one.
    pub fn new_from_base36(s: &str) -> (r: Option<Address>)
        ensures
            match r {
                Some(a) => named_key(s@) == Some(a@),
                None => named_key(s@) is None,
            },
    {
        match public_from_base36(s) {
            Some(key) => Some(Address { key }),
            None => None,
        }
    }

    /// The base-36 text of this address.
    pub fn dump_base36(&self) -> (r: String)
        ensures
            r@ == key_text(self@),
    {
        public_to_base36(&self.key)
    }

    /// Whether the two addresses are one.
    pub fn same(&self, other: &Address) -> (r: bool)
        ensures
            r == (self@ == other@),
    {
        let mut i: usize = 0;
        while i < 32
            invariant
                i <= 32,
                forall|j: int| 0 <= j < i ==> self.key@[j] == other.key@[j],
            decreases 32 - i,
        {
            if self.key[i] != other.key[i] {
                return false;
            }
            i += 1;
        }
        assert(self@ =~= other@);
        true
    }
}

// ---------------------------------------------------------------------------
// Transaction ids
// ---------------------------------------------------------------------------

/// A transaction id: the hash of a transaction.
#[derive(Debug, Clone, Copy)]
pub struct TxId {
    pub hash: [u8; 32],
}

impl View for TxId {
    type V = Seq<u8>;

    open spec fn view(&self) -> Seq<u8> {
        self.hash@
    }
}

/// `snap_coin::core::transaction::TransactionId::new_from_base36` reads a base-36 numeral,
/// accepts it where its number fits in the 32 bytes of a hash, and pads the bytes with zeros in
/// front; `TransactionId::dump_buf` hands those bytes out.
#[verifier::external_body]
fn hash_from_base36(s: &str) -> (r: Option<[u8; 32]>)
    ensures
        match r {
            Some(hash) => named_key(s@) == Some(hash@),
            None => named_key(s@) is None,
        },
{
    snap_coin::core::transaction::TransactionId::new_from_base36(s).map(|h| h.dump_buf())
}

/// `snap_coin::core::transaction::TransactionId::dump_base36` renders the number of the hash's
/// bytes in base 36, in lower case and without leading zeros.
#[verifier::external_body]
fn hash_to_base36(hash: &[u8; 32]) -> (r: String)
    ensures
        r@ == key_text(hash@),
{
    snap_coin::core::transaction::TransactionId::new_from_buf(*hash).dump_base36()
}

/// Whether a text names a transaction.
pub open spec fn names_tx(s: Seq<char>) -> bool {
    named_key(s) is Some
}

impl TxId {
    /// The transaction id that a base-36 text names, if it names one.
    pub fn new_from_base36(s: &str) -> (r: Option<TxId>)
        ensures
            match r {
                Some(t) => named_key(s@) == Some(t@),
                None => named_key(s@) is None,
            },
    {
        match hash_from_base36(s) {
            Some(hash) => Some(TxId { hash }),
            None => None,
        }
    }

    /// The base-36 text of this transaction id.
    pub fn dump_base36(&self) -> (r: String)
        ensures
            r@ == key_text(self@),
    {
        hash_to_base36(&self.hash)
    }
}

} // verus!
