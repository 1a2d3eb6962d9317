//! Amounts as text, and differences between them.

use vstd::prelude::*;
use vstd::string::*;

use crate::text::{
    all_digits, decimal, decimal_lacks, decimal_reads_back, decimal_value, digits_add_up,
    digits_are_kept, digits_in, fixed_digits, fixed_digits_read_back, grouped,
    grouped_is_injective, grouped_lacks, grouped_text, grouping_brings_in_commas,
    marks_hold_no_digit, numerals_are_digits, numerals_are_positional, split_is_unique,
    trim_zeros, trimmed_fixed_text, trimming_drops_zeros, zeros_move_up,
};

verus! {

/// A part of a whole.
#[derive(Debug, Clone, Copy, PartialEq, Eq)]
pub struct Ratio {
    pub part: u64,
    pub whole: u64,
}

/// How many atomic units make one coin.
pub const ATOMIC_PER_COIN: u64 = 100_000_000;

/// An amount in coins: the whole part in groups of three digits, and at least two and at most
/// eight decimals without trailing zeros.
pub open spec fn snap_text(atomic: u64) -> Seq<char> {
    grouped(decimal(atomic as nat / ATOMIC_PER_COIN as nat)) + "."@ + trim_zeros(
        fixed_digits(atomic as nat % ATOMIC_PER_COIN as nat, 8),
        2,
    )
}

/// Renders atomic units in coins.
pub fn atomic_to_snap_string(atomic: u64) -> (r: String)
    ensures
        r@ == snap_text(atomic),
{
    let mut s = grouped_text(atomic / ATOMIC_PER_COIN);
    let frac = trimmed_fixed_text(atomic % ATOMIC_PER_COIN, 8, 2);
    s.append(".");
    s.append(frac.as_str());
    s
}

/// The growth from `from` to `to`: their difference, held within a signed number of 64 bits.
pub open spec fn growth(from: u64, to: u64) -> int {
    let d = to as int - from as int;
    if d > i64::MAX {
        i64::MAX as int
    } else if d < i64::MIN {
        i64::MIN as int
    } else {
        d
    }
}

/// How far a signed number is from zero.
pub open spec fn magnitude(d: int) -> u64 {
    if d < 0 {
        (-d) as u64
    } else {
        d as u64
    }
}

/// A difference in coins, with its sign.
pub open spec fn signed_snap_text(d: int) -> Seq<char> {
    (if d < 0 {
        "-"@
    } else {
        "+"@
    }) + snap_text(magnitude(d))
}

/// The growth from `from` to `to`.
pub fn signed_growth(from: u64, to: u64) -> (r: i64)
    ensures
        r == growth(from, to),
{
    let d: i128 = to as i128 - from as i128;
    if d > i64::MAX as i128 {
        i64::MAX
    } else if d < i64::MIN as i128 {
        i64::MIN
    } else {
        d as i64
    }
}

/// Renders a difference in coins, with its sign.
pub fn signed_snap_string(d: i64) -> (r: String)
    ensures
        r@ == signed_snap_text(d as int),
{
    let size: u64 = if d < 0 {
        (-(d as i128)) as u64
    } else {
        d as u64
    };
    let mut s = String::new();
    if d < 0 {
        s.append("-");
    } else {
        s.append("+");
    }
    let amount = atomic_to_snap_string(size);
    s.append(amount.as_str());
    assert(s@ =~= signed_snap_text(d as int));
    s
}

/// Where the difference fits a signed number of 64 bits, the growth is the difference.
pub proof fn growth_is_the_difference(from: u64, to: u64)
    requires
        i64::MIN <= to - from <= i64::MAX,
    ensures
        growth(from, to) == to - from,
{
}

/// Two amounts with one text are one amount.
pub proof fn snap_text_is_injective(a: u64, b: u64)
    requires
        snap_text(a) == snap_text(b),
    ensures
        a == b,
{
    let coin = ATOMIC_PER_COIN as nat;
    let (wa, fa) = (a as nat / coin, a as nat % coin);
    let (wb, fb) = (b as nat / coin, b as nat % coin);
    let (ga, gb) = (grouped(decimal(wa)), grouped(decimal(wb)));
    let (ta, tb) = (trim_zeros(fixed_digits(fa, 8), 2), trim_zeros(fixed_digits(fb, 8), 2));
    reveal_strlit(".");
    assert("."@ =~= seq!['.']);
    decimal_lacks(wa, '.');
    decimal_lacks(wb, '.');
    decimal_lacks(wa, ',');
    decimal_lacks(wb, ',');
    grouped_lacks(decimal(wa), '.');
    grouped_lacks(decimal(wb), '.');
    let none = Seq::<char>::empty();
    assert(none + ga + seq!['.'] + ta =~= snap_text(a));
    assert(none + gb + seq!['.'] + tb =~= snap_text(b));
    split_is_unique('.', none, ga, ta, gb, tb);
    grouped_is_injective(decimal(wa), decimal(wb));
    decimal_reads_back(wa);
    decimal_reads_back(wb);
    trimming_drops_zeros(fixed_digits(fa, 8), 2);
    trimming_drops_zeros(fixed_digits(fb, 8), 2);
    assert(vstd::arithmetic::power::pow(10, 8) == 100_000_000) by {
        reveal_with_fuel(vstd::arithmetic::power::pow, 9);
    }
    fixed_digits_read_back(fa, 8);
    fixed_digits_read_back(fb, 8);
}

proof fn lemma_trimmed(s: Seq<char>, keep: nat)
    requires
        s.len() >= keep,
    ensures
        trim_zeros(s, keep).len() >= keep,
        trim_zeros(s, keep).len() > keep ==> trim_zeros(s, keep).last() != '0',
    decreases s.len(),
{
    if s.len() > keep && s.last() == '0' {
        lemma_trimmed(s.drop_last(), keep);
    }
}

/// The text of an amount, read as a decimal number of coins, is the amount: its digits are those of
/// the number of atomic units, as far as the decimals go, of which there are two to eight. A comma
/// stands before every third digit of the whole coins, and no zero ends more than two decimals.
pub proof fn snap_text_reads_as_the_amount(atomic: u64) -> (dot: int)
    ensures
        0 < dot < snap_text(atomic).len(),
        snap_text(atomic)[dot] == '.',
        2 <= snap_text(atomic).len() - 1 - dot <= 8,
        decimal_value(digits_in(snap_text(atomic))) * vstd::arithmetic::power::pow(
            10,
            (8 - (snap_text(atomic).len() - 1 - dot)) as nat,
        ) == atomic,
        snap_text(atomic).len() - 1 - dot > 2 ==> snap_text(atomic).last() != '0',
        forall|i: int|
            0 <= i < dot ==> (#[trigger] snap_text(atomic)[i] == ',' <==> (dot - i) % 4 == 0),
        snap_text(atomic)[0] == '0' ==> dot == 1,
{
    let coin = ATOMIC_PER_COIN as nat;
    let (whole, part) = (atomic as nat / coin, atomic as nat % coin);
    let head = decimal(whole);
    let fixed = fixed_digits(part, 8);
    let tail = trim_zeros(fixed, 2);
    let t = snap_text(atomic);
    reveal_strlit(".");
    assert("."@ =~= seq!['.']);
    assert(vstd::arithmetic::power::pow(10, 8) == 100_000_000) by {
        reveal_with_fuel(vstd::arithmetic::power::pow, 9);
    }
    numerals_are_digits(whole, 0);
    numerals_are_digits(part, 8);
    decimal_reads_back(whole);
    fixed_digits_read_back(part, 8);
    lemma_trimmed(fixed, 2);
    trimming_drops_zeros(fixed, 2);
    grouping_brings_in_commas(head);
    let k = (8 - tail.len()) as nat;
    let zeros = Seq::new(k, |i: int| '0');
    assert(fixed == tail + zeros);
    assert(all_digits(tail)) by {
        assert forall|i: int| 0 <= i < tail.len() implies '0' <= #[trigger] tail[i] <= '9' by {
            assert(fixed[i] == tail[i]);
        }
    }
    digits_are_kept(tail);
    digits_add_up(grouped(head) + "."@, tail);
    digits_add_up(grouped(head), "."@);
    marks_hold_no_digit('.');
    assert(digits_in(t) =~= head + tail);
    zeros_move_up(head + tail, k);
    assert((head + tail) + zeros =~= head + fixed);
    numerals_are_positional(head, fixed);
    assert(decimal_value(head + fixed) == whole * 100_000_000 + part);
    let dot = grouped(head).len() as int;
    assert(t[dot] == '.');
    assert forall|i: int| 0 <= i < dot implies (#[trigger] t[i] == ',' <==> (dot - i) % 4 == 0) by {
        assert(t[i] == grouped(head)[i]);
    }
    assert(t.last() == tail.last());
    assert(t[0] == grouped(head)[0]);
    if t[0] == '0' {
        assert(whole == 0);
        assert(decimal(0).len() == 1);
    }
    dot
}

/// A difference is rendered as its sign and the text of its size.
pub proof fn signed_snap_text_shows_the_sign(d: i64)
    ensures
        d < 0 ==> signed_snap_text(d as int) == "-"@ + snap_text((-d) as u64),
        d >= 0 ==> signed_snap_text(d as int) == "+"@ + snap_text(d as u64),
{
}

} // verus!
