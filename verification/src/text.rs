//! Text helpers: decimal rendering, grouping, padding, trimming and case folding.

use vstd::prelude::*;
use vstd::string::*;

verus! {

/// `String::push` appends one character to the end of the string.
pub assume_specification[ String::push ](s: &mut String, c: char)
    ensures
        final(s)@ == old(s)@.push(c),
;

// ---------------------------------------------------------------------------
// Decimal numerals
// ---------------------------------------------------------------------------

/// The character of a decimal digit.
pub open spec fn digit_char(d: nat) -> char {
    (48 + d) as char
}

/// The decimal numeral of `n`, without leading zeros.
pub open spec fn decimal(n: nat) -> Seq<char>
    decreases n,
{
    if n < 10 {
        seq![digit_char(n)]
    } else {
        decimal(n / 10).push(digit_char(n % 10))
    }
}

/// The last `width` decimal digits of `n`, padded with zeros on the left.
pub open spec fn fixed_digits(n: nat, width: nat) -> Seq<char>
    decreases width,
{
    if width == 0 {
        seq![]
    } else {
        fixed_digits(n / 10, (width - 1) as nat).push(digit_char(n % 10))
    }
}

/// Splits a numeral into groups of three from the right, with commas between them.
pub open spec fn grouped(s: Seq<char>) -> Seq<char>
    decreases s.len(),
{
    if s.len() <= 3 {
        s
    } else {
        grouped(s.take(s.len() - 3)) + seq![','] + s.skip(s.len() - 3)
    }
}

/// Drops trailing zeros as long as more than `keep` characters are left.
pub open spec fn trim_zeros(s: Seq<char>, keep: nat) -> Seq<char>
    decreases s.len(),
{
    if s.len() > keep && s.last() == '0' {
        trim_zeros(s.drop_last(), keep)
    } else {
        s
    }
}

/// The character of a digit below ten.
fn digit(d: u64) -> (c: char)
    requires
        d < 10,
    ensures
        c == digit_char(d as nat),
{
    (48u8 + d as u8) as char
}

/// Renders `n` in decimal.
pub fn decimal_text(n: u64) -> (r: String)
    ensures
        r@ == decimal(n as nat),
    decreases n,
{
    if n < 10 {
        let mut s = String::new();
        s.push(digit(n));
        assert(s@ =~= seq![digit_char(n as nat)]);
        s
    } else {
        let mut s = decimal_text(n / 10);
        s.push(digit(n % 10));
        s
    }
}

/// Renders the last `width` decimal digits of `n`.
pub fn fixed_text(n: u64, width: u64) -> (r: String)
    ensures
        r@ == fixed_digits(n as nat, width as nat),
    decreases width,
{
    if width == 0 {
        let s = String::new();
        assert(s@ =~= seq![]);
        s
    } else {
        let mut s = fixed_text(n / 10, width - 1);
        s.push(digit(n % 10));
        s
    }
}

/// The last three digits split off a numeral of four digits or more.
proof fn lemma_decimal_split(n: nat)
    requires
        n >= 1000,
    ensures
        decimal(n) =~= decimal(n / 1000) + fixed_digits(n % 1000, 3),
{
    reveal_with_fuel(decimal, 4);
    reveal_with_fuel(fixed_digits, 4);
    let a = n / 10;
    let b = a / 10;
    assert(b / 10 == n / 1000);
    let m = n % 1000;
    assert(n % 10 == m % 10);
    assert(a % 10 == (m / 10) % 10);
    assert(b % 10 == (m / 100) % 10);
    assert((m / 10) / 10 == m / 100);
}

proof fn lemma_fixed_digits_len(n: nat, width: nat)
    ensures
        fixed_digits(n, width).len() == width,
    decreases width,
{
    if width > 0 {
        lemma_fixed_digits_len(n / 10, (width - 1) as nat);
    }
}

proof fn lemma_decimal_len(n: nat)
    ensures
        decimal(n).len() >= 1,
        n < 1000 ==> decimal(n).len() <= 3,
    decreases n,
{
    reveal_with_fuel(decimal, 4);
    if n >= 10 {
        lemma_decimal_len(n / 10);
    }
}

/// Renders `n` in decimal with a comma before every third digit from the right.
pub fn grouped_text(n: u64) -> (r: String)
    ensures
        r@ == grouped(decimal(n as nat)),
    decreases n,
{
    if n < 1000 {
        proof {
            lemma_decimal_len(n as nat);
        }
        decimal_text(n)
    } else {
        let mut s = grouped_text(n / 1000);
        let tail = fixed_text(n % 1000, 3);
        s.push(',');
        s.append(tail.as_str());
        proof {
            lemma_decimal_split(n as nat);
            lemma_fixed_digits_len((n % 1000) as nat, 3);
            lemma_decimal_len((n / 1000) as nat);
            let whole = decimal(n as nat);
            let head = decimal((n / 1000) as nat);
            assert(whole.take(whole.len() - 3) =~= head);
            assert(whole.skip(whole.len() - 3) =~= fixed_digits((n % 1000) as nat, 3));
            assert(s@ =~= grouped(head) + seq![','] + fixed_digits((n % 1000) as nat, 3));
        }
        s
    }
}

/// Renders the `width` decimal digits of `n`, less the trailing zeros beyond the first `keep`.
pub fn trimmed_fixed_text(n: u64, width: u64, keep: u64) -> (r: String)
    ensures
        r@ == trim_zeros(fixed_digits(n as nat, width as nat), keep as nat),
{
    let mut m: u64 = n;
    let mut w: u64 = width;
    proof {
        lemma_fixed_digits_len(m as nat, w as nat);
    }
    while w > keep && m % 10 == 0
        invariant
            trim_zeros(fixed_digits(m as nat, w as nat), keep as nat) == trim_zeros(
                fixed_digits(n as nat, width as nat),
                keep as nat,
            ),
        decreases w,
    {
        proof {
            lemma_fixed_digits_len(m as nat, w as nat);
            assert(fixed_digits(m as nat, w as nat).drop_last() =~= fixed_digits(
                (m / 10) as nat,
                (w - 1) as nat,
            ));
        }
        m = m / 10;
        w = w - 1;
    }
    proof {
        lemma_fixed_digits_len(m as nat, w as nat);
        assert(w > 0 && m % 10 != 0 ==> fixed_digits(m as nat, w as nat).last() != '0');
    }
    fixed_text(m, w)
}

// ---------------------------------------------------------------------------
// Characters
// ---------------------------------------------------------------------------

/// A control character: general category Cc.
pub open spec fn control(c: char) -> bool {
    c as u32 <= 0x1f || 0x7f <= c as u32 <= 0x9f
}

/// A character with the Unicode property White_Space.
pub open spec fn white_space(c: char) -> bool {
    let u = c as u32;
    ||| 0x9 <= u <= 0xd
    ||| u == 0x20
    ||| u == 0x85
    ||| u == 0xa0
    ||| u == 0x1680
    ||| 0x2000 <= u <= 0x200a
    ||| u == 0x2028
    ||| u == 0x2029
    ||| u == 0x202f
    ||| u == 0x205f
    ||| u == 0x3000
}

/// The lower-case form of an ASCII letter; any other character is kept.
pub open spec fn lower(c: char) -> char {
    if 'A' <= c <= 'Z' {
        (c as u32 + 32) as char
    } else {
        c
    }
}

/// Lower-cases every ASCII letter.
pub open spec fn lower_text(s: Seq<char>) -> Seq<char> {
    Seq::new(s.len(), |i: int| lower(s[i]))
}

/// Drops leading white space.
pub open spec fn trim_start(s: Seq<char>) -> Seq<char>
    decreases s.len(),
{
    if s.len() > 0 && white_space(s[0]) {
        trim_start(s.skip(1))
    } else {
        s
    }
}

/// Drops trailing white space.
pub open spec fn trim_end(s: Seq<char>) -> Seq<char>
    decreases s.len(),
{
    if s.len() > 0 && white_space(s.last()) {
        trim_end(s.drop_last())
    } else {
        s
    }
}

/// Drops leading and trailing white space.
pub open spec fn trim(s: Seq<char>) -> Seq<char> {
    trim_end(trim_start(s))
}

/// Whether `c` is a control character.
pub fn is_control(c: char) -> (r: bool)
    ensures
        r == control(c),
{
    let u: u32 = c as u32;
    u <= 0x1f || (0x7f <= u && u <= 0x9f)
}

/// Whether `c` is white space.
pub fn is_white_space(c: char) -> (r: bool)
    ensures
        r == white_space(c),
{
    let u: u32 = c as u32;
    (0x9 <= u && u <= 0xd) || u == 0x20 || u == 0x85 || u == 0xa0 || u == 0x1680 || (0x2000 <= u
        && u <= 0x200a) || u == 0x2028 || u == 0x2029 || u == 0x202f || u == 0x205f || u == 0x3000
}

/// The characters of a text.
pub fn chars_of(s: &str) -> (r: Vec<char>)
    ensures
        r@ == s@,
{
    let mut out: Vec<char> = Vec::new();
    for c in it: s.chars()
        invariant
            it.seq() == s@,
            out@ == s@.take(it.index()),
    {
        out.push(c);
        assert(s@.take(it.index() + 1) =~= s@.take(it.index()).push(s@[it.index()]));
    }
    assert(s@.take(s@.len() as int) =~= s@);
    out
}

/// The text of the characters from `from` up to `to`.
pub fn text_of(chars: &Vec<char>, from: usize, to: usize) -> (r: String)
    requires
        from <= to <= chars.len(),
    ensures
        r@ == chars@.subrange(from as int, to as int),
{
    let mut out = String::new();
    let mut i: usize = from;
    assert(chars@.subrange(from as int, from as int) =~= seq![]);
    while i < to
        invariant
            from <= i <= to <= chars.len(),
            out@ == chars@.subrange(from as int, i as int),
        decreases to - i,
    {
        out.push(chars[i]);
        assert(chars@.subrange(from as int, i + 1) =~= chars@.subrange(from as int, i as int).push(
            chars@[i as int],
        ));
        i += 1;
    }
    out
}

/// Lower-cases the ASCII letters of a text.
pub fn ascii_lowercase(s: &str) -> (r: String)
    ensures
        r@ == lower_text(s@),
{
    let chars = chars_of(s);
    let mut out = String::new();
    let mut i: usize = 0;
    assert(out@ =~= lower_text(s@).take(0));
    while i < chars.len()
        invariant
            i <= chars.len(),
            chars@ == s@,
            out@ == lower_text(s@).take(i as int),
        decreases chars.len() - i,
    {
        let c = chars[i];
        if 'A' <= c && c <= 'Z' {
            out.push((c as u8 + 32u8) as char);
        } else {
            out.push(c);
        }
        assert(lower_text(s@).take(i + 1) =~= lower_text(s@).take(i as int).push(lower(s@[i as int])));
        i += 1;
    }
    assert(lower_text(s@).take(s@.len() as int) =~= lower_text(s@));
    out
}

/// Drops the leading and trailing white space of the characters from `from` up to `to`.
pub fn trimmed(chars: &Vec<char>, from: usize, to: usize) -> (r: String)
    requires
        from <= to <= chars.len(),
    ensures
        r@ == trim(chars@.subrange(from as int, to as int)),
{
    let mut lo: usize = from;
    let mut hi: usize = to;
    while lo < hi && is_white_space(chars[lo])
        invariant
            from <= lo <= hi,
            hi == to,
            to <= chars.len(),
            trim_start(chars@.subrange(lo as int, to as int)) == trim_start(
                chars@.subrange(from as int, to as int),
            ),
        decreases hi - lo,
    {
        assert(chars@.subrange(lo as int, to as int).skip(1) =~= chars@.subrange(
            lo + 1,
            to as int,
        ));
        lo += 1;
    }
    assert(trim_start(chars@.subrange(from as int, to as int)) == chars@.subrange(
        lo as int,
        to as int,
    ));
    while lo < hi && is_white_space(chars[hi - 1])
        invariant
            from <= lo <= hi <= to <= chars.len(),
            trim_end(chars@.subrange(lo as int, hi as int)) == trim_end(
                chars@.subrange(lo as int, to as int),
            ),
        decreases hi - lo,
    {
        assert(chars@.subrange(lo as int, hi as int).drop_last() =~= chars@.subrange(
            lo as int,
            hi - 1,
        ));
        hi -= 1;
    }
    text_of(chars, lo, hi)
}

/// Whether `s` begins with `prefix`.
pub open spec fn begins_with(s: Seq<char>, prefix: Seq<char>) -> bool {
    prefix.len() <= s.len() && s.take(prefix.len() as int) == prefix
}

/// Whether the characters begin with `prefix`.
pub fn has_prefix(chars: &Vec<char>, prefix: &Vec<char>) -> (r: bool)
    ensures
        r == begins_with(chars@, prefix@),
{
    if prefix.len() > chars.len() {
        return false;
    }
    let mut i: usize = 0;
    while i < prefix.len()
        invariant
            i <= prefix.len() <= chars.len(),
            forall|j: int| 0 <= j < i ==> chars@[j] == prefix@[j],
        decreases prefix.len() - i,
    {
        if chars[i] != prefix[i] {
            assert(chars@.take(prefix@.len() as int)[i as int] != prefix@[i as int]);
            return false;
        }
        i += 1;
    }
    assert(chars@.take(prefix@.len() as int) =~= prefix@);
    true
}

// ---------------------------------------------------------------------------
// Numerals can be read back
// ---------------------------------------------------------------------------

/// The number that a decimal numeral stands for.
pub open spec fn decimal_value(s: Seq<char>) -> nat
    decreases s.len(),
{
    if s.len() == 0 {
        0
    } else {
        decimal_value(s.drop_last()) * 10 + (s.last() as nat - 48) as nat
    }
}

/// Reading a decimal numeral gives back the number that was rendered.
pub proof fn decimal_reads_back(n: nat)
    ensures
        decimal_value(decimal(n)) == n,
    decreases n,
{
    reveal_with_fuel(decimal_value, 2);
    if n >= 10 {
        decimal_reads_back(n / 10);
        assert(decimal(n).drop_last() =~= decimal(n / 10));
    } else {
        assert(decimal(n).drop_last() =~= seq![]);
    }
}

/// The last digits of a number, read back, are its remainder.
pub proof fn fixed_digits_read_back(n: nat, width: nat)
    ensures
        fixed_digits(n, width).len() == width,
        n < vstd::arithmetic::power::pow(10, width) ==> decimal_value(fixed_digits(n, width)) == n,
    decreases width,
{
    reveal(vstd::arithmetic::power::pow);
    if width > 0 {
        fixed_digits_read_back(n / 10, (width - 1) as nat);
        assert(fixed_digits(n, width).drop_last() =~= fixed_digits(n / 10, (width - 1) as nat));
    }
}

// ---------------------------------------------------------------------------
// Texts can be taken apart
// ---------------------------------------------------------------------------

/// Whether a text lacks a character.
pub open spec fn lacks(s: Seq<char>, c: char) -> bool {
    forall|i: int| 0 <= i < s.len() ==> #[trigger] s[i] != c
}

/// Behind a common beginning, a text splits at the first place of a character in one way only.
pub proof fn split_is_unique(
    c: char,
    p: Seq<char>,
    s: Seq<char>,
    a: Seq<char>,
    t: Seq<char>,
    b: Seq<char>,
)
    requires
        lacks(s, c),
        lacks(t, c),
        p + s + seq![c] + a == p + t + seq![c] + b,
    ensures
        s == t,
        a == b,
{
    let x = p + s + seq![c] + a;
    let y = p + t + seq![c] + b;
    assert(x[(p.len() + s.len()) as int] == c);
    assert(y[(p.len() + t.len()) as int] == c);
    if s.len() < t.len() {
        assert(y[(p.len() + s.len()) as int] == t[s.len() as int]);
    }
    if t.len() < s.len() {
        assert(x[(p.len() + t.len()) as int] == s[t.len() as int]);
    }
    assert forall|i: int| 0 <= i < s.len() implies s[i] == t[i] by {
        assert(x[p.len() + i] == s[i]);
        assert(y[p.len() + i] == t[i]);
    }
    assert(s =~= t);
    let at = (p.len() + s.len() + 1) as int;
    assert(a =~= x.skip(at));
    assert(b =~= y.skip(at));
}

/// Decimal numerals consist of digits.
pub proof fn decimal_lacks(n: nat, c: char)
    requires
        !('0' <= c <= '9'),
    ensures
        lacks(decimal(n), c),
    decreases n,
{
    if n >= 10 {
        decimal_lacks(n / 10, c);
    }
}

proof fn lemma_grouped_len(s: Seq<char>)
    ensures
        grouped(s).len() >= s.len(),
    decreases s.len(),
{
    if s.len() > 3 {
        lemma_grouped_len(s.take(s.len() - 3));
    }
}

/// Grouping brings in nothing but commas.
pub proof fn grouped_lacks(s: Seq<char>, c: char)
    requires
        lacks(s, c),
        c != ',',
    ensures
        lacks(grouped(s), c),
    decreases s.len(),
{
    if s.len() > 3 {
        let head = s.take(s.len() - 3);
        assert forall|i: int| 0 <= i < head.len() implies #[trigger] head[i] != c by {
            assert(s[i] != c);
        }
        grouped_lacks(head, c);
        let tail = s.skip(s.len() - 3);
        let g = grouped(s);
        let n = grouped(head).len() as int;
        assert forall|i: int| 0 <= i < g.len() implies #[trigger] g[i] != c by {
            if i < n {
                assert(g[i] == grouped(head)[i]);
            } else if i > n {
                assert(g[i] == tail[i - n - 1]);
                assert(tail[i - n - 1] == s[s.len() - 3 + (i - n - 1)]);
            }
        }
    }
}

/// Two texts that look the same in groups are the same.
pub proof fn grouped_is_injective(s: Seq<char>, t: Seq<char>)
    requires
        grouped(s) == grouped(t),
        lacks(s, ','),
        lacks(t, ','),
    ensures
        s == t,
    decreases s.len(),
{
    lemma_grouped_len(s);
    lemma_grouped_len(t);
    if s.len() > 3 {
        lemma_grouped_len(s.take(s.len() - 3));
    }
    if t.len() > 3 {
        lemma_grouped_len(t.take(t.len() - 3));
    }
    if s.len() > 3 && t.len() > 3 {
        let (a, b) = (s.take(s.len() - 3), t.take(t.len() - 3));
        let (c, d) = (s.skip(s.len() - 3), t.skip(t.len() - 3));
        let g = grouped(s);
        assert(grouped(a) =~= g.take(g.len() - 4));
        assert(grouped(b) =~= grouped(t).take(g.len() - 4));
        assert(c =~= g.skip(g.len() - 3));
        assert(d =~= grouped(t).skip(g.len() - 3));
        assert(lacks(a, ',')) by {
            assert forall|i: int| 0 <= i < a.len() implies #[trigger] a[i] != ',' by {
                assert(s[i] != ',');
            }
        }
        assert(lacks(b, ',')) by {
            assert forall|i: int| 0 <= i < b.len() implies #[trigger] b[i] != ',' by {
                assert(t[i] != ',');
            }
        }
        grouped_is_injective(a, b);
        assert(s =~= a + c);
        assert(t =~= b + d);
    }
}

/// Trimming drops nothing but zeros.
pub proof fn trimming_drops_zeros(s: Seq<char>, keep: nat)
    ensures
        trim_zeros(s, keep).len() <= s.len(),
        s == trim_zeros(s, keep) + Seq::new(
            (s.len() - trim_zeros(s, keep).len()) as nat,
            |i: int| '0',
        ),
    decreases s.len(),
{
    let r = trim_zeros(s, keep);
    if s.len() > keep && s.last() == '0' {
        trimming_drops_zeros(s.drop_last(), keep);
        let more = Seq::new((s.len() - r.len()) as nat, |i: int| '0');
        let less = Seq::new((s.len() - 1 - r.len()) as nat, |i: int| '0');
        assert(s =~= s.drop_last().push('0'));
        assert(more =~= less.push('0'));
        assert(r + less.push('0') =~= (r + less).push('0'));
    } else {
        assert(s =~= r + Seq::new(0, |i: int| '0'));
    }
}

// ---------------------------------------------------------------------------
// Numerals can be read in texts
// ---------------------------------------------------------------------------

/// The digits in a text, one after the other.
pub open spec fn digits_in(s: Seq<char>) -> Seq<char> {
    s.filter(|c: char| '0' <= c <= '9')
}

/// Whether a text consists of digits.
pub open spec fn all_digits(s: Seq<char>) -> bool {
    forall|i: int| 0 <= i < s.len() ==> '0' <= #[trigger] s[i] <= '9'
}

/// The digits in a text of digits are the text.
pub proof fn digits_are_kept(s: Seq<char>)
    requires
        all_digits(s),
    ensures
        digits_in(s) == s,
    decreases s.len(),
{
    reveal(Seq::filter);
    if s.len() > 0 {
        let rest = s.drop_last();
        assert forall|i: int| 0 <= i < rest.len() implies '0' <= #[trigger] rest[i] <= '9' by {
            assert(rest[i] == s[i]);
        }
        digits_are_kept(rest);
        assert(s[s.len() - 1] == s.last());
        assert(s =~= rest.push(s.last()));
    }
}

/// The digits in two texts are those in the one, then those in the other.
pub proof fn digits_add_up(a: Seq<char>, b: Seq<char>)
    ensures
        digits_in(a + b) == digits_in(a) + digits_in(b),
{
    Seq::filter_distributes_over_add(a, b, |c: char| '0' <= c <= '9');
}

/// A mark that is no digit holds none.
pub proof fn marks_hold_no_digit(c: char)
    requires
        !('0' <= c <= '9'),
    ensures
        digits_in(seq![c]) == Seq::<char>::empty(),
{
    reveal(Seq::filter);
    let mark = seq![c];
    assert(mark.drop_last() =~= Seq::<char>::empty());
    assert(mark.last() == c);
    assert(mark.drop_last().filter(|c: char| '0' <= c <= '9') =~= Seq::<char>::empty());
}

/// Numerals consist of digits.
pub proof fn numerals_are_digits(n: nat, width: nat)
    ensures
        all_digits(decimal(n)),
        all_digits(fixed_digits(n, width)),
        decimal(n).len() > 0,
        n > 0 ==> decimal(n)[0] != '0',
    decreases n, width,
{
    if n >= 10 {
        numerals_are_digits(n / 10, 0);
    }
    lemma_fixed_are_digits(n, width);
}

proof fn lemma_fixed_are_digits(n: nat, width: nat)
    ensures
        all_digits(fixed_digits(n, width)),
    decreases width,
{
    if width > 0 {
        lemma_fixed_are_digits(n / 10, (width - 1) as nat);
    }
}

/// A numeral behind another one moves it up by its own length.
pub proof fn numerals_are_positional(a: Seq<char>, b: Seq<char>)
    ensures
        decimal_value(a + b) == decimal_value(a) * vstd::arithmetic::power::pow(10, b.len())
            + decimal_value(b),
    decreases b.len(),
{
    reveal(vstd::arithmetic::power::pow);
    if b.len() == 0 {
        assert(a + b =~= a);
    } else {
        let rest = b.drop_last();
        numerals_are_positional(a, rest);
        assert((a + b).drop_last() =~= a + rest);
        assert((a + b).last() == b.last());
        let (x, y) = (decimal_value(a) as int, vstd::arithmetic::power::pow(10, rest.len()));
        assert((x * y) * 10 == x * (10 * y)) by (nonlinear_arith);
    }
}

/// Zeros behind a numeral move it up by their number.
pub proof fn zeros_move_up(a: Seq<char>, k: nat)
    ensures
        decimal_value(a + Seq::new(k, |i: int| '0')) == decimal_value(a)
            * vstd::arithmetic::power::pow(10, k),
{
    let zeros = Seq::new(k, |i: int| '0');
    numerals_are_positional(a, zeros);
    lemma_zeros(zeros);
}

proof fn lemma_zeros(zeros: Seq<char>)
    requires
        forall|i: int| 0 <= i < zeros.len() ==> #[trigger] zeros[i] == '0',
    ensures
        decimal_value(zeros) == 0,
    decreases zeros.len(),
{
    if zeros.len() > 0 {
        let rest = zeros.drop_last();
        assert forall|i: int| 0 <= i < rest.len() implies #[trigger] rest[i] == '0' by {
            assert(rest[i] == zeros[i]);
        }
        lemma_zeros(rest);
        assert(zeros[zeros.len() - 1] == zeros.last());
    }
}

/// Grouping leaves the digits as they are, and brings in a comma before every third digit from the
/// right.
pub proof fn grouping_brings_in_commas(s: Seq<char>)
    requires
        all_digits(s),
    ensures
        digits_in(grouped(s)) == s,
        forall|i: int|
            0 <= i < grouped(s).len() ==> (#[trigger] grouped(s)[i] == ',' <==> (grouped(s).len()
                - i) % 4 == 0),
        s.len() > 0 ==> grouped(s)[0] == s[0],
        grouped(s).len() >= s.len(),
    decreases s.len(),
{
    let g = grouped(s);
    if s.len() > 3 {
        let head = s.take(s.len() - 3);
        let tail = s.skip(s.len() - 3);
        assert(all_digits(head)) by {
            assert forall|i: int| 0 <= i < head.len() implies '0' <= #[trigger] head[i] <= '9' by {
                assert(head[i] == s[i]);
            }
        }
        assert(all_digits(tail)) by {
            assert forall|i: int| 0 <= i < tail.len() implies '0' <= #[trigger] tail[i] <= '9' by {
                assert(tail[i] == s[s.len() - 3 + i]);
            }
        }
        grouping_brings_in_commas(head);
        digits_are_kept(tail);
        digits_add_up(grouped(head) + seq![','], tail);
        digits_add_up(grouped(head), seq![',']);
        marks_hold_no_digit(',');
        assert(digits_in(g) =~= s);
        let n = grouped(head).len() as int;
        assert forall|i: int| 0 <= i < g.len() implies (#[trigger] g[i] == ',' <==> (g.len() - i)
            % 4 == 0) by {
            if i < n {
                assert(g[i] == grouped(head)[i]);
                assert((g.len() - i) % 4 == (n - i) % 4);
            } else if i > n {
                assert(g[i] == tail[i - n - 1]);
            }
        }
        assert(g[0] == grouped(head)[0]);
    } else {
        digits_are_kept(s);
    }
}

// ---------------------------------------------------------------------------
// Trimming
// ---------------------------------------------------------------------------

proof fn lemma_trim_start(a: Seq<char>, s: Seq<char>)
    requires
        forall|i: int| 0 <= i < a.len() ==> white_space(#[trigger] a[i]),
        s.len() > 0 ==> !white_space(s[0]),
    ensures
        trim_start(a + s) == s,
    decreases a.len(),
{
    if a.len() > 0 {
        assert((a + s)[0] == a[0]);
        assert((a + s).skip(1) =~= a.skip(1) + s);
        assert forall|i: int| 0 <= i < a.skip(1).len() implies white_space(
            #[trigger] a.skip(1)[i],
        ) by {
            assert(white_space(a[i + 1]));
        }
        lemma_trim_start(a.skip(1), s);
    } else {
        assert(a + s =~= s);
    }
}

proof fn lemma_trim_end(s: Seq<char>, b: Seq<char>)
    requires
        forall|i: int| 0 <= i < b.len() ==> white_space(#[trigger] b[i]),
        s.len() > 0 ==> !white_space(s.last()),
    ensures
        trim_end(s + b) == s,
    decreases b.len(),
{
    if b.len() > 0 {
        assert((s + b).last() == b.last());
        assert(b[b.len() - 1] == b.last());
        assert((s + b).drop_last() =~= s + b.drop_last());
        assert forall|i: int| 0 <= i < b.drop_last().len() implies white_space(
            #[trigger] b.drop_last()[i],
        ) by {
            assert(white_space(b[i]));
        }
        lemma_trim_end(s, b.drop_last());
    } else {
        assert(s + b =~= s);
    }
}

/// Trimming drops the white space around a text that neither begins nor ends with any.
pub proof fn trimming_drops_white_space(a: Seq<char>, s: Seq<char>, b: Seq<char>)
    requires
        forall|i: int| 0 <= i < a.len() ==> white_space(#[trigger] a[i]),
        forall|i: int| 0 <= i < b.len() ==> white_space(#[trigger] b[i]),
        s.len() > 0 ==> !white_space(s[0]) && !white_space(s.last()),
    ensures
        trim(a + s + b) == s,
{
    if s.len() > 0 {
        assert(a + s + b =~= a + (s + b));
        assert((s + b)[0] == s[0]);
        lemma_trim_start(a, s + b);
        lemma_trim_end(s, b);
    } else {
        let white = a + b;
        assert(a + s + b =~= white + s);
        assert forall|i: int| 0 <= i < white.len() implies white_space(#[trigger] white[i]) by {
            if i < a.len() {
                assert(white[i] == a[i]);
            } else {
                assert(white[i] == b[i - a.len()]);
            }
        }
        lemma_trim_start(white, s);
    }
}

} // verus!
