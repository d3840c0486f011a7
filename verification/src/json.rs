//! Lexical layer of the wire format: whitespace, unsigned decimal numbers and
//! string literals of JSON, as functions on bytes.
//!
//! Every scanner has a spec function that says what it accepts at a position
//! of the input and where the token ends; the executable scanner returns
//! exactly that. Every writer appends the canonical spelling of a token, and a
//! lemma per token shows that the scanner reads that spelling back.

use vstd::prelude::*;

verus! {

/// `"`
pub const QUOTE: u8 = 0x22;

/// `\`
pub const BACKSLASH: u8 = 0x5c;

/// `{`
pub const OPEN_BRACE: u8 = 0x7b;

/// `}`
pub const CLOSE_BRACE: u8 = 0x7d;

/// `:`
pub const COLON: u8 = 0x3a;

/// `,`
pub const COMMA: u8 = 0x2c;

/// `0`
pub const ZERO: u8 = 0x30;

/// The four bytes JSON treats as insignificant between tokens: space,
/// horizontal tab, line feed and carriage return.
pub open spec fn is_space(b: u8) -> bool {
    b == 0x20 || b == 0x09 || b == 0x0a || b == 0x0d
}

/// The first position at or after `i` that holds no whitespace.
pub open spec fn skip_space(s: Seq<u8>, i: int) -> int
    decreases s.len() - i,
{
    if 0 <= i < s.len() && is_space(s[i]) {
        skip_space(s, i + 1)
    } else {
        i
    }
}

/// Moves past the whitespace that starts at `i`.
pub fn skip_whitespace(s: &[u8], i: usize) -> (j: usize)
    ensures
        j == skip_space(s@, i as int),
        i <= j,
        i <= s.len() ==> j <= s.len(),
{
    let mut j: usize = i;
    while j < s.len() && (s[j] == 0x20 || s[j] == 0x09 || s[j] == 0x0a || s[j] == 0x0d)
        invariant
            i <= j,
            i <= s.len() ==> j <= s.len(),
            skip_space(s@, i as int) == skip_space(s@, j as int),
        decreases s.len() - j,
    {
        j = j + 1;
    }
    j
}

/// An ASCII decimal digit.
pub open spec fn is_digit(b: u8) -> bool {
    0x30 <= b <= 0x39
}

/// The end of the run of digits that starts at `i`.
pub open spec fn digits_end(s: Seq<u8>, i: int) -> int
    decreases s.len() - i,
{
    if 0 <= i < s.len() && is_digit(s[i]) {
        digits_end(s, i + 1)
    } else {
        i
    }
}

/// The number that a run of digits spells, most significant digit first.
pub open spec fn digits_value(d: Seq<u8>) -> nat
    decreases d.len(),
{
    if d.len() == 0 {
        0
    } else {
        digits_value(d.drop_last()) * 10 + (d.last() - 0x30) as nat
    }
}

/// What a number token at `i` is: its value and the position behind it.
///
/// A number is a single `0`, or a run of digits that starts with `1` to `9` and
/// whose value fits 64 bits. No sign, fraction or exponent is part of it.
pub open spec fn scan_number(s: Seq<u8>, i: int) -> Option<(u64, int)> {
    if !(0 <= i < s.len()) || !is_digit(s[i]) {
        None
    } else if s[i] == ZERO {
        Some((0u64, i + 1))
    } else {
        let j = digits_end(s, i);
        let v = digits_value(s.subrange(i, j));
        if v <= u64::MAX {
            Some((v as u64, j))
        } else {
            None
        }
    }
}

/// The run of digits at `i` holds digits only and stops at a byte that is none.
proof fn lemma_digits_end_run(s: Seq<u8>, i: int)
    requires
        0 <= i <= s.len(),
    ensures
        i <= digits_end(s, i) <= s.len(),
        forall|k: int| i <= k < digits_end(s, i) ==> is_digit(#[trigger] s[k]),
        digits_end(s, i) == s.len() || !is_digit(s[digits_end(s, i)]),
    decreases s.len() - i,
{
    if i < s.len() && is_digit(s[i]) {
        lemma_digits_end_run(s, i + 1);
    }
}

/// A run of digits from `i` to `j` that no digit follows ends at `j`.
proof fn lemma_digits_end_is(s: Seq<u8>, i: int, j: int)
    requires
        0 <= i <= j <= s.len(),
        forall|k: int| i <= k < j ==> is_digit(#[trigger] s[k]),
        j == s.len() || !is_digit(s[j]),
    ensures
        digits_end(s, i) == j,
    decreases j - i,
{
    if i < j {
        lemma_digits_end_is(s, i + 1, j);
    }
}

/// A longer run of digits spells no smaller number than its prefix.
proof fn lemma_digits_value_grows(d: Seq<u8>, n: int)
    requires
        0 <= n <= d.len(),
    ensures
        digits_value(d.subrange(0, n)) <= digits_value(d),
    decreases d.len() - n,
{
    if n == d.len() {
        assert(d.subrange(0, n) =~= d);
    } else {
        lemma_digits_value_grows(d.drop_last(), n);
        assert(d.drop_last().subrange(0, n) =~= d.subrange(0, n));
    }
}

/// Reads the number token at `i`.
pub fn read_number(s: &[u8], i: usize) -> (r: Option<(u64, usize)>)
    ensures
        match r {
            Some((v, j)) => scan_number(s@, i as int) == Some((v, j as int)) && i < j <= s.len(),
            None => scan_number(s@, i as int) is None,
        },
{
    if i >= s.len() || s[i] < 0x30 || s[i] > 0x39 {
        return None;
    }
    if s[i] == 0x30 {
        return Some((0, i + 1));
    }
    let mut value: u64 = 0;
    let mut j: usize = i;
    while j < s.len() && 0x30 <= s[j] && s[j] <= 0x39
        invariant
            i < s.len(),
            i <= j <= s.len(),
            is_digit(s@[i as int]),
            s@[i as int] != ZERO,
            forall|k: int| i <= k < j ==> is_digit(#[trigger] s@[k]),
            value == digits_value(s@.subrange(i as int, j as int)),
        decreases s.len() - j,
    {
        let digit: u64 = (s[j] - 0x30) as u64;
        proof {
            let longer = s@.subrange(i as int, j + 1);
            assert(longer.drop_last() =~= s@.subrange(i as int, j as int));
            assert(digits_value(longer) == value * 10 + digit);
        }
        if value > (u64::MAX - digit) / 10 {
            proof {
                let end = digits_end(s@, i as int);
                lemma_digits_end_run(s@, i as int);
                assert(end > j);
                let run = s@.subrange(i as int, end);
                lemma_digits_value_grows(run, j + 1 - i);
                assert(run.subrange(0, j + 1 - i) =~= s@.subrange(i as int, j + 1));
            }
            return None;
        }
        value = value * 10 + digit;
        j = j + 1;
    }
    proof {
        lemma_digits_end_is(s@, i as int, j as int);
    }
    Some((value, j))
}

/// The canonical spelling of a number: decimal, no leading zero.
pub open spec fn decimal(n: nat) -> Seq<u8>
    decreases n,
{
    if n < 10 {
        seq![(0x30 + n) as u8]
    } else {
        decimal(n / 10).push((0x30 + n % 10) as u8)
    }
}

/// Appends the canonical spelling of `n`.
pub fn write_decimal(out: &mut Vec<u8>, n: u64)
    ensures
        final(out)@ == old(out)@ + decimal(n as nat),
    decreases n,
{
    if n >= 10 {
        write_decimal(out, n / 10);
    }
    let digit: u8 = (n % 10) as u8;
    out.push(0x30 + digit);
    proof {
        if n >= 10 {
            assert(final(out)@ =~= old(out)@ + decimal((n / 10) as nat).push((0x30 + n % 10) as u8));
        } else {
            assert(final(out)@ =~= old(out)@ + seq![(0x30 + n) as u8]);
        }
    }
}

/// The canonical spelling holds digits only, and starts with `0` only for zero.
pub proof fn lemma_decimal_shape(n: nat)
    ensures
        decimal(n).len() >= 1,
        forall|k: int| 0 <= k < decimal(n).len() ==> is_digit(#[trigger] decimal(n)[k]),
        decimal(n)[0] == ZERO ==> n == 0,
    decreases n,
{
    if n >= 10 {
        lemma_decimal_shape(n / 10);
    }
}

/// The canonical spelling of `n` spells `n`.
pub proof fn lemma_decimal_value(n: nat)
    ensures
        digits_value(decimal(n)) == n,
    decreases n,
{
    let d = decimal(n);
    if n >= 10 {
        lemma_decimal_value(n / 10);
        assert(d.drop_last() =~= decimal(n / 10));
        assert(d.last() == (0x30 + n % 10) as u8);
        assert(digits_value(d) == digits_value(d.drop_last()) * 10 + (d.last() - 0x30) as nat);
    } else {
        assert(d.drop_last() =~= Seq::<u8>::empty());
        assert(d.last() == (0x30 + n) as u8);
        assert(digits_value(d.drop_last()) == 0);
        assert(digits_value(d) == digits_value(d.drop_last()) * 10 + (d.last() - 0x30) as nat);
    }
}

/// The scanner reads the canonical spelling of `n` back wherever no digit
/// follows it.
pub proof fn lemma_scan_decimal(s: Seq<u8>, i: int, n: u64)
    requires
        0 <= i,
        i + decimal(n as nat).len() <= s.len(),
        s.subrange(i, i + decimal(n as nat).len()) == decimal(n as nat),
        i + decimal(n as nat).len() == s.len() || !is_digit(s[i + decimal(n as nat).len()]),
    ensures
        scan_number(s, i) == Some((n, i + decimal(n as nat).len())),
{
    let d = decimal(n as nat);
    let j = i + d.len();
    lemma_decimal_shape(n as nat);
    lemma_decimal_value(n as nat);
    assert forall|k: int| i <= k < j implies is_digit(#[trigger] s[k]) by {
        assert(s[k] == s.subrange(i, j)[k - i]);
    }
    assert(s[i] == d[0]);
    lemma_digits_end_is(s, i, j);
    if s[i] == ZERO {
        assert(d =~= seq![ZERO]);
    }
}

/// Whitespace is skipped over whitespace only, and up to a byte that is none.
pub proof fn lemma_skip_space_run(s: Seq<u8>, i: int)
    requires
        0 <= i <= s.len(),
    ensures
        i <= skip_space(s, i) <= s.len(),
        forall|k: int| i <= k < skip_space(s, i) ==> is_space(#[trigger] s[k]),
        skip_space(s, i) == s.len() || !is_space(s[skip_space(s, i)]),
    decreases s.len() - i,
{
    if i < s.len() && is_space(s[i]) {
        lemma_skip_space_run(s, i + 1);
    }
}

/// A run of digits without a leading zero is the canonical spelling of the
/// number that it spells.
proof fn lemma_digits_are_decimal(run: Seq<u8>)
    requires
        run.len() > 0,
        forall|k: int| 0 <= k < run.len() ==> is_digit(#[trigger] run[k]),
        run[0] != ZERO || run.len() == 1,
    ensures
        run == decimal(digits_value(run)),
    decreases run.len(),
{
    let init = run.drop_last();
    let d = (run.last() - 0x30) as nat;
    assert(is_digit(run[run.len() - 1]));
    if init.len() == 0 {
        assert(digits_value(init) == 0);
        assert(run =~= seq![(0x30 + d) as u8]);
    } else {
        assert(init[0] == run[0]);
        assert forall|k: int| 0 <= k < init.len() implies is_digit(#[trigger] init[k]) by {
            assert(init[k] == run[k]);
        }
        lemma_digits_are_decimal(init);
        let v = digits_value(init);
        if v == 0 {
            assert(decimal(0)[0] == ZERO);
        }
        let n = v * 10 + d;
        assert(n / 10 == v && n % 10 == d);
        assert(run =~= init.push(run.last()));
    }
}

/// A number token is the canonical spelling of its value.
pub proof fn lemma_number_is_decimal(s: Seq<u8>, i: int)
    requires
        scan_number(s, i) is Some,
    ensures
        i < scan_number(s, i).unwrap().1 <= s.len(),
        s.subrange(i, scan_number(s, i).unwrap().1) == decimal(
            scan_number(s, i).unwrap().0 as nat,
        ),
{
    let (v, j) = scan_number(s, i).unwrap();
    let run = s.subrange(i, j);
    if s[i] == ZERO {
        assert(run =~= seq![ZERO]);
    } else {
        lemma_digits_end_run(s, i);
        assert(run[0] == s[i]);
        assert forall|k: int| 0 <= k < run.len() implies is_digit(#[trigger] run[k]) by {
            assert(run[k] == s[i + k]);
        }
        lemma_digits_are_decimal(run);
    }
}

} // verus!
