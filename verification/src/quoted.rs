//! String literals of the wire format, as functions on bytes.
//!
//! A literal stands between two quotes. Inside, a byte below `0x20` is not
//! allowed, a backslash starts an escape, and every other byte stands for
//! itself. What a literal denotes is the sequence of bytes with the escapes
//! resolved; whether those bytes are UTF-8 is decided by the caller.

use vstd::prelude::*;
use vstd::utf8::*;
use crate::json::{BACKSLASH, QUOTE};

verus! {

/// `u`, the letter that starts a four-digit hexadecimal escape.
pub const LOWER_U: u8 = 0x75;

/// The value of one hexadecimal digit, in either case.
#[verifier::opaque]
pub open spec fn hex_value(b: u8) -> Option<u32> {
    if 0x30 <= b <= 0x39 {
        Some((b - 0x30) as u32)
    } else if 0x61 <= b <= 0x66 {
        Some((b - 0x61 + 10) as u32)
    } else if 0x41 <= b <= 0x46 {
        Some((b - 0x41 + 10) as u32)
    } else {
        None
    }
}

/// The value of the four hexadecimal digits at `i`.
pub open spec fn scan_hex4(s: Seq<u8>, i: int) -> Option<u32> {
    if 0 <= i && i + 4 <= s.len() {
        match (hex_value(s[i]), hex_value(s[i + 1]), hex_value(s[i + 2]), hex_value(s[i + 3])) {
            (Some(a), Some(b), Some(c), Some(d)) => Some((a * 4096 + b * 256 + c * 16 + d) as u32),
            _ => None,
        }
    } else {
        None
    }
}

/// A UTF-16 code unit that opens a surrogate pair.
pub open spec fn is_high_surrogate(u: u32) -> bool {
    0xD800 <= u <= 0xDBFF
}

/// A UTF-16 code unit that closes a surrogate pair.
pub open spec fn is_low_surrogate(u: u32) -> bool {
    0xDC00 <= u <= 0xDFFF
}

/// The scalar value that a surrogate pair stands for.
pub open spec fn pair_scalar(hi: u32, lo: u32) -> u32 {
    (0x10000 + (hi - 0xD800) * 0x400 + (lo - 0xDC00)) as u32
}

/// The scalar value of the hexadecimal escape whose digits start at `i`
/// (behind `\u`), and the position behind the escape.
///
/// A code unit outside the surrogate range is the scalar itself. A high
/// surrogate must be followed by a second escape that holds a low surrogate;
/// a low surrogate alone, or a high one without its partner, is rejected.
pub open spec fn scan_unicode(s: Seq<u8>, i: int) -> Option<(u32, int)> {
    match scan_hex4(s, i) {
        None => None,
        Some(hi) => if is_low_surrogate(hi) {
            None
        } else if is_high_surrogate(hi) {
            if i + 6 <= s.len() && s[i + 4] == BACKSLASH && s[i + 5] == LOWER_U {
                match scan_hex4(s, i + 6) {
                    Some(lo) => if is_low_surrogate(lo) {
                        Some((pair_scalar(hi, lo), i + 10))
                    } else {
                        None
                    },
                    None => None,
                }
            } else {
                None
            }
        } else {
            Some((hi, i + 4))
        },
    }
}

/// The byte that a one-letter escape stands for.
pub open spec fn simple_escape(b: u8) -> Option<u8> {
    if b == QUOTE {
        Some(QUOTE)
    } else if b == BACKSLASH {
        Some(BACKSLASH)
    } else if b == 0x2f {
        Some(0x2fu8)
    } else if b == 0x62 {
        Some(0x08u8)
    } else if b == 0x66 {
        Some(0x0cu8)
    } else if b == 0x6e {
        Some(0x0au8)
    } else if b == 0x72 {
        Some(0x0du8)
    } else if b == 0x74 {
        Some(0x09u8)
    } else {
        None
    }
}

/// The bytes that the escape at `i` (behind the backslash) stands for, and the
/// position behind it. A hexadecimal escape stands for the UTF-8 encoding of
/// its scalar value.
pub open spec fn scan_escape(s: Seq<u8>, i: int) -> Option<(Seq<u8>, int)> {
    if !(0 <= i < s.len()) {
        None
    } else if s[i] == LOWER_U {
        match scan_unicode(s, i + 1) {
            Some((c, j)) => Some((encode_scalar(c), j)),
            None => None,
        }
    } else {
        match simple_escape(s[i]) {
            Some(b) => Some((seq![b], i + 1)),
            None => None,
        }
    }
}

/// Puts `prefix` in front of the bytes of a scan result.
pub open spec fn prepend(prefix: Seq<u8>, r: Option<(Seq<u8>, int)>) -> Option<(Seq<u8>, int)> {
    match r {
        Some((rest, k)) => Some((prefix + rest, k)),
        None => None,
    }
}

/// What the inside of a literal denotes from `i` up to its closing quote, and
/// the position behind that quote.
///
/// An escape always ends behind its backslash; the comparison of the two
/// positions only makes that plain where the recursion is shown to end.
pub open spec fn scan_body(s: Seq<u8>, i: int) -> Option<(Seq<u8>, int)>
    decreases s.len() - i,
{
    if !(0 <= i < s.len()) {
        None
    } else if s[i] == QUOTE {
        Some((Seq::<u8>::empty(), i + 1))
    } else if s[i] < 0x20 {
        None
    } else if s[i] == BACKSLASH {
        match scan_escape(s, i + 1) {
            Some((bytes, j)) => if i < j {
                prepend(bytes, scan_body(s, j))
            } else {
                None
            },
            None => None,
        }
    } else {
        prepend(seq![s[i]], scan_body(s, i + 1))
    }
}

/// What the string literal at `i` denotes, and the position behind it.
pub open spec fn scan_string(s: Seq<u8>, i: int) -> Option<(Seq<u8>, int)> {
    if 0 <= i < s.len() && s[i] == QUOTE {
        scan_body(s, i + 1)
    } else {
        None
    }
}

proof fn lemma_prepend_empty(r: Option<(Seq<u8>, int)>)
    ensures
        prepend(Seq::<u8>::empty(), r) == r,
{
    if let Some((rest, k)) = r {
        assert(Seq::<u8>::empty() + rest =~= rest);
    }
}

proof fn lemma_prepend_twice(a: Seq<u8>, b: Seq<u8>, r: Option<(Seq<u8>, int)>)
    ensures
        prepend(a, prepend(b, r)) == prepend(a + b, r),
{
    if let Some((rest, k)) = r {
        assert(a + (b + rest) =~= (a + b) + rest);
    }
}

fn hex_digit_value(b: u8) -> (r: Option<u32>)
    ensures
        r == hex_value(b),
        r matches Some(v) ==> v < 16,
{
    reveal(hex_value);
    if 0x30 <= b && b <= 0x39 {
        Some((b - 0x30) as u32)
    } else if 0x61 <= b && b <= 0x66 {
        Some((b - 0x61 + 10) as u32)
    } else if 0x41 <= b && b <= 0x46 {
        Some((b - 0x41 + 10) as u32)
    } else {
        None
    }
}

fn read_hex4(s: &[u8], i: usize) -> (r: Option<u32>)
    requires
        i <= s.len(),
    ensures
        r == scan_hex4(s@, i as int),
        r matches Some(v) ==> v <= 0xFFFF,
{
    if s.len() - i < 4 {
        return None;
    }
    let a: u32 = match hex_digit_value(s[i]) {
        Some(v) => v,
        None => { return None; },
    };
    let b: u32 = match hex_digit_value(s[i + 1]) {
        Some(v) => v,
        None => { return None; },
    };
    let c: u32 = match hex_digit_value(s[i + 2]) {
        Some(v) => v,
        None => { return None; },
    };
    let d: u32 = match hex_digit_value(s[i + 3]) {
        Some(v) => v,
        None => { return None; },
    };
    Some(a * 4096 + b * 256 + c * 16 + d)
}

fn read_unicode(s: &[u8], i: usize) -> (r: Option<(u32, usize)>)
    requires
        i <= s.len(),
    ensures
        match r {
            Some((c, j)) => scan_unicode(s@, i as int) == Some((c, j as int)) && i < j <= s.len()
                && is_scalar(c),
            None => scan_unicode(s@, i as int) is None,
        },
{
    let hi: u32 = match read_hex4(s, i) {
        Some(v) => v,
        None => { return None; },
    };
    if 0xDC00 <= hi && hi <= 0xDFFF {
        None
    } else if 0xD800 <= hi && hi <= 0xDBFF {
        if s.len() - i < 6 || s[i + 4] != BACKSLASH || s[i + 5] != LOWER_U {
            return None;
        }
        let lo: u32 = match read_hex4(s, i + 6) {
            Some(v) => v,
            None => { return None; },
        };
        if 0xDC00 <= lo && lo <= 0xDFFF {
            Some((0x10000 + (hi - 0xD800) * 0x400 + (lo - 0xDC00), i + 10))
        } else {
            None
        }
    } else {
        Some((hi, i + 4))
    }
}

/// Appends the UTF-8 encoding of one scalar value.
fn write_scalar(out: &mut Vec<u8>, c: u32)
    requires
        is_scalar(c),
    ensures
        final(out)@ == old(out)@ + encode_scalar(c),
{
    if c <= 0x7F {
        out.push((c & 0x7F) as u8);
        assert(final(out)@ =~= old(out)@ + encode_scalar(c));
    } else if c <= 0x7FF {
        out.push(0xC0 | ((c >> 6) & 0x1F) as u8);
        out.push(0x80 | (c & 0x3F) as u8);
        assert(final(out)@ =~= old(out)@ + encode_scalar(c));
    } else if c <= 0xFFFF {
        out.push(0xE0 | ((c >> 12) & 0x0F) as u8);
        out.push(0x80 | ((c >> 6) & 0x3F) as u8);
        out.push(0x80 | (c & 0x3F) as u8);
        assert(final(out)@ =~= old(out)@ + encode_scalar(c));
    } else {
        out.push(0xF0 | ((c >> 18) & 0x7) as u8);
        out.push(0x80 | ((c >> 12) & 0x3F) as u8);
        out.push(0x80 | ((c >> 6) & 0x3F) as u8);
        out.push(0x80 | (c & 0x3F) as u8);
        assert(final(out)@ =~= old(out)@ + encode_scalar(c));
    }
}

fn simple_escape_value(b: u8) -> (r: Option<u8>)
    ensures
        r == simple_escape(b),
{
    if b == QUOTE {
        Some(QUOTE)
    } else if b == BACKSLASH {
        Some(BACKSLASH)
    } else if b == 0x2f {
        Some(0x2f)
    } else if b == 0x62 {
        Some(0x08)
    } else if b == 0x66 {
        Some(0x0c)
    } else if b == 0x6e {
        Some(0x0a)
    } else if b == 0x72 {
        Some(0x0d)
    } else if b == 0x74 {
        Some(0x09)
    } else {
        None
    }
}

/// Resolves the escape at `i` (behind the backslash) into `out`.
fn read_escape(s: &[u8], i: usize, out: &mut Vec<u8>) -> (r: Option<usize>)
    requires
        i <= s.len(),
    ensures
        match r {
            Some(j) => i < j <= s.len() && (scan_escape(s@, i as int) matches Some((bytes, k))
                && k == j && final(out)@ == old(out)@ + bytes),
            None => scan_escape(s@, i as int) is None,
        },
{
    if i >= s.len() {
        return None;
    }
    if s[i] == LOWER_U {
        match read_unicode(s, i + 1) {
            Some((c, j)) => {
                write_scalar(out, c);
                Some(j)
            },
            None => None,
        }
    } else {
        match simple_escape_value(s[i]) {
            Some(b) => {
                out.push(b);
                assert(final(out)@ =~= old(out)@ + seq![b]);
                Some(i + 1)
            },
            None => None,
        }
    }
}

/// Reads the string literal at `i` and resolves its escapes.
pub fn read_string(s: &[u8], i: usize) -> (r: Option<(Vec<u8>, usize)>)
    ensures
        match r {
            Some((v, j)) => scan_string(s@, i as int) == Some((v@, j as int)) && i < j <= s.len(),
            None => scan_string(s@, i as int) is None,
        },
{
    if i >= s.len() || s[i] != QUOTE {
        return None;
    }
    let mut out: Vec<u8> = Vec::new();
    let mut j: usize = i + 1;
    proof {
        lemma_prepend_empty(scan_body(s@, j as int));
    }
    loop
        invariant
            i < j <= s.len(),
            s@[i as int] == QUOTE,
            scan_body(s@, i + 1) == prepend(out@, scan_body(s@, j as int)),
        decreases s.len() - j,
    {
        if j >= s.len() {
            return None;
        }
        let b: u8 = s[j];
        if b == QUOTE {
            proof {
                assert(out@ + Seq::<u8>::empty() =~= out@);
            }
            return Some((out, j + 1));
        } else if b < 0x20 {
            return None;
        } else if b == BACKSLASH {
            let ghost before = out@;
            match read_escape(s, j + 1, &mut out) {
                Some(k) => {
                    proof {
                        let (bytes, _) = scan_escape(s@, j + 1).unwrap();
                        lemma_prepend_twice(before, bytes, scan_body(s@, k as int));
                    }
                    j = k;
                },
                None => {
                    return None;
                },
            }
        } else {
            proof {
                lemma_prepend_twice(out@, seq![b], scan_body(s@, j + 1));
                assert(out@.push(b) =~= out@ + seq![b]);
            }
            out.push(b);
            j = j + 1;
        }
    }
}

/// The lower-case hexadecimal digit for a value below 16.
pub open spec fn hex_digit(v: u8) -> u8 {
    if v < 10 {
        (0x30 + v) as u8
    } else {
        (0x61 + (v - 10)) as u8
    }
}

/// The letter of the one-letter escape for `b`, where it has one.
pub open spec fn escape_letter(b: u8) -> Option<u8> {
    if b == QUOTE {
        Some(QUOTE)
    } else if b == BACKSLASH {
        Some(BACKSLASH)
    } else if b == 0x08 {
        Some(0x62u8)
    } else if b == 0x0c {
        Some(0x66u8)
    } else if b == 0x0a {
        Some(0x6eu8)
    } else if b == 0x0d {
        Some(0x72u8)
    } else if b == 0x09 {
        Some(0x74u8)
    } else {
        None
    }
}

/// The canonical spelling of one byte inside a literal: a one-letter escape
/// for the quote, the backslash and the five control bytes that have one, a
/// hexadecimal escape for every other byte below `0x20`, the byte itself
/// otherwise.
pub open spec fn escape_byte(b: u8) -> Seq<u8> {
    match escape_letter(b) {
        Some(letter) => seq![BACKSLASH, letter],
        None => if b < 0x20 {
            seq![BACKSLASH, LOWER_U, 0x30u8, 0x30u8, hex_digit(b / 16), hex_digit(b % 16)]
        } else {
            seq![b]
        },
    }
}

/// The canonical spelling of a sequence of bytes inside a literal.
pub open spec fn escape(bytes: Seq<u8>) -> Seq<u8>
    decreases bytes.len(),
{
    if bytes.len() == 0 {
        Seq::<u8>::empty()
    } else {
        escape_byte(bytes[0]) + escape(bytes.drop_first())
    }
}

/// The canonical literal for a sequence of bytes.
pub open spec fn quoted(bytes: Seq<u8>) -> Seq<u8> {
    seq![QUOTE] + escape(bytes) + seq![QUOTE]
}

fn escape_letter_of(b: u8) -> (r: Option<u8>)
    ensures
        r == escape_letter(b),
{
    if b == QUOTE {
        Some(QUOTE)
    } else if b == BACKSLASH {
        Some(BACKSLASH)
    } else if b == 0x08 {
        Some(0x62)
    } else if b == 0x0c {
        Some(0x66)
    } else if b == 0x0a {
        Some(0x6e)
    } else if b == 0x0d {
        Some(0x72)
    } else if b == 0x09 {
        Some(0x74)
    } else {
        None
    }
}

fn hex_digit_of(v: u8) -> (r: u8)
    requires
        v < 16,
    ensures
        r == hex_digit(v),
{
    if v < 10 {
        0x30 + v
    } else {
        0x61 + (v - 10)
    }
}

fn write_escaped_byte(out: &mut Vec<u8>, b: u8)
    ensures
        final(out)@ == old(out)@ + escape_byte(b),
{
    match escape_letter_of(b) {
        Some(letter) => {
            out.push(BACKSLASH);
            out.push(letter);
            assert(final(out)@ =~= old(out)@ + seq![BACKSLASH, letter]);
        },
        None => {
            if b < 0x20 {
                let high: u8 = hex_digit_of(b / 16);
                let low: u8 = hex_digit_of(b % 16);
                out.push(BACKSLASH);
                out.push(LOWER_U);
                out.push(0x30);
                out.push(0x30);
                out.push(high);
                out.push(low);
                assert(final(out)@ =~= old(out)@ + seq![
                    BACKSLASH,
                    LOWER_U,
                    0x30u8,
                    0x30u8,
                    high,
                    low,
                ]);
            } else {
                out.push(b);
                assert(final(out)@ =~= old(out)@ + seq![b]);
            }
        },
    }
}

/// Appends the canonical literal for `bytes`.
pub fn write_quoted(out: &mut Vec<u8>, bytes: &[u8])
    ensures
        final(out)@ == old(out)@ + quoted(bytes@),
{
    out.push(QUOTE);
    let mut i: usize = 0;
    proof {
        assert(bytes@.subrange(0, bytes@.len() as int) =~= bytes@);
        assert(out@ + escape(bytes@) =~= old(out)@ + (seq![QUOTE] + escape(bytes@)));
    }
    while i < bytes.len()
        invariant
            i <= bytes.len(),
            out@ + escape(bytes@.subrange(i as int, bytes@.len() as int)) == old(out)@ + (seq![
                QUOTE,
            ] + escape(bytes@)),
        decreases bytes.len() - i,
    {
        let ghost before = out@;
        let ghost tail = bytes@.subrange(i as int, bytes@.len() as int);
        write_escaped_byte(out, bytes[i]);
        proof {
            assert(tail.drop_first() =~= bytes@.subrange(i + 1, bytes@.len() as int));
            assert((before + escape_byte(tail[0])) + escape(tail.drop_first()) =~= before + escape(
                tail,
            ));
        }
        i = i + 1;
    }
    out.push(QUOTE);
    proof {
        assert(escape(bytes@.subrange(i as int, bytes@.len() as int)) =~= Seq::<u8>::empty());
        assert(final(out)@ =~= old(out)@ + quoted(bytes@));
    }
}

/// The scanner resolves the canonical spelling of `bytes`, followed by a
/// quote, back into `bytes`.
proof fn lemma_scan_escaped(s: Seq<u8>, i: int, bytes: Seq<u8>)
    requires
        0 <= i,
        i + escape(bytes).len() + 1 <= s.len(),
        s.subrange(i, i + escape(bytes).len() + 1) == escape(bytes) + seq![QUOTE],
    ensures
        scan_body(s, i) == Some((bytes, i + escape(bytes).len() + 1)),
    decreases bytes.len(),
{
    let whole = escape(bytes) + seq![QUOTE];
    let end = i + escape(bytes).len() + 1;
    assert forall|k: int| 0 <= k < whole.len() implies s[i + k] == whole[k] by {
        assert(s.subrange(i, end)[k] == s[i + k]);
    }
    if bytes.len() == 0 {
        assert(s[i] == whole[0]);
        assert(bytes =~= Seq::<u8>::empty());
    } else {
        let b = bytes[0];
        let rest = bytes.drop_first();
        let head = escape_byte(b);
        let next = i + head.len();
        let tail = escape(rest) + seq![QUOTE];
        assert(escape(bytes) == head + escape(rest));
        assert(whole =~= head + tail);
        assert forall|k: int| 0 <= k < tail.len() implies s.subrange(next, end)[k] == tail[k] by {
            assert(s[i + (head.len() + k)] == whole[head.len() + k]);
        }
        assert(s.subrange(next, end) =~= tail);
        lemma_scan_escaped(s, next, rest);
        assert(seq![b] + rest =~= bytes);
        assert forall|k: int| 0 <= k < head.len() implies s[i + k] == head[k] by {
            assert(whole[k] == head[k]);
        }
        assert(s[i] == head[0]);
        match escape_letter(b) {
            Some(letter) => {
                assert(s[i + 1] == head[1]);
                assert(simple_escape(letter) == Some(b));
            },
            None => {
                if b < 0x20 {
                    assert(s[i + 1] == head[1]);
                    assert(s[i + 2] == head[2]);
                    assert(s[i + 3] == head[3]);
                    assert(s[i + 4] == head[4]);
                    assert(s[i + 5] == head[5]);
                                    reveal(hex_value);
                    assert(hex_value(0x30u8) == Some(0u32));
                    assert(hex_value(hex_digit(b / 16)) == Some((b / 16) as u32));
                    assert(hex_value(hex_digit(b % 16)) == Some((b % 16) as u32));
                    assert(scan_hex4(s, i + 2) == Some(b as u32));
                    assert(scan_unicode(s, i + 2) == Some((b as u32, i + 6)));
                    let c = b as u32;
                    assert((c & 0x7F) as u8 == b) by (bit_vector)
                        requires
                            c == b as u32,
                            b < 0x20,
                    ;
                    assert(encode_scalar(c) =~= seq![b]);
                    assert(scan_escape(s, i + 1) == Some((seq![b], i + 6)));
                } else {
                }
            },
        }
    }
}

/// The scanner reads the canonical literal for `bytes` back as `bytes`.
pub proof fn lemma_scan_quoted(s: Seq<u8>, i: int, bytes: Seq<u8>)
    requires
        0 <= i,
        i + quoted(bytes).len() <= s.len(),
        s.subrange(i, i + quoted(bytes).len()) == quoted(bytes),
    ensures
        scan_string(s, i) == Some((bytes, i + quoted(bytes).len())),
{
    let q = quoted(bytes);
    assert(s[i] == s.subrange(i, i + q.len())[0]);
    assert(s.subrange(i + 1, i + q.len()) =~= escape(bytes) + seq![QUOTE]) by {
        assert forall|k: int| 0 <= k < q.len() - 1 implies s[i + 1 + k] == (escape(bytes) + seq![
            QUOTE,
        ])[k] by {
            assert(s.subrange(i, i + q.len())[k + 1] == s[i + 1 + k]);
        }
    }
    lemma_scan_escaped(s, i + 1, bytes);
}

/// Whether `literal` is a string literal, from its opening to its closing
/// quote, that denotes `bytes`.
pub open spec fn spells(literal: Seq<u8>, bytes: Seq<u8>) -> bool {
    scan_string(literal, 0) == Some((bytes, literal.len() as int))
}

/// The canonical literal for `bytes` spells `bytes`.
pub proof fn lemma_quoted_spells(bytes: Seq<u8>)
    ensures
        spells(quoted(bytes), bytes),
{
    let q = quoted(bytes);
    assert(q.subrange(0, q.len() as int) =~= q);
    lemma_scan_quoted(q, 0, bytes);
}

/// What a hexadecimal escape denotes depends on its own bytes alone.
proof fn lemma_scan_hex4_local(l: Seq<u8>, k: int, s: Seq<u8>, i: int)
    requires
        0 <= i,
        0 <= k,
        i + l.len() <= s.len(),
        s.subrange(i, i + l.len()) == l,
        scan_hex4(l, k) is Some,
    ensures
        scan_hex4(s, i + k) == scan_hex4(l, k),
{
    assert forall|m: int| 0 <= m < l.len() implies s[i + m] == l[m] by {
        assert(s.subrange(i, i + l.len())[m] == s[i + m]);
    }
}

/// What a hexadecimal escape, alone or in a pair, denotes depends on its own
/// bytes alone.
proof fn lemma_scan_unicode_local(l: Seq<u8>, k: int, s: Seq<u8>, i: int)
    requires
        0 <= i,
        0 <= k,
        i + l.len() <= s.len(),
        s.subrange(i, i + l.len()) == l,
        scan_unicode(l, k) is Some,
    ensures
        scan_unicode(s, i + k) == Some(
            (scan_unicode(l, k).unwrap().0, i + scan_unicode(l, k).unwrap().1),
        ),
        k < scan_unicode(l, k).unwrap().1 <= l.len(),
{
    lemma_scan_hex4_local(l, k, s, i);
    let hi = scan_hex4(l, k).unwrap();
    if is_high_surrogate(hi) {
        assert(s[i + (k + 4)] == s.subrange(i, i + l.len())[k + 4]);
        assert(s[i + (k + 5)] == s.subrange(i, i + l.len())[k + 5]);
        lemma_scan_hex4_local(l, k + 6, s, i);
    }
}

/// What an escape denotes depends on its own bytes alone.
proof fn lemma_scan_escape_local(l: Seq<u8>, k: int, s: Seq<u8>, i: int)
    requires
        0 <= i,
        0 <= k,
        i + l.len() <= s.len(),
        s.subrange(i, i + l.len()) == l,
        scan_escape(l, k) is Some,
    ensures
        scan_escape(s, i + k) == Some(
            (scan_escape(l, k).unwrap().0, i + scan_escape(l, k).unwrap().1),
        ),
        k < scan_escape(l, k).unwrap().1 <= l.len(),
{
    assert(s[i + k] == s.subrange(i, i + l.len())[k]);
    if l[k] == LOWER_U {
        lemma_scan_unicode_local(l, k + 1, s, i);
    }
}

/// What the inside of a literal denotes depends on the bytes up to its
/// closing quote alone.
proof fn lemma_scan_body_local(l: Seq<u8>, k: int, s: Seq<u8>, i: int, bytes: Seq<u8>)
    requires
        0 <= i,
        0 <= k,
        i + l.len() <= s.len(),
        s.subrange(i, i + l.len()) == l,
        scan_body(l, k) == Some((bytes, l.len() as int)),
    ensures
        scan_body(s, i + k) == Some((bytes, i + l.len())),
    decreases l.len() - k,
{
    assert forall|m: int| 0 <= m < l.len() implies s[i + m] == l[m] by {
        assert(s.subrange(i, i + l.len())[m] == s[i + m]);
    }
    if l[k] == QUOTE {
    } else if l[k] == BACKSLASH {
        lemma_scan_escape_local(l, k + 1, s, i);
        let (head, j) = scan_escape(l, k + 1).unwrap();
        let (rest, end) = scan_body(l, j).unwrap();
        lemma_scan_body_local(l, j, s, i, rest);
    } else {
        let (rest, end) = scan_body(l, k + 1).unwrap();
        lemma_scan_body_local(l, k + 1, s, i, rest);
    }
}

/// A literal denotes the same wherever it stands.
pub proof fn lemma_scan_literal(s: Seq<u8>, i: int, literal: Seq<u8>, bytes: Seq<u8>)
    requires
        0 <= i,
        i + literal.len() <= s.len(),
        s.subrange(i, i + literal.len()) == literal,
        spells(literal, bytes),
    ensures
        scan_string(s, i) == Some((bytes, i + literal.len())),
{
    assert(s.subrange(i, i + literal.len())[0] == s[i]);
    lemma_scan_body_local(literal, 1, s, i, bytes);
}

/// The inside of a literal ends behind where it starts, and inside the input.
proof fn lemma_scan_body_ends(s: Seq<u8>, p: int)
    requires
        scan_body(s, p) is Some,
    ensures
        0 <= p < scan_body(s, p).unwrap().1 <= s.len(),
    decreases s.len() - p,
{
    if s[p] == QUOTE {
    } else if s[p] == BACKSLASH {
        let (head, q) = scan_escape(s, p + 1).unwrap();
        lemma_scan_body_ends(s, q);
    } else {
        lemma_scan_body_ends(s, p + 1);
    }
}

/// Four hexadecimal digits denote the same when they are cut out of the
/// input.
proof fn lemma_scan_hex4_cut(s: Seq<u8>, i: int, p: int, j: int)
    requires
        0 <= i <= p,
        p + 4 <= j <= s.len(),
    ensures
        scan_hex4(s.subrange(i, j), p - i) == scan_hex4(s, p),
{
    let l = s.subrange(i, j);
    assert(l[p - i] == s[p]);
    assert(l[p - i + 1] == s[p + 1]);
    assert(l[p - i + 2] == s[p + 2]);
    assert(l[p - i + 3] == s[p + 3]);
}

/// A hexadecimal escape denotes the same when it is cut out of the input.
proof fn lemma_scan_unicode_cut(s: Seq<u8>, i: int, p: int, j: int)
    requires
        0 <= i <= p,
        scan_unicode(s, p) is Some,
        scan_unicode(s, p).unwrap().1 <= j <= s.len(),
    ensures
        scan_unicode(s.subrange(i, j), p - i) == Some(
            (scan_unicode(s, p).unwrap().0, scan_unicode(s, p).unwrap().1 - i),
        ),
{
    let l = s.subrange(i, j);
    lemma_scan_hex4_cut(s, i, p, j);
    let hi = scan_hex4(s, p).unwrap();
    if is_high_surrogate(hi) {
        assert(l[p - i + 4] == s[p + 4]);
        assert(l[p - i + 5] == s[p + 5]);
        lemma_scan_hex4_cut(s, i, p + 6, j);
    }
}

/// An escape denotes the same when it is cut out of the input.
proof fn lemma_scan_escape_cut(s: Seq<u8>, i: int, p: int, j: int)
    requires
        0 <= i <= p,
        scan_escape(s, p) is Some,
        scan_escape(s, p).unwrap().1 <= j <= s.len(),
    ensures
        scan_escape(s.subrange(i, j), p - i) == Some(
            (scan_escape(s, p).unwrap().0, scan_escape(s, p).unwrap().1 - i),
        ),
{
    let l = s.subrange(i, j);
    assert(l[p - i] == s[p]);
    if s[p] == LOWER_U {
        lemma_scan_unicode_cut(s, i, p + 1, j);
    }
}

/// What the inside of a literal denotes is what the literal, cut out of the
/// input, denotes on its own.
proof fn lemma_scan_body_cut(s: Seq<u8>, i: int, p: int, j: int, bytes: Seq<u8>)
    requires
        0 <= i <= p,
        scan_body(s, p) == Some((bytes, j)),
    ensures
        p < j <= s.len(),
        scan_body(s.subrange(i, j), p - i) == Some((bytes, j - i)),
    decreases s.len() - p,
{
    lemma_scan_body_ends(s, p);
    let l = s.subrange(i, j);
    assert(l[p - i] == s[p]);
    if s[p] == QUOTE {
    } else if s[p] == BACKSLASH {
        let (head, q) = scan_escape(s, p + 1).unwrap();
        let (rest, end) = scan_body(s, q).unwrap();
        lemma_scan_body_ends(s, q);
        lemma_scan_escape_cut(s, i, p + 1, j);
        lemma_scan_body_cut(s, i, q, j, rest);
    } else {
        let (rest, end) = scan_body(s, p + 1).unwrap();
        lemma_scan_body_cut(s, i, p + 1, j, rest);
    }
}

/// A string literal in the input, cut out of it, spells what it denotes.
pub proof fn lemma_literal_spells(s: Seq<u8>, i: int)
    requires
        scan_string(s, i) is Some,
    ensures
        i < scan_string(s, i).unwrap().1 <= s.len(),
        spells(s.subrange(i, scan_string(s, i).unwrap().1), scan_string(s, i).unwrap().0),
{
    let (bytes, j) = scan_string(s, i).unwrap();
    lemma_scan_body_cut(s, i, i + 1, j, bytes);
    assert(s.subrange(i, j)[0] == s[i]);
}

} // verus!
