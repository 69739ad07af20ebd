//! Decimal integer tokens as they appear in integer values and length fields.
//!
//! A token is an optional sign (`+` or `-`) followed by one or more ASCII
//! digits, and it denotes a value that fits in an `i64`. Leading zeros are
//! accepted; anything else (an empty token, a lone sign, a stray byte, a value
//! out of range) is not a number.

use vstd::prelude::*;

verus! {

/// The byte `-`.
pub const MINUS: u8 = 0x2d;

/// The byte `+`.
pub const PLUS: u8 = 0x2b;

/// The byte `0`.
pub const ZERO: u8 = 0x30;

/// Whether `b` is an ASCII decimal digit.
pub open spec fn is_digit(b: u8) -> bool {
    0x30 <= b <= 0x39
}

/// Whether every byte of `s` is an ASCII decimal digit.
pub open spec fn all_digits(s: Seq<u8>) -> bool {
    forall|i: int| 0 <= i < s.len() ==> is_digit(#[trigger] s[i])
}

/// The number that a run of decimal digits denotes, most significant first.
pub open spec fn digits_value(s: Seq<u8>) -> nat
    decreases s.len(),
{
    if s.len() == 0 {
        0
    } else {
        digits_value(s.drop_last()) * 10 + (s.last() - 0x30) as nat
    }
}

/// The sign that a token carries: `true` when it starts with `-`.
pub open spec fn is_negative(s: Seq<u8>) -> bool {
    s.len() > 0 && s[0] == MINUS
}

/// The digits of a token: what follows the sign, or all of it when unsigned.
pub open spec fn magnitude_digits(s: Seq<u8>) -> Seq<u8> {
    if s.len() > 0 && (s[0] == MINUS || s[0] == PLUS) {
        s.skip(1)
    } else {
        s
    }
}

/// The value of a token, or `None` when the bytes are not a number.
pub open spec fn parse_int(s: Seq<u8>) -> Option<i64> {
    let digits = magnitude_digits(s);
    let value = if is_negative(s) {
        -(digits_value(digits) as int)
    } else {
        digits_value(digits) as int
    };
    if digits.len() > 0 && all_digits(digits) && i64::MIN <= value <= i64::MAX {
        Some(value as i64)
    } else {
        None
    }
}

/// The decimal digits of `n`, without leading zeros.
pub open spec fn digits_of(n: nat) -> Seq<u8>
    decreases n,
{
    if n < 10 {
        seq![(0x30 + n) as u8]
    } else {
        digits_of(n / 10).push((0x30 + n % 10) as u8)
    }
}

/// The canonical token for `n`: a `-` for negative numbers, then the digits.
pub open spec fn format_int(n: int) -> Seq<u8> {
    if n < 0 {
        seq![MINUS] + digits_of((-n) as nat)
    } else {
        digits_of(n as nat)
    }
}

/// A longer run of digits never denotes a smaller number than its prefix.
pub proof fn lemma_digits_value_prefix(s: Seq<u8>, k: int)
    requires
        0 <= k <= s.len(),
    ensures
        digits_value(s.take(k)) <= digits_value(s),
    decreases s.len(),
{
    if k == s.len() {
        assert(s.take(k) =~= s);
    } else {
        assert(s.drop_last().take(k) =~= s.take(k));
        lemma_digits_value_prefix(s.drop_last(), k);
    }
}

/// The digits of a number are digits, at least one of them, and denote it.
pub proof fn lemma_digits_of(n: nat)
    ensures
        digits_of(n).len() >= 1,
        all_digits(digits_of(n)),
        digits_value(digits_of(n)) == n,
    decreases n,
{
    if n < 10 {
        let s = digits_of(n);
        assert(digits_value(s.drop_last()) == 0);
    } else {
        lemma_digits_of(n / 10);
        let s = digits_of(n);
        assert(s.drop_last() =~= digits_of(n / 10));
    }
}

/// Reading back the canonical token of a number gives that number.
pub proof fn lemma_parse_format(n: i64)
    ensures
        parse_int(format_int(n as int)) == Some(n),
{
    let s = format_int(n as int);
    if n < 0 {
        let m = (-(n as int)) as nat;
        lemma_digits_of(m);
        assert(s.skip(1) =~= digits_of(m));
    } else {
        lemma_digits_of(n as nat);
    }
}

/// A canonical token holds digits and at most a leading `-`, nothing else.
pub proof fn lemma_format_bytes(n: int)
    ensures
        format_int(n).len() >= 1,
        forall|i: int|
            0 <= i < format_int(n).len() ==> is_digit(#[trigger] format_int(n)[i]) || format_int(
                n,
            )[i] == MINUS,
{
    if n < 0 {
        lemma_digits_of((-n) as nat);
    } else {
        lemma_digits_of(n as nat);
    }
}

/// Reads the token in `bytes[start..end]`.
pub fn parse_i64(bytes: &[u8], start: usize, end: usize) -> (r: Option<i64>)
    requires
        start <= end <= bytes@.len(),
    ensures
        r == parse_int(bytes@.subrange(start as int, end as int)),
{
    let ghost token = bytes@.subrange(start as int, end as int);
    if start == end {
        return None;
    }
    let negative: bool = bytes[start] == MINUS;
    let first: usize = if bytes[start] == MINUS || bytes[start] == PLUS {
        start + 1
    } else {
        start
    };
    let ghost digits = magnitude_digits(token);
    if first == end {
        return None;
    }
    let limit: u128 = if negative {
        0x8000_0000_0000_0000
    } else {
        0x7fff_ffff_ffff_ffff
    };
    let mut acc: u128 = 0;
    let mut i: usize = first;
    while i < end
        invariant
            start <= first <= i <= end <= bytes@.len(),
            token == bytes@.subrange(start as int, end as int),
            digits == magnitude_digits(token),
            digits == bytes@.subrange(first as int, end as int),
            negative == is_negative(token),
            limit == if negative { 0x8000_0000_0000_0000u128 } else { 0x7fff_ffff_ffff_ffffu128 },
            all_digits(digits.take(i - first)),
            acc == digits_value(digits.take(i - first)),
            acc <= limit <= 0x8000_0000_0000_0000,
        decreases end - i,
    {
        let b: u8 = bytes[i];
        if !(ZERO <= b && b <= 0x39) {
            assert(!is_digit(digits[i - first]));
            return None;
        }
        let ghost longer = digits.take(i - first + 1);
        assert(longer.drop_last() =~= digits.take(i - first));
        let next: u128 = acc * 10 + (b - ZERO) as u128;
        if next > limit {
            proof {
                lemma_digits_value_prefix(digits, i - first + 1);
            }
            return None;
        }
        acc = next;
        i += 1;
    }
    assert(digits.take(end - first) =~= digits);
    if negative {
        if acc == 0x8000_0000_0000_0000 {
            Some(i64::MIN)
        } else {
            Some(-(acc as i64))
        }
    } else {
        Some(acc as i64)
    }
}

/// Appends the decimal digits of `n` to `out`.
pub fn push_digits(out: &mut Vec<u8>, n: u64)
    ensures
        final(out)@ == old(out)@ + digits_of(n as nat),
    decreases n,
{
    if n < 10 {
        out.push(ZERO + n as u8);
    } else {
        push_digits(out, n / 10);
        out.push(ZERO + (n % 10) as u8);
    }
}

/// Appends the canonical token of `n` to `out`.
pub fn push_i64(out: &mut Vec<u8>, n: i64)
    ensures
        final(out)@ == old(out)@ + format_int(n as int),
{
    if n < 0 {
        out.push(MINUS);
        let magnitude: u64 = (-(n as i128)) as u64;
        push_digits(out, magnitude);
    } else {
        push_digits(out, n as u64);
    }
}

/// Appends the canonical token of the length `n` to `out`.
pub fn push_len(out: &mut Vec<u8>, n: usize)
    ensures
        final(out)@ == old(out)@ + format_int(n as int),
{
    push_digits(out, n as u64);
}

} // verus!
