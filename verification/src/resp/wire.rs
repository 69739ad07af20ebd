//! The wire format, stated as mathematical functions on byte sequences.
//!
//! Every value starts with a one-byte sigil and a line that ends in CR LF:
//!
//! ```text
//! +<text>\r\n                 simple string
//! -<text>\r\n                 error
//! :<integer>\r\n              integer
//! $<len>\r\n<len bytes>\r\n   bulk string
//! $-1\r\n                     null bulk string
//! *<count>\r\n<count values>  array
//! *-1\r\n                     null array
//! ```
//!
//! [`encode`] gives the canonical bytes of a value and [`decode`] reads the
//! first value off a buffer that may still be growing.

use super::number::{format_int, parse_int};
use super::types::Value;
use vstd::prelude::*;
use vstd::utf8::{decode_utf8, encode_utf8, valid_utf8};

verus! {

/// Carriage return, the first byte of a line terminator.
pub const CR: u8 = 0x0d;

/// Line feed, the second byte of a line terminator.
pub const LF: u8 = 0x0a;

/// The sigil `+` of a simple string.
pub const SIMPLE: u8 = 0x2b;

/// The sigil `-` of an error.
pub const ERROR: u8 = 0x2d;

/// The sigil `:` of an integer.
pub const INTEGER: u8 = 0x3a;

/// The sigil `$` of a bulk string.
pub const BULK: u8 = 0x24;

/// The sigil `*` of an array.
pub const ARRAY: u8 = 0x2a;

/// Why a buffer cannot be decoded, however many bytes are still to come.
#[derive(Debug, Clone, Copy, PartialEq, Eq, Structural)]
pub enum DecodeError {
    /// The first byte is not one of the five sigils.
    UnknownType,
    /// The text of a simple string or an error is not UTF-8.
    InvalidUtf8,
    /// The line of an integer value is not a number.
    InvalidInteger,
    /// The length of a bulk string or the count of an array is not a number.
    InvalidLength,
    /// The payload of a bulk string is not followed by CR LF.
    MissingTerminator,
}

/// The message that tells a client of the error `e`.
pub open spec fn decode_error_text(e: DecodeError) -> Seq<char> {
    match e {
        DecodeError::UnknownType => "protocol error: unknown type"@,
        DecodeError::InvalidUtf8 => "protocol error: invalid utf-8 string"@,
        DecodeError::InvalidInteger => "protocol error: invalid integer"@,
        DecodeError::InvalidLength => "protocol error: invalid length"@,
        DecodeError::MissingTerminator => "protocol error: missing terminator"@,
    }
}

impl DecodeError {
    /// The message that tells a client of this error.
    pub fn to_string(&self) -> (text: String)
        ensures
            text@ == decode_error_text(*self),
    {
        match self {
            DecodeError::UnknownType => String::from_str("protocol error: unknown type"),
            DecodeError::InvalidUtf8 => String::from_str("protocol error: invalid utf-8 string"),
            DecodeError::InvalidInteger => String::from_str("protocol error: invalid integer"),
            DecodeError::InvalidLength => String::from_str("protocol error: invalid length"),
            DecodeError::MissingTerminator => String::from_str(
                "protocol error: missing terminator",
            ),
        }
    }
}

/// What reading a buffer from some position gives.
pub enum Decoded<T> {
    /// The bytes so far are the beginning of a value: more are needed.
    Incomplete,
    /// The bytes cannot begin a value.
    Malformed(DecodeError),
    /// A whole value, and the number of bytes that it spans.
    Complete(T, nat),
}

/// The two bytes that end a line.
pub open spec fn crlf() -> Seq<u8> {
    seq![CR, LF]
}

/// Whether a line terminator starts at index `i` of `s`.
pub open spec fn crlf_at(s: Seq<u8>, i: int) -> bool {
    0 <= i && i + 1 < s.len() && s[i] == CR && s[i + 1] == LF
}

/// Whether `b` is one of the five sigils.
pub open spec fn is_sigil(b: u8) -> bool {
    b == SIMPLE || b == ERROR || b == INTEGER || b == BULK || b == ARRAY
}

/// The number of bytes between `from` and the first line terminator at or
/// after it, or `None` when no terminator follows.
pub open spec fn line_len(s: Seq<u8>, from: int) -> Option<nat>
    decreases s.len() - from,
{
    if from < 0 || from + 1 >= s.len() {
        None
    } else if s[from] == CR && s[from + 1] == LF {
        Some(0)
    } else {
        match line_len(s, from + 1) {
            Some(d) => Some(d + 1),
            None => None,
        }
    }
}

/// The number of bytes of `s` from `pos` on.
pub open spec fn remaining(s: Seq<u8>, pos: int) -> nat {
    if pos < s.len() {
        (s.len() - pos) as nat
    } else {
        0
    }
}

/// The canonical encoding of `v`.
pub open spec fn encode(v: Value) -> Seq<u8>
    decreases v, 0nat,
{
    match v {
        Value::SimpleString(text) => seq![SIMPLE] + encode_utf8(text) + crlf(),
        Value::Error(text) => seq![ERROR] + encode_utf8(text) + crlf(),
        Value::Integer(n) => seq![INTEGER] + format_int(n as int) + crlf(),
        Value::BulkString(bytes) => seq![BULK] + format_int(bytes.len() as int) + crlf() + bytes
            + crlf(),
        Value::NullBulkString => seq![BULK] + format_int(-1) + crlf(),
        Value::Array(items) => seq![ARRAY] + format_int(items.len() as int) + crlf() + encode_all(
            items,
        ),
        Value::NullArray => seq![ARRAY] + format_int(-1) + crlf(),
    }
}

/// The encodings of `items`, back to back.
pub open spec fn encode_all(items: Seq<Value>) -> Seq<u8>
    decreases items, 1nat,
{
    if items.len() == 0 {
        Seq::empty()
    } else {
        encode_all(items.drop_last()) + encode(items.last())
    }
}

/// The value that starts at index `pos` of `s`.
///
/// The sigil decides first: a byte that is none makes the buffer malformed at
/// once. Otherwise nothing is known before the first line is whole. A bulk
/// string then needs its payload and terminator, and an array each of its
/// elements, one after the other; until they have arrived the value is
/// incomplete.
pub open spec fn decode_at(s: Seq<u8>, pos: int) -> Decoded<Value>
    decreases remaining(s, pos), 0nat,
{
    if pos < 0 || pos >= s.len() {
        Decoded::Incomplete
    } else if !is_sigil(s[pos]) {
        Decoded::Malformed(DecodeError::UnknownType)
    } else {
        match line_len(s, pos + 1) {
            None => Decoded::Incomplete,
            Some(d) => {
                let line = s.subrange(pos + 1, pos + 1 + d);
                let head: nat = d + 3;
                if s[pos] == SIMPLE {
                    if valid_utf8(line) {
                        Decoded::Complete(Value::SimpleString(decode_utf8(line)), head)
                    } else {
                        Decoded::Malformed(DecodeError::InvalidUtf8)
                    }
                } else if s[pos] == ERROR {
                    if valid_utf8(line) {
                        Decoded::Complete(Value::Error(decode_utf8(line)), head)
                    } else {
                        Decoded::Malformed(DecodeError::InvalidUtf8)
                    }
                } else if s[pos] == INTEGER {
                    match parse_int(line) {
                        Some(n) => Decoded::Complete(Value::Integer(n), head),
                        None => Decoded::Malformed(DecodeError::InvalidInteger),
                    }
                } else if s[pos] == BULK {
                    match parse_int(line) {
                        None => Decoded::Malformed(DecodeError::InvalidLength),
                        Some(n) => if n < 0 {
                            Decoded::Complete(Value::NullBulkString, head)
                        } else if s.len() < pos + head + n + 2 {
                            Decoded::Incomplete
                        } else if !crlf_at(s, pos + head + n) {
                            Decoded::Malformed(DecodeError::MissingTerminator)
                        } else {
                            Decoded::Complete(
                                Value::BulkString(s.subrange(pos + head, pos + head + n)),
                                (head + n + 2) as nat,
                            )
                        },
                    }
                } else {
                    match parse_int(line) {
                        None => Decoded::Malformed(DecodeError::InvalidLength),
                        Some(n) => if n < 0 {
                            Decoded::Complete(Value::NullArray, head)
                        } else {
                            match decode_items(s, pos + head, n as nat) {
                                Decoded::Complete(items, used) => Decoded::Complete(
                                    Value::Array(items),
                                    head + used,
                                ),
                                Decoded::Incomplete => Decoded::Incomplete,
                                Decoded::Malformed(e) => Decoded::Malformed(e),
                            }
                        },
                    }
                }
            },
        }
    }
}

/// The `count` values that follow one another from index `pos` of `s`. The
/// first of them that is incomplete or malformed decides for all.
pub open spec fn decode_items(s: Seq<u8>, pos: int, count: nat) -> Decoded<Seq<Value>>
    decreases remaining(s, pos), count + 1,
{
    if count == 0 {
        Decoded::Complete(Seq::empty(), 0)
    } else {
        match decode_items(s, pos, (count - 1) as nat) {
            Decoded::Complete(items, used) => match decode_at(s, pos + used) {
                Decoded::Complete(v, n) => Decoded::Complete(items.push(v), used + n),
                Decoded::Incomplete => Decoded::Incomplete,
                Decoded::Malformed(e) => Decoded::Malformed(e),
            },
            Decoded::Incomplete => Decoded::Incomplete,
            Decoded::Malformed(e) => Decoded::Malformed(e),
        }
    }
}

/// Whether `v` can be told from its encoding: its text holds no line
/// terminator, which would end the line early, and its lengths and counts can
/// be written as a length field.
pub open spec fn representable(v: Value) -> bool
    decreases v,
{
    match v {
        Value::SimpleString(text) => forall|i: int| !crlf_at(encode_utf8(text), i),
        Value::Error(text) => forall|i: int| !crlf_at(encode_utf8(text), i),
        Value::Integer(_) => true,
        Value::BulkString(bytes) => bytes.len() <= i64::MAX,
        Value::NullBulkString => true,
        Value::Array(items) => items.len() <= i64::MAX && forall|i: int|
            0 <= i < items.len() ==> representable(#[trigger] items[i]),
        Value::NullArray => true,
    }
}

/// The first value in the buffer `s`.
pub open spec fn decode(s: Seq<u8>) -> Decoded<Value> {
    decode_at(s, 0)
}

/// Whether `s` and `t` hold the same first `k` bytes.
pub open spec fn agree(s: Seq<u8>, t: Seq<u8>, k: int) -> bool {
    &&& k <= s.len()
    &&& k <= t.len()
    &&& forall|j: int| 0 <= j < k ==> s[j] == t[j]
}

/// What `line_len` finds is the first terminator, and it finds one if any
/// follows.
pub proof fn lemma_line_len(s: Seq<u8>, from: int)
    requires
        0 <= from,
    ensures
        match line_len(s, from) {
            Some(d) => crlf_at(s, from + d) && forall|j: int|
                from <= j < from + d ==> !crlf_at(s, j),
            None => forall|j: int| from <= j ==> !crlf_at(s, j),
        },
    decreases s.len() - from,
{
    if from + 1 < s.len() && !(s[from] == CR && s[from + 1] == LF) {
        lemma_line_len(s, from + 1);
    }
}

/// A terminator with none before it is the one that `line_len` finds.
pub proof fn lemma_line_len_is(s: Seq<u8>, from: int, d: nat)
    requires
        0 <= from,
        crlf_at(s, from + d),
        forall|j: int| from <= j < from + d ==> !crlf_at(s, j),
    ensures
        line_len(s, from) == Some(d),
{
    lemma_line_len(s, from);
}

/// A value spans at least three bytes, all of them in the buffer.
pub proof fn lemma_decode_at_bounds(s: Seq<u8>, pos: int)
    ensures
        decode_at(s, pos) matches Decoded::Complete(_, n) ==> 0 <= pos && 3 <= n && pos + n
            <= s.len(),
    decreases remaining(s, pos), 0nat,
{
    if 0 <= pos < s.len() && is_sigil(s[pos]) {
        lemma_line_len(s, pos + 1);
        if let Some(d) = line_len(s, pos + 1) {
            if s[pos] == ARRAY {
                if let Some(n) = parse_int(s.subrange(pos + 1, pos + 1 + d)) {
                    if n >= 0 {
                        lemma_decode_items_bounds(s, pos + d + 3, n as nat);
                    }
                }
            }
        }
    }
}

/// `count` values are `count` values, and they lie in the buffer.
pub proof fn lemma_decode_items_bounds(s: Seq<u8>, pos: int, count: nat)
    ensures
        decode_items(s, pos, count) matches Decoded::Complete(items, used) ==> items.len() == count
            && 3 * count <= used && (count > 0 ==> 0 <= pos && pos + used <= s.len()),
    decreases remaining(s, pos), count + 1,
{
    if count > 0 {
        lemma_decode_items_bounds(s, pos, (count - 1) as nat);
        if let Decoded::Complete(items, used) = decode_items(s, pos, (count - 1) as nat) {
            lemma_decode_at_bounds(s, pos + used);
        }
    }
}

/// Once one of the values that follow one another is incomplete or
/// malformed, asking for more of them changes nothing.
pub proof fn lemma_decode_items_stuck(s: Seq<u8>, pos: int, count: nat, more: nat)
    requires
        count <= more,
        !(decode_items(s, pos, count) is Complete),
    ensures
        decode_items(s, pos, more) == decode_items(s, pos, count),
    decreases more,
{
    if count < more {
        lemma_decode_items_stuck(s, pos, count, (more - 1) as nat);
    }
}

} // verus!
