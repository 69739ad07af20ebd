//! What holds of the wire format: decoding depends only on the bytes of the
//! value itself, no strict prefix of a value is mistaken for a value, and
//! decoding undoes encoding.

use super::number::{format_int, lemma_format_bytes, lemma_parse_format, parse_int};
use super::types::Value;
use super::wire::{
    agree, crlf, crlf_at, decode, decode_at, decode_items, encode, encode_all, is_sigil,
    lemma_decode_at_bounds, lemma_decode_items_bounds, lemma_line_len, lemma_line_len_is,
    line_len, remaining, representable, Decoded, ARRAY, BULK,
};
use vstd::prelude::*;
use vstd::utf8::encode_utf8;

verus! {

/// The first line of a value is found again in every buffer that agrees with
/// this one up to the end of that line.
proof fn lemma_line_agrees(s: Seq<u8>, t: Seq<u8>, from: int, d: nat)
    requires
        0 <= from,
        line_len(s, from) == Some(d),
        agree(s, t, from + d + 2),
    ensures
        line_len(t, from) == Some(d),
        t.subrange(from, from + d) == s.subrange(from, from + d),
{
    lemma_line_len(s, from);
    assert forall|j: int| from <= j < from + d implies !crlf_at(t, j) by {
        assert(!crlf_at(s, j));
    }
    lemma_line_len_is(t, from, d);
}

/// A value is decoded from its own bytes alone: a buffer that agrees with `s`
/// up to the end of the value at `pos` holds the same value there.
pub proof fn lemma_decode_at_agrees(s: Seq<u8>, t: Seq<u8>, pos: int)
    requires
        decode_at(s, pos) matches Decoded::Complete(_, n) && agree(s, t, pos + n),
    ensures
        decode_at(t, pos) == decode_at(s, pos),
    decreases remaining(s, pos), 0nat,
{
    let d = line_len(s, pos + 1)->0;
    lemma_line_agrees(s, t, pos + 1, d);
    let line = s.subrange(pos + 1, pos + 1 + d);
    let head = d + 3;
    if s[pos] == BULK {
        let n = parse_int(line)->0;
        if n >= 0 {
            assert(t.subrange(pos + head, pos + head + n) =~= s.subrange(
                pos + head,
                pos + head + n,
            ));
        }
    } else if s[pos] == ARRAY {
        let n = parse_int(line)->0;
        if n >= 0 {
            lemma_decode_items_agrees(s, t, pos + head, n as nat);
        }
    }
}

/// Values that follow one another are decoded from their own bytes alone.
pub proof fn lemma_decode_items_agrees(s: Seq<u8>, t: Seq<u8>, pos: int, count: nat)
    requires
        0 <= pos <= s.len(),
        decode_items(s, pos, count) matches Decoded::Complete(_, used) && agree(s, t, pos + used),
    ensures
        decode_items(t, pos, count) == decode_items(s, pos, count),
    decreases remaining(s, pos), count + 1,
{
    if count > 0 {
        let before = decode_items(s, pos, (count - 1) as nat);
        let used = before->Complete_1;
        lemma_decode_items_agrees(s, t, pos, (count - 1) as nat);
        lemma_decode_at_agrees(s, t, pos + used);
    }
}

/// No value is read off a buffer that ends before the value does.
pub proof fn lemma_decode_at_prefix(s: Seq<u8>, pos: int, k: int)
    requires
        decode_at(s, pos) matches Decoded::Complete(_, n) && 0 <= k < pos + n,
    ensures
        decode_at(s.take(k), pos) == Decoded::<Value>::Incomplete,
    decreases remaining(s, pos), 0nat,
{
    lemma_decode_at_bounds(s, pos);
    let p = s.take(k);
    if k > pos {
        lemma_line_len(s, pos + 1);
        let d = line_len(s, pos + 1)->0;
        let head = d + 3;
        if k < pos + head {
            lemma_line_len(p, pos + 1);
            if let Some(e) = line_len(p, pos + 1) {
                assert(crlf_at(s, pos + 1 + e));
            }
        } else {
            lemma_line_agrees(s, p, pos + 1, d);
            let line = s.subrange(pos + 1, pos + 1 + d);
            if s[pos] == ARRAY {
                let n = parse_int(line)->0;
                lemma_decode_items_prefix(s, pos + head, n as nat, k);
            }
        }
    }
}

/// Values that follow one another are not all read off a buffer that ends
/// before the last of them does.
pub proof fn lemma_decode_items_prefix(s: Seq<u8>, pos: int, count: nat, k: int)
    requires
        0 <= pos <= k,
        decode_items(s, pos, count) matches Decoded::Complete(_, used) && k < pos + used,
    ensures
        decode_items(s.take(k), pos, count) == Decoded::<Seq<Value>>::Incomplete,
    decreases remaining(s, pos), count + 1,
{
    let p = s.take(k);
    if count > 0 {
        let before = decode_items(s, pos, (count - 1) as nat);
        let used = before->Complete_1;
        lemma_decode_at_bounds(s, pos + used);
        if k < pos + used {
            lemma_decode_items_prefix(s, pos, (count - 1) as nat, k);
        } else {
            lemma_decode_items_agrees(s, p, pos, (count - 1) as nat);
            lemma_decode_at_prefix(s, pos + used, k);
        }
    }
}

/// What makes a buffer malformed at `pos` stays in every buffer that begins
/// with it.
pub proof fn lemma_decode_at_stays_malformed(s: Seq<u8>, t: Seq<u8>, pos: int)
    requires
        decode_at(s, pos) is Malformed,
        agree(s, t, s.len() as int),
    ensures
        decode_at(t, pos) == decode_at(s, pos),
    decreases remaining(s, pos), 0nat,
{
    if is_sigil(s[pos]) {
        lemma_line_len(s, pos + 1);
        let d = line_len(s, pos + 1)->0;
        lemma_line_agrees(s, t, pos + 1, d);
        let line = s.subrange(pos + 1, pos + 1 + d);
        let head = d + 3;
        if s[pos] == ARRAY {
            if let Some(n) = parse_int(line) {
                lemma_decode_items_stay_malformed(s, t, pos + head, n as nat);
            }
        }
    }
}

/// What makes one of the values that follow one another malformed stays in
/// every buffer that begins with this one.
pub proof fn lemma_decode_items_stay_malformed(s: Seq<u8>, t: Seq<u8>, pos: int, count: nat)
    requires
        0 <= pos <= s.len(),
        decode_items(s, pos, count) is Malformed,
        agree(s, t, s.len() as int),
    ensures
        decode_items(t, pos, count) == decode_items(s, pos, count),
    decreases remaining(s, pos), count + 1,
{
    if count > 0 {
        let before = decode_items(s, pos, (count - 1) as nat);
        match before {
            Decoded::Complete(_, used) => {
                lemma_decode_items_bounds(s, pos, (count - 1) as nat);
                lemma_decode_items_agrees(s, t, pos, (count - 1) as nat);
                lemma_decode_at_stays_malformed(s, t, pos + used);
            },
            Decoded::Malformed(_) => {
                lemma_decode_items_stay_malformed(s, t, pos, (count - 1) as nat);
            },
            Decoded::Incomplete => {},
        }
    }
}

/// A line that holds no terminator of its own ends at the terminator that
/// follows it.
proof fn lemma_line_found(s: Seq<u8>, from: int, line: Seq<u8>)
    requires
        0 <= from,
        from + line.len() + 2 <= s.len(),
        s.subrange(from, from + line.len()) == line,
        crlf_at(s, from + line.len()),
        forall|i: int| !crlf_at(line, i),
    ensures
        line_len(s, from) == Some(line.len()),
{
    assert forall|j: int| from <= j < from + line.len() implies !crlf_at(s, j) by {
        if j + 1 < from + line.len() {
            assert(!crlf_at(line, j - from));
        }
    }
    lemma_line_len_is(s, from, line.len());
}

/// The token of a number holds no line terminator and reads back as the
/// number.
proof fn lemma_number_line(n: i64)
    ensures
        forall|i: int| !crlf_at(format_int(n as int), i),
        parse_int(format_int(n as int)) == Some(n),
{
    lemma_format_bytes(n as int);
    lemma_parse_format(n);
}

/// Decoding undoes encoding, wherever in a buffer the encoding stands and
/// whatever follows it.
pub proof fn lemma_decode_encode(pre: Seq<u8>, v: Value, rest: Seq<u8>)
    requires
        representable(v),
    ensures
        decode_at(pre + encode(v) + rest, pre.len() as int) == Decoded::Complete(
            v,
            encode(v).len(),
        ),
    decreases v, 0nat,
{
    let s = pre + encode(v) + rest;
    let pos = pre.len() as int;
    match v {
        Value::SimpleString(text) => {
            let line = encode_utf8(text);
            assert(s.subrange(pos + 1, pos + 1 + line.len()) =~= line);
            lemma_line_found(s, pos + 1, line);
            vstd::utf8::encode_utf8_valid_utf8(text);
            vstd::utf8::encode_utf8_decode_utf8(text);
        },
        Value::Error(text) => {
            let line = encode_utf8(text);
            assert(s.subrange(pos + 1, pos + 1 + line.len()) =~= line);
            lemma_line_found(s, pos + 1, line);
            vstd::utf8::encode_utf8_valid_utf8(text);
            vstd::utf8::encode_utf8_decode_utf8(text);
        },
        Value::Integer(n) => {
            let line = format_int(n as int);
            lemma_number_line(n);
            assert(s.subrange(pos + 1, pos + 1 + line.len()) =~= line);
            lemma_line_found(s, pos + 1, line);
        },
        Value::BulkString(bytes) => {
            let line = format_int(bytes.len() as int);
            lemma_number_line(bytes.len() as i64);
            assert(s.subrange(pos + 1, pos + 1 + line.len()) =~= line);
            lemma_line_found(s, pos + 1, line);
            let head = line.len() + 3;
            assert(s.subrange(pos + head, pos + head + bytes.len()) =~= bytes);
        },
        Value::NullBulkString => {
            let line = format_int(-1);
            lemma_number_line(-1i64);
            assert(s.subrange(pos + 1, pos + 1 + line.len()) =~= line);
            lemma_line_found(s, pos + 1, line);
        },
        Value::Array(items) => {
            let line = format_int(items.len() as int);
            lemma_number_line(items.len() as i64);
            assert(s.subrange(pos + 1, pos + 1 + line.len()) =~= line);
            lemma_line_found(s, pos + 1, line);
            let header = pre + (seq![ARRAY] + line + crlf());
            assert(s =~= header + encode_all(items) + rest);
            lemma_decode_encode_all(header, items, rest);
        },
        Value::NullArray => {
            let line = format_int(-1);
            lemma_number_line(-1i64);
            assert(s.subrange(pos + 1, pos + 1 + line.len()) =~= line);
            lemma_line_found(s, pos + 1, line);
        },
    }
}

/// Decoding undoes the encoding of values that follow one another.
pub proof fn lemma_decode_encode_all(pre: Seq<u8>, items: Seq<Value>, rest: Seq<u8>)
    requires
        forall|i: int| 0 <= i < items.len() ==> representable(#[trigger] items[i]),
    ensures
        decode_items(pre + encode_all(items) + rest, pre.len() as int, items.len())
            == Decoded::Complete(items, encode_all(items).len()),
    decreases items, 1nat,
{
    let s = pre + encode_all(items) + rest;
    if items.len() == 0 {
        assert(items =~= Seq::<Value>::empty());
    } else {
        let front = items.drop_last();
        let last = items.last();
        assert(s =~= pre + encode_all(front) + (encode(last) + rest));
        lemma_decode_encode_all(pre, front, encode(last) + rest);
        assert(s =~= (pre + encode_all(front)) + encode(last) + rest);
        lemma_decode_encode(pre + encode_all(front), last, rest);
        assert(front.push(last) =~= items);
    }
}

/// Round trip: the encoding of a value decodes to that value, and to all of
/// it. This holds of every value whose text is free of line terminators and
/// whose lengths fit a length field.
pub proof fn theorem_round_trip(v: Value)
    requires
        representable(v),
    ensures
        decode(encode(v)) == Decoded::Complete(v, encode(v).len()),
{
    let none = Seq::<u8>::empty();
    lemma_decode_encode(none, v, none);
}

/// Round trip in a stream: whatever follows the encoding of a value in the
/// buffer, the value is decoded and exactly its bytes are taken.
pub proof fn theorem_round_trip_in_stream(v: Value, rest: Seq<u8>)
    requires
        representable(v),
    ensures
        decode(encode(v) + rest) == Decoded::Complete(v, encode(v).len()),
{
    let none = Seq::<u8>::empty();
    lemma_decode_encode(none, v, rest);
}

/// A value is final: bytes that arrive later change neither the value at the
/// front of the buffer nor where it ends.
pub proof fn theorem_value_is_final(buffer: Seq<u8>, more: Seq<u8>)
    requires
        decode(buffer) is Complete,
    ensures
        decode(buffer + more) == decode(buffer),
{
    lemma_decode_at_bounds(buffer, 0);
    lemma_decode_at_agrees(buffer, buffer + more, 0);
}

/// An error is final: no bytes that arrive later make malformed bytes a
/// value. Only a buffer that is incomplete is worth another attempt.
pub proof fn theorem_error_is_final(buffer: Seq<u8>, more: Seq<u8>)
    requires
        decode(buffer) is Malformed,
    ensures
        decode(buffer + more) == decode(buffer),
{
    lemma_decode_at_stays_malformed(buffer, buffer + more, 0);
}

/// Incremental delivery: bytes that arrive in two pieces fill the buffer as
/// they do when they arrive at once, so what is decoded is the same.
pub proof fn theorem_incremental_delivery(buffer: Seq<u8>, first: Seq<u8>, second: Seq<u8>)
    ensures
        (buffer + first) + second == buffer + (first + second),
        decode((buffer + first) + second) == decode(buffer + (first + second)),
{
    assert((buffer + first) + second =~= buffer + (first + second));
}

/// Partial reads: of a message that decodes as a whole, no strict prefix
/// decodes to anything. It is incomplete, which leaves the buffer as it is,
/// and once the remainder has arrived the message decodes as before.
pub proof fn theorem_partial_read(message: Seq<u8>, k: int)
    requires
        decode(message) matches Decoded::Complete(_, n) && n == message.len(),
        0 <= k < message.len(),
    ensures
        decode(message.take(k)) == Decoded::<Value>::Incomplete,
        decode(message.take(k) + message.skip(k)) == decode(message),
{
    lemma_decode_at_prefix(message, 0, k);
    assert(message.take(k) + message.skip(k) =~= message);
}

} // verus!
