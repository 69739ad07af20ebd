//! Values as text, for people to read: a full form that follows the wire
//! format line by line, and a compact form on one line.
//!
//! Neither is the wire encoding: a binary payload is shown as text, with
//! U+FFFD where it is not UTF-8, and the full form sets the elements of an
//! array off by a space.

use super::number::{format_int, lemma_format_bytes, push_i64, push_len};
use super::types::{lemma_array_view, values_of, RespValue, Value};
use crate::text::{ascii_string, ascii_text, lossy_string, lossy_text};
use vstd::prelude::*;

verus! {

/// The decimal numeral of `n`.
pub open spec fn numeral(n: int) -> Seq<char> {
    ascii_text(format_int(n))
}

/// The full form of a bulk string of `len` bytes that read as `payload`.
pub open spec fn bulk_display_text(len: int, payload: Seq<char>) -> Seq<char> {
    "$"@ + numeral(len) + "\r\n"@ + payload + "\r\n"@
}

/// The compact form of a bulk string of `len` bytes that read as `payload`.
pub open spec fn bulk_debug_text(len: int, payload: Seq<char>) -> Seq<char> {
    "$"@ + numeral(len) + ","@ + payload
}

/// The full form of `v`.
pub open spec fn display_text(v: Value) -> Seq<char>
    decreases v, 0nat,
{
    match v {
        Value::SimpleString(text) => "+"@ + text + "\r\n"@,
        Value::Error(text) => "-"@ + text + "\r\n"@,
        Value::Integer(n) => ":"@ + numeral(n as int) + "\r\n"@,
        Value::BulkString(bytes) => bulk_display_text(bytes.len() as int, lossy_text(bytes)),
        Value::NullBulkString => "$-1\r\n"@,
        Value::Array(items) => "*"@ + numeral(items.len() as int) + "\r\n"@ + display_items(items),
        Value::NullArray => "*-1\r\n"@,
    }
}

/// The full forms of `items`, a space before each.
pub open spec fn display_items(items: Seq<Value>) -> Seq<char>
    decreases items, 1nat,
{
    if items.len() == 0 {
        Seq::empty()
    } else {
        display_items(items.drop_last()) + " "@ + display_text(items.last())
    }
}

/// The compact form of `v`.
pub open spec fn debug_text(v: Value) -> Seq<char>
    decreases v, 0nat,
{
    match v {
        Value::SimpleString(text) => "+"@ + text,
        Value::Error(text) => "-"@ + text,
        Value::Integer(n) => ":"@ + numeral(n as int),
        Value::BulkString(bytes) => bulk_debug_text(bytes.len() as int, lossy_text(bytes)),
        Value::NullBulkString => "$-1"@,
        Value::Array(items) => "*"@ + numeral(items.len() as int) + debug_items(items),
        Value::NullArray => "*-1"@,
    }
}

/// The compact forms of `items`, a comma before each.
pub open spec fn debug_items(items: Seq<Value>) -> Seq<char>
    decreases items, 1nat,
{
    if items.len() == 0 {
        Seq::empty()
    } else {
        debug_items(items.drop_last()) + ","@ + debug_text(items.last())
    }
}

/// Appends the numeral of `n` to `out`.
fn push_number(out: &mut String, n: i64)
    ensures
        final(out)@ == old(out)@ + numeral(n as int),
{
    let mut digits: Vec<u8> = Vec::new();
    push_i64(&mut digits, n);
    proof {
        lemma_format_bytes(n as int);
    }
    let text = ascii_string(digits);
    out.append(text.as_str());
}

/// Appends the numeral of the length `n` to `out`.
fn push_count(out: &mut String, n: usize)
    ensures
        final(out)@ == old(out)@ + numeral(n as int),
{
    let mut digits: Vec<u8> = Vec::new();
    push_len(&mut digits, n);
    proof {
        lemma_format_bytes(n as int);
    }
    let text = ascii_string(digits);
    out.append(text.as_str());
}

/// Appends to `out` the full form of a bulk string of `len` bytes that read
/// as `payload`.
pub fn push_bulk_display(out: &mut String, len: usize, payload: &str)
    ensures
        final(out)@ == old(out)@ + bulk_display_text(len as int, payload@),
{
    out.append("$");
    push_count(out, len);
    out.append("\r\n");
    out.append(payload);
    out.append("\r\n");
}

/// Appends to `out` the compact form of a bulk string of `len` bytes that
/// read as `payload`.
pub fn push_bulk_debug(out: &mut String, len: usize, payload: &str)
    ensures
        final(out)@ == old(out)@ + bulk_debug_text(len as int, payload@),
{
    out.append("$");
    push_count(out, len);
    out.append(",");
    out.append(payload);
}

impl RespValue {
    /// Appends the full form of the value to `out`.
    fn write_display(&self, out: &mut String)
        ensures
            final(out)@ == old(out)@ + display_text(self@),
        decreases self,
    {
        match self {
            RespValue::SimpleString(s) => {
                out.append("+");
                out.append(s.as_str());
                out.append("\r\n");
            },
            RespValue::Error(e) => {
                out.append("-");
                out.append(e.as_str());
                out.append("\r\n");
            },
            RespValue::Integer(i) => {
                out.append(":");
                push_number(out, *i);
                out.append("\r\n");
            },
            RespValue::BulkString(bs) => {
                let payload = lossy_string(bs.as_slice());
                push_bulk_display(out, bs.len(), payload.as_str());
            },
            RespValue::NullBulkString() => {
                out.append("$-1\r\n");
            },
            RespValue::Array(array) => {
                out.append("*");
                push_count(out, array.len());
                out.append("\r\n");
                let ghost header = out@;
                let ghost models = values_of(array@);
                proof {
                    lemma_array_view(*array);
                }
                let mut i: usize = 0;
                while i < array.len()
                    invariant
                        i <= array@.len(),
                        self matches RespValue::Array(v) && v == array,
                        models == values_of(array@),
                        out@ == header + display_items(models.take(i as int)),
                    decreases array@.len() - i,
                {
                    proof {
                        assert(models.take(i + 1).drop_last() =~= models.take(i as int));
                    }
                    out.append(" ");
                    array[i].write_display(out);
                    i += 1;
                }
                assert(models.take(i as int) =~= models);
            },
            RespValue::NullArray() => {
                out.append("*-1\r\n");
            },
        }
    }

    /// Appends the compact form of the value to `out`.
    fn write_debug(&self, out: &mut String)
        ensures
            final(out)@ == old(out)@ + debug_text(self@),
        decreases self,
    {
        match self {
            RespValue::SimpleString(s) => {
                out.append("+");
                out.append(s.as_str());
            },
            RespValue::Error(e) => {
                out.append("-");
                out.append(e.as_str());
            },
            RespValue::Integer(i) => {
                out.append(":");
                push_number(out, *i);
            },
            RespValue::BulkString(bs) => {
                let payload = lossy_string(bs.as_slice());
                push_bulk_debug(out, bs.len(), payload.as_str());
            },
            RespValue::NullBulkString() => {
                out.append("$-1");
            },
            RespValue::Array(array) => {
                out.append("*");
                push_count(out, array.len());
                let ghost header = out@;
                let ghost models = values_of(array@);
                proof {
                    lemma_array_view(*array);
                }
                let mut i: usize = 0;
                while i < array.len()
                    invariant
                        i <= array@.len(),
                        self matches RespValue::Array(v) && v == array,
                        models == values_of(array@),
                        out@ == header + debug_items(models.take(i as int)),
                    decreases array@.len() - i,
                {
                    proof {
                        assert(models.take(i + 1).drop_last() =~= models.take(i as int));
                    }
                    out.append(",");
                    array[i].write_debug(out);
                    i += 1;
                }
                assert(models.take(i as int) =~= models);
            },
            RespValue::NullArray() => {
                out.append("*-1");
            },
        }
    }

    /// The full form of the value: each part on a line of its own, as on the
    /// wire, and a space before each element of an array.
    pub fn to_string(&self) -> (text: String)
        ensures
            text@ == display_text(self@),
    {
        let mut text = String::new();
        self.write_display(&mut text);
        text
    }

    /// The compact form of the value: its parts on one line, with commas
    /// between them.
    pub fn to_debug_string(&self) -> (text: String)
        ensures
            text@ == debug_text(self@),
    {
        let mut text = String::new();
        self.write_debug(&mut text);
        text
    }
}

} // verus!
