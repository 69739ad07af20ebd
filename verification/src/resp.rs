//! The wire protocol: values, their byte encoding and the incremental decoder.

pub mod laws;
pub mod number;
pub mod render;
pub mod types;
pub mod wire;

pub use types::RespValue;
pub use wire::DecodeError;

use crate::text::string_from_utf8;
use number::{parse_i64, push_i64, push_len};
use types::{lemma_array_view, values_of, Value};
use vstd::prelude::*;
use vstd::slice::{slice_subrange, slice_to_vec};
use vstd::utf8::{decode_utf8, valid_utf8};
use wire::{
    crlf_at, decode, decode_at, decode_items, encode, encode_all, lemma_decode_at_bounds,
    lemma_decode_items_stuck, lemma_line_len, lemma_line_len_is, line_len, Decoded, ARRAY, BULK,
    CR, ERROR, INTEGER, LF, SIMPLE,
};

verus! {

/// The index of the first line terminator at or after `from`.
fn find_crlf(buffer: &[u8], from: usize) -> (r: Option<usize>)
    requires
        from <= buffer.len(),
    ensures
        match r {
            Some(i) => from <= i && i + 2 <= buffer@.len() && line_len(buffer@, from as int)
                == Some((i - from) as nat),
            None => line_len(buffer@, from as int) is None,
        },
{
    let total: usize = buffer.len();
    if total < 2 {
        return None;
    }
    let mut i: usize = from;
    while i < total - 1
        invariant
            total == buffer@.len(),
            total >= 2,
            from <= i <= buffer@.len(),
            forall|j: int| from <= j < i ==> !crlf_at(buffer@, j),
        decreases buffer@.len() - i,
    {
        if buffer[i] == CR && buffer[i + 1] == LF {
            proof {
                lemma_line_len_is(buffer@, from as int, (i - from) as nat);
            }
            return Some(i);
        }
        i += 1;
    }
    proof {
        lemma_line_len(buffer@, from as int);
    }
    None
}

/// What an attempt to read a value gives: the value with the number of
/// bytes that it spans, `None` when more bytes are needed, or the error.
type Found<T> = Result<Option<(T, usize)>, DecodeError>;

/// Whether `r` reports what `d` says: the value with the bytes it spans, the
/// need for more bytes, or the error.
spec fn reports(r: Found<RespValue>, d: Decoded<Value>) -> bool {
    match d {
        Decoded::Complete(v, n) => r matches Ok(Some((x, used))) && x@ == v && used == n,
        Decoded::Incomplete => r == Found::<RespValue>::Ok(None),
        Decoded::Malformed(e) => r == Found::<RespValue>::Err(e),
    }
}

impl RespValue {
    /// Appends the canonical encoding of the value to `out`.
    pub fn write_to(&self, out: &mut Vec<u8>)
        ensures
            final(out)@ == old(out)@ + encode(self@),
        decreases self,
    {
        match self {
            RespValue::SimpleString(text) => {
                out.push(SIMPLE);
                out.extend_from_slice(text.as_str().as_bytes());
                out.push(CR);
                out.push(LF);
            },
            RespValue::Error(text) => {
                out.push(ERROR);
                out.extend_from_slice(text.as_str().as_bytes());
                out.push(CR);
                out.push(LF);
            },
            RespValue::Integer(n) => {
                out.push(INTEGER);
                push_i64(out, *n);
                out.push(CR);
                out.push(LF);
            },
            RespValue::BulkString(bytes) => {
                out.push(BULK);
                push_len(out, bytes.len());
                out.push(CR);
                out.push(LF);
                out.extend_from_slice(bytes.as_slice());
                out.push(CR);
                out.push(LF);
            },
            RespValue::NullBulkString() => {
                out.push(BULK);
                push_i64(out, -1);
                out.push(CR);
                out.push(LF);
            },
            RespValue::Array(items) => {
                out.push(ARRAY);
                push_len(out, items.len());
                out.push(CR);
                out.push(LF);
                let ghost header = out@;
                let ghost models = values_of(items@);
                proof {
                    lemma_array_view(*items);
                }
                let mut i: usize = 0;
                while i < items.len()
                    invariant
                        i <= items@.len(),
                        self matches RespValue::Array(v) && v == items,
                        models == values_of(items@),
                        out@ == header + encode_all(models.take(i as int)),
                    decreases items@.len() - i,
                {
                    proof {
                        assert(models.take(i + 1).drop_last() =~= models.take(i as int));
                    }
                    items[i].write_to(out);
                    i += 1;
                }
                assert(models.take(i as int) =~= models);
            },
            RespValue::NullArray() => {
                out.push(ARRAY);
                push_i64(out, -1);
                out.push(CR);
                out.push(LF);
            },
        }
    }

    /// The canonical encoding of the value.
    pub fn serialize(&self) -> (bytes: Vec<u8>)
        ensures
            bytes@ == encode(self@),
    {
        let mut bytes: Vec<u8> = Vec::new();
        self.write_to(&mut bytes);
        bytes
    }
}

/// The decoder's only state: the bytes that have arrived and have not yet
/// been taken as part of a value.
pub struct RespParser {
    buffer: Vec<u8>,
}

impl View for RespParser {
    type V = Seq<u8>;

    closed spec fn view(&self) -> Seq<u8> {
        self.buffer@
    }
}

impl RespParser {
    /// A decoder with an empty buffer.
    pub fn new() -> (parser: Self)
        ensures
            parser@ == Seq::<u8>::empty(),
    {
        RespParser { buffer: Vec::new() }
    }

    /// Adds `data` at the end of the buffer. Nothing is decoded.
    pub fn append(&mut self, data: &[u8])
        ensures
            final(self)@ == old(self)@ + data@,
    {
        self.buffer.extend_from_slice(data);
    }

    /// The bytes in the buffer.
    pub fn buffered(&self) -> (bytes: &[u8])
        ensures
            bytes@ == self@,
    {
        self.buffer.as_slice()
    }

    /// Takes the first value off the buffer, if it is whole.
    ///
    /// With a whole value at its front the buffer loses exactly the bytes of
    /// that value. Otherwise it is left as it was: `Ok(None)` asks for more
    /// bytes, and an error says that no further bytes can make the front of
    /// the buffer a value.
    pub fn try_decode(&mut self) -> (r: Result<Option<RespValue>, DecodeError>)
        ensures
            match decode(old(self)@) {
                Decoded::Complete(v, n) => {
                    &&& r matches Ok(Some(x)) && x@ == v
                    &&& final(self)@ == old(self)@.skip(n as int)
                },
                Decoded::Incomplete => {
                    &&& r == Ok::<Option<RespValue>, DecodeError>(None)
                    &&& final(self)@ == old(self)@
                },
                Decoded::Malformed(e) => {
                    &&& r == Err::<Option<RespValue>, DecodeError>(e)
                    &&& final(self)@ == old(self)@
                },
            },
    {
        match Self::decode_value(self.buffer.as_slice(), 0) {
            Ok(Some((value, used))) => {
                proof {
                    lemma_decode_at_bounds(self.buffer@, 0);
                }
                let rest = self.buffer.split_off(used);
                self.buffer = rest;
                Ok(Some(value))
            },
            Ok(None) => Ok(None),
            Err(e) => Err(e),
        }
    }

    /// Takes the first value off the buffer, if there is one.
    ///
    /// `None` leaves the buffer as it was, whether the value is still
    /// incomplete or the bytes are malformed; `try_decode` tells the two
    /// apart.
    pub fn parse(&mut self) -> (r: Option<RespValue>)
        ensures
            match decode(old(self)@) {
                Decoded::Complete(v, n) => {
                    &&& r matches Some(x) && x@ == v
                    &&& final(self)@ == old(self)@.skip(n as int)
                },
                _ => r is None && final(self)@ == old(self)@,
            },
    {
        match self.try_decode() {
            Ok(found) => found,
            Err(_) => None,
        }
    }

    /// Reads the text line of a simple string or an error that starts at `pos`
    /// and hands back the text with the bytes that the value spans.
    fn parse_line_text(buffer: &[u8], pos: usize) -> (r: Found<String>)
        requires
            pos < buffer.len(),
        ensures
            match line_len(buffer@, pos + 1) {
                None => r == Found::<String>::Ok(None),
                Some(d) => {
                    let line = buffer@.subrange(pos + 1, pos + 1 + d);
                    if vstd::utf8::valid_utf8(line) {
                        r matches Ok(Some((text, used))) && text@ == vstd::utf8::decode_utf8(line)
                            && used == d + 3
                    } else {
                        r == Found::<String>::Err(DecodeError::InvalidUtf8)
                    }
                },
            },
    {
        let end: usize = match find_crlf(buffer, pos + 1) {
            Some(i) => i,
            None => {
                return Ok(None);
            },
        };
        let line = slice_to_vec(slice_subrange(buffer, pos + 1, end));
        match string_from_utf8(line) {
            Some(text) => Ok(Some((text, end + 2 - pos))),
            None => Err(DecodeError::InvalidUtf8),
        }
    }

    /// A simple string: `+`, text, CR LF.
    fn parse_simple_string(buffer: &[u8], pos: usize) -> (r: Found<RespValue>)
        requires
            pos < buffer.len(),
            buffer@[pos as int] == SIMPLE,
        ensures
            reports(r, decode_at(buffer@, pos as int)),
    {
        match Self::parse_line_text(buffer, pos) {
            Ok(Some((text, used))) => Ok(Some((RespValue::SimpleString(text), used))),
            Ok(None) => Ok(None),
            Err(e) => Err(e),
        }
    }

    /// An error: `-`, text, CR LF.
    fn parse_error(buffer: &[u8], pos: usize) -> (r: Found<RespValue>)
        requires
            pos < buffer.len(),
            buffer@[pos as int] == ERROR,
        ensures
            reports(r, decode_at(buffer@, pos as int)),
    {
        match Self::parse_line_text(buffer, pos) {
            Ok(Some((text, used))) => Ok(Some((RespValue::Error(text), used))),
            Ok(None) => Ok(None),
            Err(e) => Err(e),
        }
    }

    /// An integer: `:`, a number, CR LF.
    fn parse_integer(buffer: &[u8], pos: usize) -> (r: Found<RespValue>)
        requires
            pos < buffer.len(),
            buffer@[pos as int] == INTEGER,
        ensures
            reports(r, decode_at(buffer@, pos as int)),
    {
        let end: usize = match find_crlf(buffer, pos + 1) {
            Some(i) => i,
            None => {
                return Ok(None);
            },
        };
        match parse_i64(buffer, pos + 1, end) {
            Some(n) => Ok(Some((RespValue::Integer(n), end + 2 - pos))),
            None => Err(DecodeError::InvalidInteger),
        }
    }

    /// A bulk string: `$`, the length, CR LF, that many bytes, CR LF. A negative
    /// length stands for the null bulk string, which ends with its first line.
    fn parse_bulk_string(buffer: &[u8], pos: usize) -> (r: Found<RespValue>)
        requires
            pos < buffer.len(),
            buffer@[pos as int] == BULK,
        ensures
            reports(r, decode_at(buffer@, pos as int)),
    {
        let total: usize = buffer.len();
        let len_end: usize = match find_crlf(buffer, pos + 1) {
            Some(i) => i,
            None => {
                return Ok(None);
            },
        };
        let len: i64 = match parse_i64(buffer, pos + 1, len_end) {
            Some(n) => n,
            None => {
                return Err(DecodeError::InvalidLength);
            },
        };
        let start: usize = len_end + 2;
        let header_bytes: usize = start - pos;
        if len < 0 {
            return Ok(Some((RespValue::NullBulkString(), header_bytes)));
        }
        let available: usize = total - start;
        if (available as u128) < (len as u128) + 2 {
            return Ok(None);
        }
        let size: usize = len as usize;
        if buffer[start + size] != CR || buffer[start + size + 1] != LF {
            return Err(DecodeError::MissingTerminator);
        }
        let data = slice_to_vec(slice_subrange(buffer, start, start + size));
        Ok(Some((RespValue::BulkString(data), header_bytes + size + 2)))
    }

    /// An array: `*`, the count, CR LF, that many values. A negative count
    /// stands for the null array, which ends with its first line.
    #[verifier::loop_isolation(false)]
    fn parse_array(buffer: &[u8], pos: usize) -> (r: Found<RespValue>)
        requires
            pos < buffer.len(),
            buffer@[pos as int] == ARRAY,
        ensures
            reports(r, decode_at(buffer@, pos as int)),
        decreases buffer@.len() - pos, 0nat,
    {
        let total: usize = buffer.len();
        let header_end: usize = match find_crlf(buffer, pos + 1) {
            Some(i) => i,
            None => {
                return Ok(None);
            },
        };
        let count: i64 = match parse_i64(buffer, pos + 1, header_end) {
            Some(n) => n,
            None => {
                return Err(DecodeError::InvalidLength);
            },
        };
        let start: usize = header_end + 2;
        if count < 0 {
            return Ok(Some((RespValue::NullArray(), start - pos)));
        }
        let mut items: Vec<RespValue> = Vec::new();
        let mut offset: usize = start;
        let mut i: i64 = 0;
        assert(values_of(items@) =~= Seq::<Value>::empty());
        while i < count
            invariant
                0 <= i <= count,
                pos < start <= offset <= total == buffer@.len(),
                decode_items(buffer@, start as int, i as nat) == Decoded::Complete(
                    values_of(items@),
                    (offset - start) as nat,
                ),
            decreases count - i,
        {
            let ghost before = values_of(items@);
            match Self::decode_value(buffer, offset) {
                Ok(Some((item, used))) => {
                    proof {
                        lemma_decode_at_bounds(buffer@, offset as int);
                    }
                    items.push(item);
                    offset += used;
                    assert(values_of(items@) =~= before.push(item@));
                },
                Ok(None) => {
                    proof {
                        lemma_decode_items_stuck(
                            buffer@,
                            start as int,
                            (i + 1) as nat,
                            count as nat,
                        );
                    }
                    return Ok(None);
                },
                Err(e) => {
                    proof {
                        lemma_decode_items_stuck(
                            buffer@,
                            start as int,
                            (i + 1) as nat,
                            count as nat,
                        );
                    }
                    return Err(e);
                },
            }
            i += 1;
        }
        proof {
            lemma_array_view(items);
        }
        Ok(Some((RespValue::Array(items), offset - pos)))
    }

    /// Reads the value that starts at `pos`: the sigil decides which kind.
    fn decode_value(buffer: &[u8], pos: usize) -> (r: Found<RespValue>)
        requires
            pos <= buffer.len(),
        ensures
            reports(r, decode_at(buffer@, pos as int)),
        decreases buffer@.len() - pos, 1nat,
    {
        if pos >= buffer.len() {
            return Ok(None);
        }
        let sigil: u8 = buffer[pos];
        if sigil == SIMPLE {
            Self::parse_simple_string(buffer, pos)
        } else if sigil == ERROR {
            Self::parse_error(buffer, pos)
        } else if sigil == INTEGER {
            Self::parse_integer(buffer, pos)
        } else if sigil == BULK {
            Self::parse_bulk_string(buffer, pos)
        } else if sigil == ARRAY {
            Self::parse_array(buffer, pos)
        } else {
            Err(DecodeError::UnknownType)
        }
    }
}

} // verus!
