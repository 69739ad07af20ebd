//! Typed access to the arguments of a command.

use crate::commands::{CommandParseError, ParseFailure};
use crate::resp::number::{parse_i64, parse_int};
use crate::resp::types::{values_of, RespValue, Value};
use crate::text::string_from_utf8;
use vstd::prelude::*;
use vstd::slice::slice_to_vec;
use vstd::utf8::{decode_utf8, encode_utf8, valid_utf8};

verus! {

/// The arguments of a command, by position.
pub struct CommandArgs<'a> {
    args: &'a [RespValue],
}

impl<'a> View for CommandArgs<'a> {
    type V = Seq<Value>;

    closed spec fn view(&self) -> Seq<Value> {
        values_of(self.args@)
    }
}

/// The bytes of the argument at `index`: those of a bulk string, or the
/// UTF-8 of a simple string. Any other value, and a missing one, has none.
pub open spec fn arg_bytes(args: Seq<Value>, index: int) -> Option<Seq<u8>> {
    if 0 <= index < args.len() {
        match args[index] {
            Value::BulkString(bytes) => Some(bytes),
            Value::SimpleString(text) => Some(encode_utf8(text)),
            _ => None,
        }
    } else {
        None
    }
}

/// The argument at `index` as text.
pub open spec fn arg_string(args: Seq<Value>, index: int) -> Result<Seq<char>, ParseFailure> {
    match arg_bytes(args, index) {
        Some(bytes) => if valid_utf8(bytes) {
            Ok(decode_utf8(bytes))
        } else {
            Err(ParseFailure::InvalidUtf8)
        },
        None => Err(ParseFailure::InvalidType),
    }
}

/// The argument at `index` as a number: an integer value, or a string that
/// spells one.
pub open spec fn arg_int(args: Seq<Value>, index: int) -> Result<i64, ParseFailure> {
    if 0 <= index < args.len() {
        match args[index] {
            Value::Integer(n) => Ok(n),
            Value::BulkString(bytes) => match parse_int(bytes) {
                Some(n) => Ok(n),
                None => Err(ParseFailure::InvalidType),
            },
            Value::SimpleString(text) => match parse_int(encode_utf8(text)) {
                Some(n) => Ok(n),
                None => Err(ParseFailure::InvalidType),
            },
            _ => Err(ParseFailure::InvalidType),
        }
    } else {
        Err(ParseFailure::InvalidType)
    }
}

impl<'a> CommandArgs<'a> {
    /// The arguments `args`.
    pub fn new(args: &'a [RespValue]) -> (r: Self)
        ensures
            r@ == values_of(args@),
    {
        Self { args }
    }

    /// The number of arguments.
    pub fn len(&self) -> (n: usize)
        ensures
            n == self@.len(),
    {
        self.args.len()
    }

    /// The bytes of the argument at `index`, which must be a string.
    pub fn take_bytes(&self, index: usize) -> (r: Result<&[u8], CommandParseError>)
        ensures
            match arg_bytes(self@, index as int) {
                Some(bytes) => r matches Ok(found) && found@ == bytes,
                None => r matches Err(e) && e@ == ParseFailure::InvalidType,
            },
    {
        if index >= self.args.len() {
            return Err(CommandParseError::InvalidType);
        }
        match &self.args[index] {
            RespValue::BulkString(bs) => Ok(bs.as_slice()),
            RespValue::SimpleString(s) => Ok(s.as_str().as_bytes()),
            _ => Err(CommandParseError::InvalidType),
        }
    }

    /// The argument at `index` as text: a string that is UTF-8.
    pub fn take_string(&self, index: usize) -> (r: Result<String, CommandParseError>)
        ensures
            match arg_string(self@, index as int) {
                Ok(text) => r matches Ok(found) && found@ == text,
                Err(e) => r matches Err(f) && f@ == e,
            },
    {
        let bs = match self.take_bytes(index) {
            Ok(bs) => bs,
            Err(e) => {
                return Err(e);
            },
        };
        match string_from_utf8(slice_to_vec(bs)) {
            Some(text) => Ok(text),
            None => Err(CommandParseError::InvalidUtf8),
        }
    }

    /// The argument at `index` as text, or `None` where the command was
    /// given no such argument.
    pub fn take_opt_string(&self, index: usize) -> (r: Result<Option<String>, CommandParseError>)
        ensures
            index >= self@.len() ==> r matches Ok(None),
            index < self@.len() ==> match arg_string(self@, index as int) {
                Ok(text) => r matches Ok(Some(found)) && found@ == text,
                Err(e) => r matches Err(f) && f@ == e,
            },
    {
        if index < self.len() {
            match self.take_string(index) {
                Ok(s) => Ok(Some(s)),
                Err(e) => Err(e),
            }
        } else {
            Ok(None)
        }
    }

    /// The argument at `index` as a number.
    pub fn take_int(&self, index: usize) -> (r: Result<i64, CommandParseError>)
        ensures
            match arg_int(self@, index as int) {
                Ok(n) => r matches Ok(found) && found == n,
                Err(e) => r matches Err(f) && f@ == e,
            },
    {
        if index >= self.args.len() {
            return Err(CommandParseError::InvalidType);
        }
        match &self.args[index] {
            RespValue::Integer(i) => Ok(*i),
            RespValue::BulkString(bs) => {
                assert(bs@.subrange(0, bs@.len() as int) =~= bs@);
                match parse_i64(bs.as_slice(), 0, bs.len()) {
                    Some(n) => Ok(n),
                    None => Err(CommandParseError::InvalidType),
                }
            },
            RespValue::SimpleString(s) => {
                let bytes = s.as_str().as_bytes();
                assert(bytes@.subrange(0, bytes@.len() as int) =~= bytes@);
                match parse_i64(bytes, 0, bytes.len()) {
                    Some(n) => Ok(n),
                    None => Err(CommandParseError::InvalidType),
                }
            },
            _ => Err(CommandParseError::InvalidType),
        }
    }

    /// The argument at `index` as a number, or `None` where the command was
    /// given no such argument.
    pub fn take_opt_int(&self, index: usize) -> (r: Result<Option<i64>, CommandParseError>)
        ensures
            index >= self@.len() ==> r matches Ok(None),
            index < self@.len() ==> match arg_int(self@, index as int) {
                Ok(n) => r matches Ok(Some(found)) && found == n,
                Err(e) => r matches Err(f) && f@ == e,
            },
    {
        if index < self.len() {
            match self.take_int(index) {
                Ok(n) => Ok(Some(n)),
                Err(e) => Err(e),
            }
        } else {
            Ok(None)
        }
    }
}

} // verus!
