//! The commands that a client can send.

use crate::commands::{failure_text, CommandParseError, ParseFailure};
use crate::resp::types::{lemma_array_view, RespValue, Value};
use crate::text::{ascii_lowercase, string_from_utf8, to_ascii_lowercase};
use vstd::prelude::*;
use vstd::slice::slice_to_vec;
use vstd::std_specs::convert::TryFromSpecImpl;
use vstd::utf8::{decode_utf8, valid_utf8};

verus! {

/// The model of a [`ClientCommand`]: text as characters.
pub enum Command {
    Ping(Option<Seq<char>>),
}

/// A command of a client.
#[derive(Debug, PartialEq, Eq)]
pub enum ClientCommand {
    /// Asks for a sign of life, with or without a message to send back.
    Ping(Option<String>),
}

impl View for ClientCommand {
    type V = Command;

    open spec fn view(&self) -> Command {
        match self {
            ClientCommand::Ping(Some(message)) => Command::Ping(Some(message@)),
            ClientCommand::Ping(None) => Command::Ping(None),
        }
    }
}

impl Clone for ClientCommand {
    fn clone(&self) -> (r: Self)
        ensures
            r@ == self@,
    {
        match self {
            ClientCommand::Ping(Some(message)) => ClientCommand::Ping(Some(message.clone())),
            ClientCommand::Ping(None) => ClientCommand::Ping(None),
        }
    }
}

/// The name of the one command, in lower case.
pub open spec fn ping_name() -> Seq<char> {
    "ping"@
}

/// The `ping` command that `args` ask for: no argument, or one message that
/// is a bulk string in UTF-8.
pub open spec fn decode_ping(name: Seq<char>, args: Seq<Value>) -> Result<Command, ParseFailure> {
    if args.len() == 0 {
        Ok(Command::Ping(None))
    } else if args.len() == 1 {
        match args[0] {
            Value::BulkString(bytes) => if valid_utf8(bytes) {
                Ok(Command::Ping(Some(decode_utf8(bytes))))
            } else {
                Err(ParseFailure::InvalidUtf8)
            },
            _ => Err(ParseFailure::InvalidType),
        }
    } else {
        Err(ParseFailure::ArityMismatch(name))
    }
}

/// The command that goes by `name`, with its arguments `args`. Names are
/// matched without regard to case.
pub open spec fn decode_named(name: Seq<char>, args: Seq<Value>) -> Result<Command, ParseFailure> {
    let lower = ascii_lowercase(name);
    if lower == ping_name() {
        decode_ping(lower, args)
    } else {
        Err(ParseFailure::UnknownCommand(lower))
    }
}

/// The command that the value `v` stands for.
///
/// A command is an array that is not empty: a bulk string with the name,
/// then the arguments. A simple string alone names a command without
/// arguments. Every other value is a syntax error.
pub open spec fn decode_command(v: Value) -> Result<Command, ParseFailure> {
    match v {
        Value::Array(items) => if items.len() == 0 {
            Err(ParseFailure::InvalidSyntax)
        } else {
            match items[0] {
                Value::BulkString(name) => if valid_utf8(name) {
                    decode_named(decode_utf8(name), items.skip(1))
                } else {
                    Err(ParseFailure::InvalidUtf8)
                },
                _ => Err(ParseFailure::InvalidType),
            }
        },
        Value::SimpleString(name) => decode_named(name, Seq::empty()),
        _ => Err(ParseFailure::InvalidSyntax),
    }
}

/// Arity: a ping with two or more arguments is refused as such, and the
/// error names the command.
pub proof fn theorem_ping_arity(name: Seq<u8>, args: Seq<Value>)
    requires
        valid_utf8(name),
        ascii_lowercase(decode_utf8(name)) == ping_name(),
        args.len() >= 2,
    ensures
        decode_command(Value::Array(seq![Value::BulkString(name)] + args)) == Err::<
            Command,
            ParseFailure,
        >(ParseFailure::ArityMismatch(ping_name())),
        failure_text(ParseFailure::ArityMismatch(ping_name()))
            == "wrong number of arguments for '"@ + "ping"@ + "' command"@,
{
}

/// Types: a ping whose one argument is not a bulk string is a type error.
pub proof fn theorem_ping_argument_type(name: Seq<u8>, arg: Value)
    requires
        valid_utf8(name),
        ascii_lowercase(decode_utf8(name)) == ping_name(),
        !(arg is BulkString),
    ensures
        decode_command(Value::Array(seq![Value::BulkString(name), arg])) == Err::<
            Command,
            ParseFailure,
        >(ParseFailure::InvalidType),
{
}

impl TryFromSpecImpl<RespValue> for ClientCommand {
    open spec fn obeys_try_from_spec() -> bool {
        false
    }

    open spec fn try_from_spec(v: RespValue) -> Result<Self, Self::Error> {
        Err(CommandParseError::InvalidSyntax)
    }
}

impl TryFrom<RespValue> for ClientCommand {
    type Error = CommandParseError;

    /// Reads `resp` as a command.
    fn try_from(resp: RespValue) -> (r: Result<ClientCommand, CommandParseError>)
        ensures
            match decode_command(resp@) {
                Ok(command) => r matches Ok(found) && found@ == command,
                Err(e) => r matches Err(f) && f@ == e,
            },
    {
        match resp {
            RespValue::Array(items) => {
                proof {
                    lemma_array_view(items);
                }
                if items.len() == 0 {
                    return Err(CommandParseError::InvalidSyntax);
                }
                let command_name = match &items[0] {
                    RespValue::BulkString(bs) => match string_from_utf8(
                        slice_to_vec(bs.as_slice()),
                    ) {
                        Some(name) => to_ascii_lowercase(name.as_str()),
                        None => {
                            return Err(CommandParseError::InvalidUtf8);
                        },
                    },
                    _ => {
                        return Err(CommandParseError::InvalidType);
                    },
                };
                if command_name == String::from_str("ping") {
                    if items.len() == 1 {
                        Ok(ClientCommand::Ping(None))
                    } else if items.len() == 2 {
                        match &items[1] {
                            RespValue::BulkString(bs) => match string_from_utf8(
                                slice_to_vec(bs.as_slice()),
                            ) {
                                Some(message) => Ok(ClientCommand::Ping(Some(message))),
                                None => Err(CommandParseError::InvalidUtf8),
                            },
                            _ => Err(CommandParseError::InvalidType),
                        }
                    } else {
                        Err(CommandParseError::ArityMismatch(command_name))
                    }
                } else {
                    Err(CommandParseError::UnknownCommand(command_name))
                }
            },
            RespValue::SimpleString(s) => {
                let command_name = to_ascii_lowercase(s.as_str());
                if command_name == String::from_str("ping") {
                    Ok(ClientCommand::Ping(None))
                } else {
                    Err(CommandParseError::UnknownCommand(command_name))
                }
            },
            _ => Err(CommandParseError::InvalidSyntax),
        }
    }
}

} // verus!
