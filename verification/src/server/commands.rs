//! What the server says to a client.

use crate::resp::types::{RespValue, Value};
use vstd::prelude::*;
use vstd::slice::slice_to_vec;
use vstd::std_specs::convert::FromSpecImpl;
use vstd::utf8::encode_utf8;

verus! {

/// The model of a [`ServerCommand`]: text as characters.
pub enum Reply {
    Pong(Option<Seq<char>>),
    Response(Value),
    Okay,
    Error(Seq<char>),
}

/// A response of the server.
#[derive(Debug, PartialEq, Eq)]
pub enum ServerCommand {
    /// The answer to a ping, with the message that came with it.
    Pong(Option<String>),
    /// A protocol value as it stands.
    Response(RespValue),
    /// Plain success.
    Okay,
    /// A failure, with the message that tells of it.
    Error(String),
}

impl View for ServerCommand {
    type V = Reply;

    open spec fn view(&self) -> Reply {
        match self {
            ServerCommand::Pong(Some(message)) => Reply::Pong(Some(message@)),
            ServerCommand::Pong(None) => Reply::Pong(None),
            ServerCommand::Response(value) => Reply::Response(value@),
            ServerCommand::Okay => Reply::Okay,
            ServerCommand::Error(message) => Reply::Error(message@),
        }
    }
}

impl Clone for ServerCommand {
    fn clone(&self) -> (r: Self)
        ensures
            r@ == self@,
    {
        match self {
            ServerCommand::Pong(Some(message)) => ServerCommand::Pong(Some(message.clone())),
            ServerCommand::Pong(None) => ServerCommand::Pong(None),
            ServerCommand::Response(value) => ServerCommand::Response(value.clone()),
            ServerCommand::Okay => ServerCommand::Okay,
            ServerCommand::Error(message) => ServerCommand::Error(message.clone()),
        }
    }
}

/// The protocol value that carries the reply `r` to the client.
///
/// A pong without a message is the simple string `PONG`; with a message it
/// is the bulk string `PONG`, a space and the message.
pub open spec fn reply_value(r: Reply) -> Value {
    match r {
        Reply::Pong(Some(message)) => Value::BulkString(encode_utf8("PONG "@ + message)),
        Reply::Pong(None) => Value::SimpleString("PONG"@),
        Reply::Response(value) => value,
        Reply::Okay => Value::SimpleString("OK"@),
        Reply::Error(message) => Value::Error(message),
    }
}

impl FromSpecImpl<ServerCommand> for RespValue {
    open spec fn obeys_from_spec() -> bool {
        false
    }

    open spec fn from_spec(v: ServerCommand) -> Self {
        RespValue::NullArray()
    }
}

impl From<ServerCommand> for RespValue {
    /// The protocol value that carries `command` to the client.
    fn from(command: ServerCommand) -> (value: RespValue)
        ensures
            value@ == reply_value(command@),
    {
        match command {
            ServerCommand::Pong(message) => match message {
                Some(msg) => {
                    let mut output = String::from_str("PONG ");
                    output.append(msg.as_str());
                    RespValue::BulkString(slice_to_vec(output.as_str().as_bytes()))
                },
                None => RespValue::SimpleString(String::from_str("PONG")),
            },
            ServerCommand::Response(value) => value,
            ServerCommand::Okay => RespValue::SimpleString(String::from_str("OK")),
            ServerCommand::Error(message) => RespValue::Error(message),
        }
    }
}

} // verus!
