//! Commands as clients send them, and why a value may fail to be one.

pub mod args;
pub mod client;

pub use client::ClientCommand;

use vstd::prelude::*;

verus! {

/// The model of a [`CommandParseError`]: names as characters.
pub enum ParseFailure {
    InvalidSyntax,
    InvalidType,
    InvalidUtf8,
    UnknownCommand(Seq<char>),
    ArityMismatch(Seq<char>),
}

/// Why a protocol value is not a command.
#[derive(Debug)]
pub enum CommandParseError {
    /// The value has not the shape of a command.
    InvalidSyntax,
    /// A part of the command is of another type than the command takes.
    InvalidType,
    /// A name or an argument is not UTF-8.
    InvalidUtf8,
    /// No command goes by this name, given in lower case.
    UnknownCommand(String),
    /// The command, named in lower case, was given more arguments than it
    /// takes.
    ArityMismatch(String),
}

impl View for CommandParseError {
    type V = ParseFailure;

    open spec fn view(&self) -> ParseFailure {
        match self {
            CommandParseError::InvalidSyntax => ParseFailure::InvalidSyntax,
            CommandParseError::InvalidType => ParseFailure::InvalidType,
            CommandParseError::InvalidUtf8 => ParseFailure::InvalidUtf8,
            CommandParseError::UnknownCommand(name) => ParseFailure::UnknownCommand(name@),
            CommandParseError::ArityMismatch(name) => ParseFailure::ArityMismatch(name@),
        }
    }
}

/// The message that tells a client of the failure `e`.
pub open spec fn failure_text(e: ParseFailure) -> Seq<char> {
    match e {
        ParseFailure::InvalidSyntax => "syntax error"@,
        ParseFailure::InvalidType => "syntax error"@,
        ParseFailure::InvalidUtf8 => "invalid utf-8 string"@,
        ParseFailure::UnknownCommand(name) => "unknown command '"@ + name + "'"@,
        ParseFailure::ArityMismatch(name) => "wrong number of arguments for '"@ + name
            + "' command"@,
    }
}

impl CommandParseError {
    /// The message that tells a client of this failure.
    pub fn to_string(&self) -> (text: String)
        ensures
            text@ == failure_text(self@),
    {
        match self {
            CommandParseError::InvalidSyntax => String::from_str("syntax error"),
            CommandParseError::InvalidType => String::from_str("syntax error"),
            CommandParseError::InvalidUtf8 => String::from_str("invalid utf-8 string"),
            CommandParseError::UnknownCommand(name) => {
                let mut text = String::from_str("unknown command '");
                text.append(name.as_str());
                text.append("'");
                text
            },
            CommandParseError::ArityMismatch(name) => {
                let mut text = String::from_str("wrong number of arguments for '");
                text.append(name.as_str());
                text.append("' command");
                text
            },
        }
    }
}

} // verus!
