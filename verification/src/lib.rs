//! The core of a small Redis-compatible server.
//!
//! Bytes that arrive on a connection are decoded into protocol values
//! ([`resp`]), values are read as commands ([`commands`]), commands travel as
//! events to the one router that handles them in the order of their arrival
//! ([`server`]), and each response goes back to the connection that asked
//! ([`client`]).
//!
//! What each function computes is stated over mathematical models: byte and
//! character sequences, and the models of values, commands and replies. The
//! wire format is the pair of functions [`resp::wire::encode`] and
//! [`resp::wire::decode`]; what holds of them is proved in [`resp::laws`].
//!
//! Sockets, tasks and the channels between them are the business of the
//! program around this library. The library never waits: the one thing it
//! does to the outside is to put a response into a channel.

pub mod client;
pub mod commands;
pub mod resp;
pub mod server;
pub mod text;
