//! A connection's side: what it reads off its socket and what it hands on.

pub mod connection;
pub mod event;

pub use crate::commands::ClientCommand;
pub use connection::Connection;
pub use event::ClientEvent;
