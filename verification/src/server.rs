//! The server's side: its replies, the command handler and the event router.

pub mod commands;
pub mod handler;
pub mod router;

pub use commands::ServerCommand;
pub use handler::{handle_client_event, Delivery};
pub use router::Router;
