//! Events: a command together with the way back to who sent it.

use crate::commands::ClientCommand;
use crate::server::commands::ServerCommand;
use tokio::sync::mpsc::UnboundedSender;
use vstd::prelude::*;

verus! {

/// The sending half of an unbounded channel of the runtime. Nothing is known
/// of what is inside one: it is carried along and handed back.
#[verifier::external_type_specification]
#[verifier::external_body]
#[verifier::reject_recursive_types(T)]
pub struct ExUnboundedSender<T>(UnboundedSender<T>);

/// A command on its way to the handler, with the sink that takes the
/// response to the request it came from. The sink belongs to this event
/// alone and is used once.
pub struct ClientEvent {
    pub command: ClientCommand,
    pub responder: UnboundedSender<ServerCommand>,
}

impl ClientEvent {
    /// The event of `command`, to be answered through `responder`.
    pub fn new(command: ClientCommand, responder: UnboundedSender<ServerCommand>) -> (event: Self)
        ensures
            event.command == command,
            event.responder == responder,
    {
        ClientEvent { command, responder }
    }
}

} // verus!
