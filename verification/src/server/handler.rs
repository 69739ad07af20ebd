//! The command handler: what the server answers to each command, and how
//! the answer sets out on its way back.

use crate::client::event::ClientEvent;
use crate::commands::client::{ClientCommand, Command};
use crate::server::commands::{Reply, ServerCommand};
use tokio::sync::mpsc::UnboundedSender;
use vstd::prelude::*;

verus! {

/// The reply to the command `c`: a ping is answered by a pong that carries
/// the same message.
pub open spec fn response_to(c: Command) -> Reply {
    match c {
        Command::Ping(message) => Reply::Pong(message),
    }
}

/// A response and the sink that it has to go to.
pub struct Delivery {
    pub responder: UnboundedSender<ServerCommand>,
    pub response: ServerCommand,
}

/// Whether `delivery` is the answer to `event`: the response to its command,
/// bound for its own sink.
pub open spec fn answers(delivery: Delivery, event: ClientEvent) -> bool {
    &&& delivery.responder == event.responder
    &&& delivery.response@ == response_to(event.command@)
}

/// `UnboundedSender::send`: puts the response into the channel without
/// waiting. Where the receiving half is closed the channel takes nothing, and
/// the error hands the response back as it was given. Which of the two
/// happens is for the other end of the channel to decide.
#[verifier::external_body]
fn send_response(sink: &UnboundedSender<ServerCommand>, response: ServerCommand) -> (r: Result<
    (),
    ServerCommand,
>)
    ensures
        r matches Err(back) ==> back == response,
{
    match sink.send(response) {
        Ok(()) => Ok(()),
        Err(error) => Err(error.0),
    }
}

/// Handles `command`.
pub fn handle_command(command: ClientCommand) -> (response: ServerCommand)
    ensures
        response@ == response_to(command@),
{
    match command {
        ClientCommand::Ping(message) => ServerCommand::Pong(message),
    }
}

/// Handles the command of `event` and pairs the response with the event's
/// own sink.
pub fn answer(event: ClientEvent) -> (delivery: Delivery)
    ensures
        answers(delivery, event),
{
    let ClientEvent { command, responder } = event;
    Delivery { responder, response: handle_command(command) }
}

/// Sends the response of `delivery` through its sink. An error tells that
/// the connection behind the sink is gone, and hands the response back as it
/// was: to drop it then is no failure of the server.
pub fn deliver(delivery: Delivery) -> (r: Result<(), ServerCommand>)
    ensures
        r matches Err(back) ==> back == delivery.response,
{
    send_response(&delivery.responder, delivery.response)
}

/// Handles the command of `event` and sends the response through the
/// event's own sink. An error tells that the sink was closed, and hands back
/// the response that found no way to the client.
pub fn handle_client_event(event: ClientEvent) -> (r: Result<(), ServerCommand>)
    ensures
        r matches Err(back) ==> back@ == response_to(event.command@),
{
    deliver(answer(event))
}

} // verus!
