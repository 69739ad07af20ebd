//! The read and write paths of one connection.
//!
//! The read path turns the bytes that arrive into steps: commands to hand to
//! the router, and replies to failed requests, which go straight back to the
//! client. The write path turns a response into the bytes to send. The two
//! share nothing.

use crate::commands::client::{decode_command, ClientCommand, Command};
use crate::commands::failure_text;
use crate::resp::types::{RespValue, Value};
use crate::resp::laws::lemma_decode_at_agrees;
use crate::resp::wire::{decode, decode_error_text, encode, lemma_decode_at_bounds, Decoded};
use crate::resp::RespParser;
use crate::server::commands::{reply_value, Reply, ServerCommand};
use vstd::prelude::*;

verus! {

/// The model of an [`Inbound`] step.
pub enum Step {
    Command(Command),
    Reply(Reply),
}

/// What the read path does for one request.
#[derive(Debug, PartialEq, Eq)]
pub enum Inbound {
    /// A command, to be handed to the router as an event.
    Command(ClientCommand),
    /// The reply to a request that failed, to be sent back at once.
    Reply(ServerCommand),
}

impl View for Inbound {
    type V = Step;

    open spec fn view(&self) -> Step {
        match self {
            Inbound::Command(command) => Step::Command(command@),
            Inbound::Reply(reply) => Step::Reply(reply@),
        }
    }
}

/// The models of `steps`, in order.
pub open spec fn steps_of(steps: Seq<Inbound>) -> Seq<Step> {
    Seq::new(steps.len(), |i: int| steps[i]@)
}

/// The step for the request `v`: its command, or an error reply that says
/// why it is none.
pub open spec fn step_for(v: Value) -> Step {
    match decode_command(v) {
        Ok(command) => Step::Command(command),
        Err(e) => Step::Reply(Reply::Error(failure_text(e))),
    }
}

/// The steps for the requests that stand whole in `buffer`, in order, and
/// the bytes that are left for later.
///
/// Reading stops at the first request that is incomplete, and its bytes
/// stay. Malformed bytes are answered with an error reply and the buffer is
/// emptied, so that the next request starts afresh.
pub open spec fn drain(buffer: Seq<u8>) -> (Seq<Step>, Seq<u8>)
    decreases buffer.len(),
{
    match decode(buffer) {
        Decoded::Incomplete => (Seq::empty(), buffer),
        Decoded::Malformed(e) => (
            seq![Step::Reply(Reply::Error(decode_error_text(e)))],
            Seq::empty(),
        ),
        Decoded::Complete(v, n) => {
            proof {
                lemma_decode_at_bounds(buffer, 0);
            }
            let later = drain(buffer.skip(n as int));
            (seq![step_for(v)] + later.0, later.1)
        },
    }
}

/// What is left for later is the beginning of a request, or nothing: it does
/// not decode yet.
pub proof fn lemma_drain_leaves_a_beginning(buffer: Seq<u8>)
    ensures
        decode(drain(buffer).1) == Decoded::<Value>::Incomplete,
    decreases buffer.len(),
{
    if let Decoded::Complete(_, n) = decode(buffer) {
        lemma_decode_at_bounds(buffer, 0);
        lemma_drain_leaves_a_beginning(buffer.skip(n as int));
    }
}

/// Whether `buffer` holds whole requests and at most the beginning of
/// another, and nothing malformed.
pub open spec fn well_framed(buffer: Seq<u8>) -> bool
    decreases buffer.len(),
{
    match decode(buffer) {
        Decoded::Incomplete => true,
        Decoded::Malformed(_) => false,
        Decoded::Complete(_, n) => {
            proof {
                lemma_decode_at_bounds(buffer, 0);
            }
            well_framed(buffer.skip(n as int))
        },
    }
}

/// Incremental delivery: as long as nothing malformed arrives, it makes no
/// difference where the stream of bytes is cut into reads. The steps for
/// `buffer` followed by the steps for what is left of it with `more` are the
/// steps for all the bytes at once, and the same bytes are left over.
pub proof fn theorem_reads_may_be_cut_anywhere(buffer: Seq<u8>, more: Seq<u8>)
    requires
        well_framed(buffer),
    ensures
        drain(buffer).0 + drain(drain(buffer).1 + more).0 == drain(buffer + more).0,
        drain(drain(buffer).1 + more).1 == drain(buffer + more).1,
    decreases buffer.len(),
{
    match decode(buffer) {
        Decoded::Incomplete => {},
        Decoded::Malformed(_) => {},
        Decoded::Complete(v, n) => {
            lemma_decode_at_bounds(buffer, 0);
            lemma_decode_at_agrees(buffer, buffer + more, 0);
            let rest = buffer.skip(n as int);
            assert((buffer + more).skip(n as int) =~= rest + more);
            theorem_reads_may_be_cut_anywhere(rest, more);
            let later = drain(rest).0 + drain(drain(rest).1 + more).0;
            assert(drain(buffer).0 + drain(drain(buffer).1 + more).0 =~= seq![step_for(v)]
                + later);
        },
    }
}

/// The state of one connection: the bytes that have arrived and belong to a
/// request that is not yet whole.
pub struct Connection {
    parser: RespParser,
}

impl View for Connection {
    type V = Seq<u8>;

    closed spec fn view(&self) -> Seq<u8> {
        self.parser@
    }
}

/// The step for the request `value`.
pub fn step(value: RespValue) -> (r: Inbound)
    ensures
        r@ == step_for(value@),
{
    match ClientCommand::try_from(value) {
        Ok(command) => Inbound::Command(command),
        Err(e) => Inbound::Reply(ServerCommand::Error(e.to_string())),
    }
}

/// The bytes that carry `response` to the client.
pub fn encode_reply(response: ServerCommand) -> (bytes: Vec<u8>)
    ensures
        bytes@ == encode(reply_value(response@)),
{
    let value = RespValue::from(response);
    value.serialize()
}

impl Connection {
    /// A connection on which nothing has arrived.
    pub fn new() -> (connection: Self)
        ensures
            connection@ == Seq::<u8>::empty(),
    {
        Connection { parser: RespParser::new() }
    }

    /// Takes in the bytes `data` that were read off the socket and gives the
    /// steps for all requests that are now whole. What stays behind is the
    /// beginning of the next request.
    pub fn receive(&mut self, data: &[u8]) -> (steps: Vec<Inbound>)
        ensures
            steps_of(steps@) == drain(old(self)@ + data@).0,
            final(self)@ == drain(old(self)@ + data@).1,
            decode(final(self)@) == Decoded::<Value>::Incomplete,
    {
        proof {
            lemma_drain_leaves_a_beginning(old(self)@ + data@);
        }
        self.parser.append(data);
        let ghost all = self.parser@;
        let mut steps: Vec<Inbound> = Vec::new();
        loop
            invariant
                drain(all).0 == steps_of(steps@) + drain(self.parser@).0,
                drain(all).1 == drain(self.parser@).1,
                all == old(self)@ + data@,
            decreases self.parser@.len(),
        {
            proof {
                lemma_decode_at_bounds(self.parser@, 0);
            }
            match self.parser.try_decode() {
                Ok(Some(value)) => {
                    let next = step(value);
                    steps.push(next);
                },
                Ok(None) => {
                    return steps;
                },
                Err(e) => {
                    let reply = Inbound::Reply(ServerCommand::Error(e.to_string()));
                    steps.push(reply);
                    self.parser = RespParser::new();
                    return steps;
                },
            }
        }
    }
}

} // verus!
