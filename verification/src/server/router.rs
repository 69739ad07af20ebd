//! The event router: the one place where commands are handled, in the order
//! in which their events arrived.

use crate::client::event::ClientEvent;
use crate::server::handler::{answer, answers, deliver, Delivery};
use std::collections::VecDeque;
use vstd::prelude::*;

verus! {

/// The queue of events that wait to be handled. Events of all connections
/// share it, and they leave it in the order in which they entered: strict
/// first-in, first-out across connections.
pub struct Router {
    queue: VecDeque<ClientEvent>,
}

impl View for Router {
    type V = Seq<ClientEvent>;

    closed spec fn view(&self) -> Seq<ClientEvent> {
        self.queue@
    }
}

/// Whether `deliveries` answer `events` one for one, in the same order.
pub open spec fn answers_all(deliveries: Seq<Delivery>, events: Seq<ClientEvent>) -> bool {
    &&& deliveries.len() == events.len()
    &&& forall|i: int| 0 <= i < events.len() ==> answers(#[trigger] deliveries[i], events[i])
}

/// Ordering: of two events that entered the queue one after the other, the
/// first is answered before the second, and each answer is bound for the
/// sink of its own event.
pub proof fn theorem_first_in_first_out(
    waiting: Seq<ClientEvent>,
    first: ClientEvent,
    second: ClientEvent,
    deliveries: Seq<Delivery>,
)
    requires
        answers_all(deliveries, waiting.push(first).push(second)),
    ensures
        deliveries.len() == waiting.len() + 2,
        answers(deliveries[waiting.len() as int], first),
        answers(deliveries[waiting.len() as int + 1], second),
        deliveries[waiting.len() as int].responder == first.responder,
        deliveries[waiting.len() as int + 1].responder == second.responder,
{
}

impl Router {
    /// A router with nothing to do.
    pub fn new() -> (router: Self)
        ensures
            router@ == Seq::<ClientEvent>::empty(),
    {
        Router { queue: VecDeque::new() }
    }

    /// The number of events that wait.
    pub fn pending(&self) -> (n: usize)
        ensures
            n == self@.len(),
    {
        self.queue.len()
    }

    /// Puts `event` behind all events that wait.
    pub fn enqueue(&mut self, event: ClientEvent)
        ensures
            final(self)@ == old(self)@.push(event),
    {
        self.queue.push_back(event);
    }

    /// Handles the event that has waited longest, if there is one, and
    /// gives its response with the sink to send it through.
    pub fn dispatch(&mut self) -> (r: Option<Delivery>)
        ensures
            old(self)@.len() == 0 ==> r is None && final(self)@ == old(self)@,
            old(self)@.len() > 0 ==> (r matches Some(delivery) && answers(
                delivery,
                old(self)@[0],
            )) && final(self)@ == old(self)@.skip(1),
    {
        match self.queue.pop_front() {
            Some(event) => Some(answer(event)),
            None => None,
        }
    }

    /// Handles all events that wait, oldest first, and gives their
    /// responses in that order, each with the sink to send it through.
    pub fn drain(&mut self) -> (deliveries: Vec<Delivery>)
        ensures
            answers_all(deliveries@, old(self)@),
            final(self)@ == Seq::<ClientEvent>::empty(),
    {
        let mut deliveries: Vec<Delivery> = Vec::new();
        let ghost events = self@;
        while self.queue.len() > 0
            invariant
                deliveries@.len() + self@.len() == events.len(),
                self@ == events.skip(deliveries@.len() as int),
                forall|i: int|
                    0 <= i < deliveries@.len() ==> answers(#[trigger] deliveries@[i], events[i]),
            decreases self@.len(),
        {
            match self.dispatch() {
                Some(delivery) => {
                    deliveries.push(delivery);
                },
                None => {},
            }
        }
        deliveries
    }

    /// Handles all events that wait, oldest first, and sends each response
    /// through the sink of its event. A sink that is closed stops nothing:
    /// its response is dropped and the next one is sent.
    pub fn route(&mut self)
        ensures
            final(self)@ == Seq::<ClientEvent>::empty(),
    {
        let deliveries = self.drain();
        for delivery in deliveries {
            let _ = deliver(delivery);
        }
    }
}

} // verus!
