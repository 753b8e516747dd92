//! The bookkeeping of a reactor: a fixed table of connection slots, the
//! tokens that name them, the accept budget of each poll, and what is to
//! be done after each event on a connection.
//!
//! The reactor performs no I/O. Its driver polls, accepts, reads and writes,
//! and reports each outcome here; the reactor answers with what to do next.
use vstd::prelude::*;

use crate::connection::{
    transition, Connection, ConnectionError, Demand, IoFailure, Signal, Status, Step,
};
use crate::message::http::response::{BAD_REQUEST, NOT_FOUND, OK, SUMMARY};
use crate::message::http::{classify, Classified, Request};
use crate::message::socket::{Frame, Message};

pub mod worker_poll;

verus! {

/// `mio::Token`, by which the poller names a registered stream. The declaration lets the
/// verifier read the type as mio defines it: a tuple struct around one public number.
#[verifier::external_type_specification]
pub struct ExToken(mio::Token);

/// `mio::event::Event::token` answers from the event alone: see [`event_token`].
pub assume_specification[ mio::event::Event::token ](event: &mio::event::Event) -> (token:
    mio::Token)
    ensures
        token.0 == event_token(*event),
;

/// The number of the listener's token; no connection is ever given it.
pub const SERVER: usize = 0;

/// How many connections are accepted at most after one poll.
pub const ACCEPT_BATCH: usize = 10;

/// Number of slots of the gateway.
pub const MAX_SLOTS: usize = 50;

/// Size of the inbound buffer of a gateway connection.
pub const BUFFER_SIZE: usize = 350;

/// A fixed table of connections, indexed by token modulo its length.
pub struct Reactor<const BUFFER_SIZE: usize, T> {
    /// The slots; their number never changes.
    pub slots: Vec<Connection<BUFFER_SIZE, T>>,
    /// The token of the next connection.
    pub next_token: usize,
    /// How many connections are counted as open.
    pub conn_count: usize,
    /// How many connections may still be accepted before the next poll.
    pub accept_budget: usize,
}

/// What the driver does after an event on a connection.
pub enum Verdict<T> {
    /// Perform the operation on the stream of the slot and report its
    /// outcome as the next event on the same token.
    Perform(Demand),
    /// The slot has been reset. Deregister the stream it held, which is
    /// handed over here, and let go of it.
    Release(Option<T>),
    /// A request has been read and answered: the response is in the
    /// outbound buffer. Hand the frame, if there is one, to the dispatcher
    /// and register the stream for write-readiness.
    Respond(Option<Message>),
    /// Nothing to do before the next readiness event.
    Wait,
    /// The event should not have occurred: an error in the driver.
    Fault,
}

/// What the driver does after trying to accept a connection.
pub enum Accepted<T> {
    /// The stream stands in slot `slot`. Register it under `token`. If the
    /// slot still held a stream, that one is handed over to be deregistered
    /// and let go.
    Registered { token: mio::Token, slot: usize, evicted: Option<T> },
    /// The listener has no more connections waiting: stop accepting.
    Drained,
    /// The attempt failed: report it and go on accepting.
    Failed,
}

/// What follows from an answer of the state machine.
pub ghost enum Reaction {
    Perform(Demand),
    Release { counted: bool },
    Respond,
    Wait,
    Fault,
}

/// What follows from the answer that the state machine gave to an event.
///
/// A round that ends in `Done(true)` or `Close` releases the slot and
/// counts one connection less. A read that ends in `Writable` is answered;
/// a write that leaves `Writable` waits for the next event. A round that
/// ends in any other status, and a stream that would block, are faults of
/// the driver. Any other failure releases the slot without counting.
pub open spec fn reaction(event: Signal, result: Result<Step, ConnectionError>) -> Reaction {
    match result {
        Ok(Step::Perform(demand)) => Reaction::Perform(demand),
        Ok(Step::Settled(status)) => {
            if status == Status::Done(true) || status == Status::Close {
                Reaction::Release { counted: true }
            } else if status == Status::Writable {
                if event is Read {
                    Reaction::Respond
                } else {
                    Reaction::Wait
                }
            } else {
                Reaction::Fault
            }
        },
        Err(error) => {
            if error == ConnectionError::Io(IoFailure::WouldBlock) {
                Reaction::Fault
            } else {
                Reaction::Release { counted: false }
            }
        },
    }
}

/// The frame that is dispatched for a request: payments and summaries are
/// forwarded, anything else is answered without a frame.
pub open spec fn frame_for(request: Classified) -> Option<Frame> {
    match request {
        Classified::Summary { from, to } => Some(Frame::Summary { from, to }),
        Classified::Payment { amount, id } => Some(Frame::Payment { amount, id }),
        Classified::NotFound => None,
        Classified::BadRequest => None,
    }
}

/// The response to a request: one of the four canned responses.
pub open spec fn response_for(request: Classified) -> Seq<u8> {
    match request {
        Classified::Summary { from, to } => SUMMARY@,
        Classified::Payment { amount, id } => OK@,
        Classified::NotFound => NOT_FOUND@,
        Classified::BadRequest => BAD_REQUEST@,
    }
}

/// The content of a frame that may be missing.
pub open spec fn frame_view(message: Option<Message>) -> Option<Frame> {
    match message {
        Some(m) => Some(m@),
        None => None,
    }
}

/// How many slots hold a stream.
pub open spec fn occupied<const BUFFER_SIZE: usize, T>(
    slots: Seq<Connection<BUFFER_SIZE, T>>,
) -> nat
    decreases slots.len(),
{
    if slots.len() == 0 {
        0
    } else {
        occupied(slots.drop_last()) + if slots.last().stream is Some {
            1nat
        } else {
            0nat
        }
    }
}

/// Replacing one slot changes the number of occupied slots by what that
/// slot gains or loses.
pub proof fn lemma_occupied_update<const BUFFER_SIZE: usize, T>(
    slots: Seq<Connection<BUFFER_SIZE, T>>,
    i: int,
    c: Connection<BUFFER_SIZE, T>,
)
    requires
        0 <= i < slots.len(),
    ensures
        occupied(slots.update(i, c)) + (if slots[i].stream is Some {
            1nat
        } else {
            0nat
        }) == occupied(slots) + (if c.stream is Some {
            1nat
        } else {
            0nat
        }),
        slots[i].stream is Some ==> occupied(slots) >= 1,
    decreases slots.len(),
{
    let updated = slots.update(i, c);
    if i == slots.len() - 1 {
        assert(updated.drop_last() =~= slots.drop_last());
    } else {
        lemma_occupied_update(slots.drop_last(), i, c);
        assert(updated.drop_last() =~= slots.drop_last().update(i, c));
    }
}

/// No table holds more streams than it has slots: each slot holds one
/// stream at most.
pub proof fn lemma_occupied_bound<const BUFFER_SIZE: usize, T>(
    slots: Seq<Connection<BUFFER_SIZE, T>>,
)
    ensures
        occupied(slots) <= slots.len(),
    decreases slots.len(),
{
    if slots.len() > 0 {
        lemma_occupied_bound(slots.drop_last());
    }
}

/// What the poller reported: the token of the stream and the signal for its state machine.
pub fn readiness(event: &mio::event::Event) -> (r: (mio::Token, Signal))
    ensures
        r.0 == mio::Token(event_token(*event)),
        r.1 == (Signal::Ready { readable: crate::connection::event_readable(*event) }),
{
    (event.token(), Signal::ready(event))
}

/// The number of the token that a readiness event carries: what
/// `mio::event::Event::token` answers for it. mio reads the number off the
/// event, where the poller put it when the stream became ready.
pub uninterp spec fn event_token(event: mio::event::Event) -> usize;

/// The token of the listener.
pub fn server_token() -> (token: mio::Token)
    ensures
        token.0 == SERVER,
{
    mio::Token(SERVER)
}

/// Whether an event is the listener's: whether its token is the
/// listener's token.
pub fn is_server(token: mio::Token) -> (yes: bool)
    ensures
        yes == (token.0 == SERVER),
{
    token.0 == SERVER
}

/// The request that was read is answered: the canned response for it is
/// appended to the outbound buffer. Returns the frame to dispatch, if the
/// request calls for one.
pub fn answer(request: &Request, out_buffer: &mut Vec<u8>) -> (frame: Option<Message>)
    ensures
        frame_view(frame) == frame_for(request@),
        final(out_buffer)@ == old(out_buffer)@ + response_for(request@),
{
    match request {
        Request::Summary(from, to) => {
            let response = SUMMARY;
            out_buffer.extend_from_slice(response.as_slice());
            Some(Message::Summary(*from, *to))
        },
        Request::Payment(amount, correlation_id) => {
            let response = OK;
            out_buffer.extend_from_slice(response.as_slice());
            Some(Message::Payment(*amount, *correlation_id))
        },
        Request::NotFound => {
            let response = NOT_FOUND;
            out_buffer.extend_from_slice(response.as_slice());
            None
        },
        Request::BadRequest => {
            let response = BAD_REQUEST;
            out_buffer.extend_from_slice(response.as_slice());
            None
        },
    }
}

impl<const BUFFER_SIZE: usize, T> Reactor<BUFFER_SIZE, T> {
    /// The invariant of a reactor: there is at least one slot; each slot
    /// is well formed and `Empty` exactly when it holds no stream; tokens
    /// of connections are never the listener's; no more connections are
    /// counted than there are slots, and no fewer than hold a stream.
    pub open spec fn wf(&self) -> bool {
        &&& self.slots@.len() > 0
        &&& forall|i: int|
            0 <= i < self.slots@.len() ==> (#[trigger] self.slots@[i]).wf() && self.slots@[i].settled()
        &&& self.next_token != SERVER
        &&& occupied(self.slots@) <= self.conn_count <= self.slots@.len()
    }

    /// The slot of a token: the token modulo the number of slots.
    pub open spec fn slot_index(&self, token: mio::Token) -> int {
        token.0 as int % self.slots@.len() as int
    }

    /// Whether another connection may be accepted: the budget of this poll
    /// is not used up and not every slot is counted as taken.
    pub open spec fn accepting(&self) -> bool {
        self.accept_budget > 0 && self.conn_count < self.slots@.len()
    }

    /// A reactor with `max_slots` empty slots; the first connection will
    /// get token 1.
    pub fn new(max_slots: usize) -> (reactor: Self)
        requires
            max_slots > 0,
        ensures
            reactor.wf(),
            reactor.slots@.len() == max_slots,
            forall|i: int|
                0 <= i < max_slots ==> (#[trigger] reactor.slots@[i]).stream is None
                    && reactor.slots@[i].is_new(),
            reactor.next_token == 1,
            reactor.conn_count == 0,
            reactor.accept_budget == 0,
    {
        let mut slots: Vec<Connection<BUFFER_SIZE, T>> = Vec::with_capacity(max_slots);
        while slots.len() < max_slots
            invariant
                slots@.len() <= max_slots,
                occupied(slots@) == 0,
                forall|i: int|
                    0 <= i < slots@.len() ==> (#[trigger] slots@[i]).wf() && slots@[i].settled()
                        && slots@[i].stream is None && slots@[i].is_new(),
            decreases max_slots - slots@.len(),
        {
            let ghost before = slots@;
            slots.push(Connection::new(None));
            assert(slots@.drop_last() =~= before);
        }
        Reactor { slots, next_token: 1, conn_count: 0, accept_budget: 0 }
    }

    /// A new poll has returned: the accept budget is full again.
    pub fn begin_poll(&mut self)
        ensures
            final(self).accept_budget == ACCEPT_BATCH,
            final(self).slots == old(self).slots,
            final(self).next_token == old(self).next_token,
            final(self).conn_count == old(self).conn_count,
    {
        self.accept_budget = ACCEPT_BATCH;
    }

    /// Whether another connection may be accepted.
    pub fn may_accept(&self) -> (yes: bool)
        ensures
            yes == self.accepting(),
    {
        self.accept_budget > 0 && self.conn_count < self.slots.len()
    }

    /// The slot of a token.
    pub fn slot_of(&self, token: mio::Token) -> (slot: usize)
        requires
            self.slots@.len() > 0,
        ensures
            slot == self.slot_index(token),
            slot < self.slots@.len(),
    {
        token.0 % self.slots.len()
    }

    /// The outcome of one attempt to accept a connection.
    ///
    /// A stream that was accepted is put into the slot of the next token
    /// and awaits its request; one connection more is counted, one less
    /// may be accepted in this poll, and the next token is one higher
    /// (after the highest token comes 1, never the listener's token).
    /// Whatever the slot held before remains except for its stream and
    /// status. A failed attempt changes nothing.
    pub fn accepted(&mut self, outcome: Result<T, IoFailure>) -> (r: Accepted<T>)
        requires
            old(self).wf(),
            old(self).accepting(),
        ensures
            final(self).wf(),
            match outcome {
                Ok(stream) => {
                    let token = mio::Token(old(self).next_token);
                    let slot = old(self).slot_index(token);
                    let before = old(self).slots@[slot];
                    &&& r == Accepted::Registered { token, slot: slot as usize, evicted: before.stream }
                    &&& final(self).slots@ == old(self).slots@.update(
                        slot,
                        Connection { stream: Some(stream), status: Status::Readable, ..before },
                    )
                    &&& final(self).conn_count == old(self).conn_count + 1
                    &&& final(self).accept_budget == old(self).accept_budget - 1
                    &&& final(self).next_token == if token.0 == usize::MAX {
                        1
                    } else {
                        token.0 + 1
                    }
                },
                Err(failure) => {
                    &&& r == if failure == IoFailure::WouldBlock {
                        Accepted::<T>::Drained
                    } else {
                        Accepted::<T>::Failed
                    }
                    &&& *final(self) == *old(self)
                },
            },
    {
        match outcome {
            Ok(stream) => {
                let token = self.next_token;
                let slot = token % self.slots.len();
                let ghost before = self.slots@[slot as int];
                let ghost slots = self.slots@;
                let evicted = self.slots[slot].stream.take();
                self.slots[slot].stream = Some(stream);
                self.slots[slot].status = Status::Readable;
                self.next_token = if token == usize::MAX {
                    1
                } else {
                    token + 1
                };
                self.conn_count += 1;
                self.accept_budget -= 1;
                proof {
                    let placed = Connection {
                        stream: Some(stream),
                        status: Status::Readable,
                        ..before
                    };
                    assert(self.slots@ =~= slots.update(slot as int, placed));
                    lemma_occupied_update(slots, slot as int, placed);
                }
                Accepted::Registered { token: mio::Token(token), slot, evicted }
            },
            Err(failure) => {
                if failure == IoFailure::WouldBlock {
                    Accepted::Drained
                } else {
                    Accepted::Failed
                }
            },
        }
    }
    /// One event on the connection of a token: the state machine of the
    /// slot makes its transition, and what follows from its answer is done
    /// as far as it concerns the table (see [`reaction`]).
    ///
    /// Where the slot is released it is reset, and its stream is handed to
    /// the driver. Where a request has been read it is classified from the
    /// whole inbound buffer and the canned response is appended to the
    /// outbound buffer. No other slot is touched.
    pub fn handle(&mut self, token: mio::Token, event: Signal) -> (r: Verdict<T>)
        requires
            old(self).wf(),
            event matches Signal::Written(Ok(n)) ==> old(self).slots@[old(self).slot_index(
                token,
            )].written + n <= old(self).slots@[old(self).slot_index(token)].out_buffer@.len(),
        ensures
            final(self).wf(),
            final(self).slots@.len() == old(self).slots@.len(),
            forall|j: int|
                0 <= j < old(self).slots@.len() && j != old(self).slot_index(token) ==> final(self).slots@[j] == old(self).slots@[j],
            final(self).next_token == old(self).next_token,
            final(self).accept_budget == old(self).accept_budget,
            ({
                let slot = old(self).slot_index(token);
                let before = old(self).slots@[slot];
                let mid = before.after(event);
                let now = final(self).slots@[slot];
                let request = classify(before.in_buffer@);
                match reaction(event, transition(before.snapshot(), event).result) {
                    Reaction::Perform(demand) => {
                        &&& r == Verdict::<T>::Perform(demand)
                        &&& now == mid
                        &&& final(self).conn_count == old(self).conn_count
                    },
                    Reaction::Wait => {
                        &&& r == Verdict::<T>::Wait
                        &&& now == mid
                        &&& final(self).conn_count == old(self).conn_count
                    },
                    Reaction::Fault => {
                        &&& r == Verdict::<T>::Fault
                        &&& now == mid
                        &&& final(self).conn_count == old(self).conn_count
                    },
                    Reaction::Respond => {
                        &&& r matches Verdict::Respond(frame)
                        &&& frame_view(frame) == frame_for(request)
                        &&& now.extends(mid, response_for(request))
                        &&& final(self).conn_count == old(self).conn_count
                    },
                    Reaction::Release { counted } => {
                        &&& r == Verdict::Release(before.stream)
                        &&& now.is_reset_of(before)
                        &&& final(self).conn_count == if counted {
                            old(self).conn_count - 1
                        } else {
                            old(self).conn_count as int
                        }
                    },
                }
            }),
    {
        let slot = token.0 % self.slots.len();
        let ghost slots = self.slots@;
        let ghost before = slots[slot as int];
        let outcome = self.slots[slot].http_handle(event);
        let ghost mid = self.slots@[slot as int];
        proof {
            assert(self.slots@ =~= slots.update(slot as int, mid));
            lemma_occupied_update(slots, slot as int, mid);
        }
        let release = match outcome {
            Ok(Step::Perform(demand)) => {
                return Verdict::Perform(demand);
            },
            Ok(Step::Settled(status)) => {
                if status == Status::Done(true) || status == Status::Close {
                    true
                } else if status == Status::Writable {
                    match event {
                        Signal::Read(_) => {
                            let request = Request::from_bytes(self.slots[slot].in_buffer.as_slice());
                            let frame = answer(&request, &mut self.slots[slot].out_buffer);
                            proof {
                                let now = self.slots@[slot as int];
                                assert(self.slots@ =~= slots.update(slot as int, now));
                                lemma_occupied_update(slots, slot as int, now);
                            }
                            return Verdict::Respond(frame);
                        },
                        _ => {
                            return Verdict::Wait;
                        },
                    }
                } else {
                    return Verdict::Fault;
                }
            },
            Err(error) => {
                if error == ConnectionError::Io(IoFailure::WouldBlock) {
                    return Verdict::Fault;
                }
                false
            },
        };
        let stream = self.slots[slot].stream.take();
        self.slots[slot].reset();
        proof {
            let now = self.slots@[slot as int];
            assert(self.slots@ =~= slots.update(slot as int, now));
            lemma_occupied_update(slots, slot as int, now);
        }
        if release {
            self.conn_count -= 1;
        }
        Verdict::Release(stream)
    }
}

} // verus!
