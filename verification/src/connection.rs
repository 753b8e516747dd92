//! The per-slot connection: buffers, lifecycle status and the transitions
//! of the request/response state machine.
//!
//! The connection owns its stream but never touches it: whoever drives the
//! connection performs each read, write and flush on the stream and reports
//! the outcome back as a [`Signal`]. Every decision is taken here.
use vstd::prelude::*;

use crate::message::socket::{decode, encode, Frame, Message, FRAME_SIZE};

verus! {

/// Where a connection stands in its life.
#[derive(Clone, Copy, Debug, PartialEq, Eq, Structural)]
pub enum Status {
    /// The slot is free.
    Empty,
    /// A request is awaited.
    Readable,
    /// A request has been read; the response is being written.
    Writable,
    /// The response has left the buffer; `true` once it is flushed as well.
    Done(bool),
    /// The peer has closed the stream.
    Close,
}

/// Why an operation on the stream failed.
#[derive(Clone, Copy, Debug, PartialEq, Eq, Structural)]
pub enum IoFailure {
    /// The stream was not ready after all.
    WouldBlock,
    /// Any other failure of the stream.
    Other,
}

/// Why an operation on a connection failed.
#[derive(Clone, Copy, Debug, PartialEq, Eq, Structural)]
pub enum ConnectionError {
    /// The connection has no stream, or its peer has closed it.
    ClosedConnection,
    /// A read returned no byte at all.
    UnexpectedEof,
    /// The state machine was driven in a state, or with an event, that it
    /// does not allow.
    IllegalState,
    /// The stream reported a failure.
    Io(IoFailure),
}

/// An operation that the driver of a connection performs on its stream.
#[derive(Clone, Copy, Debug, PartialEq, Eq, Structural)]
pub enum Demand {
    /// Read once into the inbound buffer.
    Read,
    /// Write once from the outbound buffer, starting behind what has been
    /// written already.
    Write,
    /// Flush the stream.
    Flush,
}

/// What the state machine answers to an event.
#[derive(Clone, Copy, Debug, PartialEq, Eq, Structural)]
pub enum Step {
    /// The driver performs the operation and reports its outcome.
    Perform(Demand),
    /// The round is over with this status.
    Settled(Status),
}

/// What happened to a connection.
#[derive(Clone, Copy, Debug)]
pub enum Signal {
    /// The poller reported the stream ready.
    Ready { readable: bool },
    /// The outcome of the read that was demanded: the number of bytes now in
    /// the inbound buffer.
    Read(Result<usize, IoFailure>),
    /// The outcome of the write that was demanded: the number of bytes taken.
    Written(Result<usize, IoFailure>),
    /// The outcome of the flush that was demanded.
    Flushed(Result<(), IoFailure>),
}

/// `mio::event::Event`, a readiness event of the poller; its inside is not read here.
#[verifier::external_type_specification]
#[verifier::external_body]
pub struct ExReadiness(mio::event::Event);

/// `mio::event::Event::is_readable` answers from the event alone: see [`event_readable`].
pub assume_specification[ mio::event::Event::is_readable ](event: &mio::event::Event) -> (readable:
    bool)
    ensures
        readable == event_readable(*event),
;

impl Signal {
    /// The readiness that the poller reported, as the state machine takes it.
    pub fn ready(event: &mio::event::Event) -> (e: Signal)
        ensures
            e == (Signal::Ready { readable: event_readable(*event) }),
    {
        Signal::Ready { readable: event.is_readable() }
    }
}

/// Whether a readiness event holds readable readiness: what
/// `mio::event::Event::is_readable` answers for it. mio reads the answer
/// off the flags that the event carries, so one event has one answer.
pub uninterp spec fn event_readable(event: mio::event::Event) -> bool;

/// One slot of a reactor.
pub struct Connection<const BUFFER_SIZE: usize, T> {
    /// The stream, from accept until reset.
    pub stream: Option<T>,
    /// What the last read brought; overwritten by each read.
    pub in_buffer: [u8; BUFFER_SIZE],
    /// What is to be sent.
    pub out_buffer: Vec<u8>,
    pub status: Status,
    /// How many bytes at the head of the outbound buffer have been sent.
    pub written: usize,
    /// How many readiness events the connection has handled.
    pub round_trip: usize,
}

/// What the state machine reads of a connection.
pub ghost struct Snapshot {
    pub has_stream: bool,
    pub status: Status,
    pub out_len: nat,
    pub written: nat,
}

/// What a transition leaves behind and answers.
pub ghost struct Outcome {
    pub status: Status,
    pub written: nat,
    pub result: Result<Step, ConnectionError>,
}

/// Whether the state machine may be driven at all: there is a stream, and
/// the status is none of `Empty`, `Close` and `Done(true)`.
pub open spec fn drivable(c: Snapshot) -> bool {
    c.has_stream && (c.status == Status::Readable || c.status == Status::Writable || c.status
        == Status::Done(false))
}

/// Whether the event fits the state: a readiness event always does, the
/// outcome of an operation only in the state that demands the operation.
pub open spec fn fits(c: Snapshot, e: Signal) -> bool {
    match e {
        Signal::Ready { readable } => true,
        Signal::Read(_) => c.status == Status::Readable,
        Signal::Written(_) => c.status == Status::Writable && c.out_len > 0,
        Signal::Flushed(_) => c.status == Status::Done(false),
    }
}

/// The state machine of a gateway connection.
///
/// | state       | event            | next state        | answer            |
/// |-------------|------------------|-------------------|-------------------|
/// | Readable    | ready, readable  | Readable          | perform a read    |
/// | Readable    | ready, otherwise | Readable          | settled           |
/// | Readable    | read 0 bytes     | Close             | settled           |
/// | Readable    | read n > 0 bytes | Writable          | settled           |
/// | Readable    | read failed      | Readable          | settled           |
/// | Writable    | ready, nothing to send | Done(true)  | settled           |
/// | Writable    | ready, otherwise | Writable          | perform a write   |
/// | Writable    | wrote 0 bytes    | Close             | settled           |
/// | Writable    | wrote the rest   | Done(false)       | perform a flush   |
/// | Writable    | wrote a part     | Writable          | settled           |
/// | Done(false) | ready            | Done(false)       | perform a flush   |
/// | Done(false) | flushed          | Done(true)        | settled           |
///
/// A failed write or flush is handed on and changes nothing. Anything else
/// is an illegal state and changes nothing.
pub open spec fn transition(c: Snapshot, e: Signal) -> Outcome {
    let stay = |result: Result<Step, ConnectionError>|
        Outcome { status: c.status, written: c.written, result };
    let settle = |status: Status|
        Outcome { status, written: c.written, result: Ok(Step::Settled(status)) };
    if !drivable(c) || !fits(c, e) {
        stay(Err(ConnectionError::IllegalState))
    } else {
        match e {
            Signal::Ready { readable } => {
                if c.status == Status::Readable {
                    if readable {
                        stay(Ok(Step::Perform(Demand::Read)))
                    } else {
                        stay(Ok(Step::Settled(Status::Readable)))
                    }
                } else if c.status == Status::Writable {
                    if c.out_len == 0 {
                        settle(Status::Done(true))
                    } else {
                        stay(Ok(Step::Perform(Demand::Write)))
                    }
                } else {
                    stay(Ok(Step::Perform(Demand::Flush)))
                }
            },
            Signal::Read(Ok(n)) => {
                if n == 0 {
                    settle(Status::Close)
                } else {
                    settle(Status::Writable)
                }
            },
            Signal::Read(Err(_)) => stay(Ok(Step::Settled(Status::Readable))),
            Signal::Written(Ok(n)) => {
                if n == 0 {
                    settle(Status::Close)
                } else if c.written + n >= c.out_len {
                    Outcome {
                        status: Status::Done(false),
                        written: c.written + n as nat,
                        result: Ok(Step::Perform(Demand::Flush)),
                    }
                } else {
                    Outcome {
                        status: Status::Writable,
                        written: c.written + n as nat,
                        result: Ok(Step::Settled(Status::Writable)),
                    }
                }
            },
            Signal::Written(Err(failure)) => stay(Err(ConnectionError::Io(failure))),
            Signal::Flushed(Ok(_)) => settle(Status::Done(true)),
            Signal::Flushed(Err(failure)) => stay(Err(ConnectionError::Io(failure))),
        }
    }
}

/// No transition writes past the end of the outbound buffer: where no
/// more had been written than the buffer holds, and the stream took no more
/// than was left, no more has been written afterwards either.
pub proof fn lemma_written_stays_bounded(c: Snapshot, e: Signal)
    requires
        c.written <= c.out_len,
        e matches Signal::Written(Ok(n)) ==> c.written + n <= c.out_len,
    ensures
        transition(c, e).written <= c.out_len,
        transition(c, e).written >= c.written,
{
}

/// `Empty`, `Close` and `Done(true)` are left by no transition, nor is a
/// connection without a stream ever driven: every event is answered with
/// an illegal state and changes nothing.
pub proof fn lemma_terminal_states(c: Snapshot, e: Signal)
    requires
        !drivable(c),
    ensures
        transition(c, e).status == c.status,
        transition(c, e).written == c.written,
        transition(c, e).result == Err::<Step, ConnectionError>(ConnectionError::IllegalState),
{
}

/// A response is written only after a request has been read: a connection
/// that awaits its request becomes `Writable` by nothing but a read that
/// brought at least one byte.
pub proof fn lemma_request_before_response(c: Snapshot, e: Signal)
    requires
        c.status == Status::Readable,
        transition(c, e).status != Status::Readable,
    ensures
        e matches Signal::Read(Ok(n)) && (if n == 0 {
            transition(c, e).status == Status::Close
        } else {
            transition(c, e).status == Status::Writable
        }),
{
}

/// The frames at the head of `s`: one for each full frame length, up to
/// the first that does not decode. What follows that one is discarded, as
/// is a last part shorter than a frame.
pub open spec fn decode_batch(s: Seq<u8>) -> Seq<Frame>
    decreases s.len(),
{
    if s.len() < FRAME_SIZE {
        Seq::empty()
    } else {
        match decode(s.take(FRAME_SIZE as int)) {
            Ok(frame) => seq![frame] + decode_batch(s.skip(FRAME_SIZE as int)),
            Err(_) => Seq::empty(),
        }
    }
}

/// The contents of a list of messages.
pub open spec fn frames_of(messages: Seq<Message>) -> Seq<Frame> {
    Seq::new(messages.len(), |i: int| messages[i]@)
}

/// Decodes the frames at the head of `bytes`.
pub fn decode_frames(bytes: &[u8]) -> (messages: Vec<Message>)
    ensures
        frames_of(messages@) == decode_batch(bytes@),
{
    let ghost s = bytes@;
    let len = bytes.len();
    let mut messages: Vec<Message> = Vec::with_capacity(len / FRAME_SIZE);
    let mut at: usize = 0;
    assert(s.skip(0) =~= s);
    assert(frames_of(messages@) + decode_batch(s) =~= decode_batch(s));
    while len - at >= FRAME_SIZE
        invariant
            s == bytes@,
            len == s.len(),
            at <= len,
            decode_batch(s) == frames_of(messages@) + decode_batch(s.skip(at as int)),
        ensures
            decode_batch(s) == frames_of(messages@),
        decreases len - at,
    {
        let ghost rest = s.skip(at as int);
        let chunk = vstd::slice::slice_subrange(bytes, at, at + FRAME_SIZE);
        proof {
            assert(chunk@ =~= rest.take(FRAME_SIZE as int));
            assert(rest.skip(FRAME_SIZE as int) =~= s.skip(at + FRAME_SIZE));
        }
        match Message::from_bytes(chunk) {
            Ok(message) => {
                proof {
                    let longer = messages@.push(message);
                    assert(frames_of(longer) =~= frames_of(messages@) + seq![message@]);
                    assert(frames_of(messages@) + (seq![message@] + decode_batch(
                        rest.skip(FRAME_SIZE as int),
                    )) =~= frames_of(longer) + decode_batch(rest.skip(FRAME_SIZE as int)));
                }
                messages.push(message);
            },
            Err(_) => {
                assert(frames_of(messages@) + Seq::<Frame>::empty() =~= frames_of(messages@));
                break;
            },
        }
        at += FRAME_SIZE;
    }
    proof {
        assert(frames_of(messages@) + Seq::<Frame>::empty() =~= frames_of(messages@));
    }
    messages
}

impl<const BUFFER_SIZE: usize, T> Connection<BUFFER_SIZE, T> {
    /// The invariant of a connection: no more has been written than the
    /// outbound buffer holds.
    pub open spec fn wf(&self) -> bool {
        self.written <= self.out_buffer@.len()
    }

    /// Whether status and stream agree: the slot is `Empty` exactly when it
    /// holds no stream.
    pub open spec fn settled(&self) -> bool {
        (self.status == Status::Empty) <==> (self.stream is None)
    }

    /// Whether the connection can take part in frame traffic: it has a
    /// stream and its peer has not closed it.
    pub open spec fn open(&self) -> bool {
        self.stream is Some && self.status != Status::Close
    }

    /// What the state machine reads of the connection.
    pub open spec fn snapshot(&self) -> Snapshot {
        Snapshot {
            has_stream: self.stream is Some,
            status: self.status,
            out_len: self.out_buffer@.len(),
            written: self.written as nat,
        }
    }

    /// The connection after one transition of the state machine: status
    /// and write count as [`transition`] gives them, one more round for a
    /// readiness event that the machine accepts, everything else as before.
    pub open spec fn after(self, event: Signal) -> Self {
        let next = transition(self.snapshot(), event);
        Connection {
            status: next.status,
            written: next.written as usize,
            round_trip: if event is Ready && drivable(self.snapshot()) && self.round_trip
                < usize::MAX {
                (self.round_trip + 1) as usize
            } else {
                self.round_trip
            },
            ..self
        }
    }

    /// Whether the connection is what `before` is after a reset: no stream,
    /// `Empty`, nothing to send, counters at zero; the inbound buffer keeps
    /// its bytes.
    pub open spec fn is_reset_of(self, before: Self) -> bool {
        &&& self.stream is None
        &&& self.status == Status::Empty
        &&& self.out_buffer@ == Seq::<u8>::empty()
        &&& self.written == 0
        &&& self.round_trip == 0
        &&& self.in_buffer == before.in_buffer
    }

    /// Whether the connection is what `before` is with `more` appended to
    /// the outbound buffer.
    pub open spec fn extends(self, before: Self, more: Seq<u8>) -> bool {
        &&& self.stream == before.stream
        &&& self.status == before.status
        &&& self.in_buffer == before.in_buffer
        &&& self.out_buffer@ == before.out_buffer@ + more
        &&& self.written == before.written
        &&& self.round_trip == before.round_trip
    }

    /// Whether the connection is as new: `Empty`, the inbound buffer all
    /// zero, nothing to send, counters at zero.
    pub open spec fn is_new(self) -> bool {
        &&& self.status == Status::Empty
        &&& self.in_buffer@ == Seq::new(BUFFER_SIZE as nat, |i: int| 0u8)
        &&& self.out_buffer@ == Seq::<u8>::empty()
        &&& self.written == 0
        &&& self.round_trip == 0
    }

    /// A connection in the `Empty` state, with empty buffers.
    pub fn new(stream: Option<T>) -> (c: Self)
        ensures
            c.wf(),
            c.stream == stream,
            c.is_new(),
    {
        let c = Connection {
            stream,
            in_buffer: [0u8;BUFFER_SIZE],
            out_buffer: Vec::with_capacity(BUFFER_SIZE),
            written: 0,
            status: Status::Empty,
            round_trip: 0,
        };
        assert(c.in_buffer@ =~= Seq::new(BUFFER_SIZE as nat, |i: int| 0u8));
        c
    }

    /// Returns the slot to the `Empty` state: the stream is let go, the
    /// outbound buffer and the counters are cleared. The inbound buffer
    /// keeps its bytes until the next read overwrites them.
    pub fn reset(&mut self)
        ensures
            final(self).wf(),
            final(self).settled(),
            final(self).is_reset_of(*old(self)),
    {
        self.written = 0;
        self.status = Status::Empty;
        self.round_trip = 0;
        self.out_buffer.clear();
        self.stream = None;
    }

    /// Whether the connection can take part in frame traffic.
    pub fn is_open(&self) -> (open: bool)
        ensures
            open == self.open(),
    {
        self.stream.is_some() && self.status != Status::Close
    }

    /// The part of the outbound buffer that has not been sent yet.
    pub fn pending(&self) -> (rest: &[u8])
        requires
            self.wf(),
        ensures
            rest@ == self.out_buffer@.skip(self.written as int),
    {
        let rest = vstd::slice::slice_subrange(
            self.out_buffer.as_slice(),
            self.written,
            self.out_buffer.len(),
        );
        assert(rest@ =~= self.out_buffer@.skip(self.written as int));
        rest
    }

    /// The frames that a read brought into the inbound buffer.
    ///
    /// `read` is the outcome of one read into the inbound buffer. A closed
    /// connection fails before anything else is looked at; then a failed
    /// read is handed on, and a read of no bytes is an unexpected end.
    pub fn read_messages(&self, read: Result<usize, IoFailure>) -> (r: Result<
        Vec<Message>,
        ConnectionError,
    >)
        requires
            read matches Ok(n) ==> n <= BUFFER_SIZE,
        ensures
            !self.open() ==> r == Err::<Vec<Message>, ConnectionError>(
                ConnectionError::ClosedConnection,
            ),
            self.open() ==> match read {
                Err(failure) => r == Err::<Vec<Message>, ConnectionError>(
                    ConnectionError::Io(failure),
                ),
                Ok(n) => if n == 0 {
                    r == Err::<Vec<Message>, ConnectionError>(ConnectionError::UnexpectedEof)
                } else {
                    r matches Ok(messages) && frames_of(messages@) == decode_batch(
                        self.in_buffer@.take(n as int),
                    )
                },
            },
    {
        if !self.is_open() {
            return Err(ConnectionError::ClosedConnection);
        }
        match read {
            Err(failure) => Err(ConnectionError::Io(failure)),
            Ok(n) => {
                if n == 0 {
                    return Err(ConnectionError::UnexpectedEof);
                }
                let head = vstd::slice::slice_subrange(self.in_buffer.as_slice(), 0, n);
                assert(head@ =~= self.in_buffer@.take(n as int));
                Ok(decode_frames(head))
            },
        }
    }

    /// Queues a frame for sending: the encoded message is appended to the
    /// outbound buffer and the connection becomes `Writable`. The driver
    /// then writes the whole outbound buffer to the stream. A closed
    /// connection is left as it is.
    pub fn write_messsage(&mut self, message: &Message) -> (r: Result<(), ConnectionError>)
        requires
            old(self).wf(),
        ensures
            final(self).wf(),
            final(self).stream == old(self).stream,
            final(self).in_buffer == old(self).in_buffer,
            final(self).written == old(self).written,
            final(self).round_trip == old(self).round_trip,
            !old(self).open() ==> r == Err::<(), ConnectionError>(
                ConnectionError::ClosedConnection,
            ) && final(self).out_buffer@ == old(self).out_buffer@ && final(self).status == old(self).status,
            old(self).open() ==> r == Ok::<(), ConnectionError>(()) && final(self).out_buffer@
                == old(self).out_buffer@ + encode(message@) && final(self).status
                == Status::Writable,
    {
        if !self.is_open() {
            return Err(ConnectionError::ClosedConnection);
        }
        let bytes = message.to_bytes();
        self.out_buffer.extend_from_slice(bytes.as_slice());
        self.status = Status::Writable;
        Ok(())
    }

    /// One transition of the state machine: see [`transition`]. The stream
    /// and both buffers are left alone; a readiness event counts one round.
    pub fn http_handle(&mut self, event: Signal) -> (r: Result<Step, ConnectionError>)
        requires
            old(self).wf(),
            event matches Signal::Written(Ok(n)) ==> old(self).written + n <= old(self).out_buffer@.len(),
        ensures
            final(self).wf(),
            *final(self) == old(self).after(event),
            r == transition(old(self).snapshot(), event).result,
    {
        if self.stream.is_none() || self.status == Status::Empty || self.status == Status::Close
            || self.status == Status::Done(true) {
            return Err(ConnectionError::IllegalState);
        }
        match event {
            Signal::Ready { readable } => {
                if self.round_trip < usize::MAX {
                    self.round_trip += 1;
                }
                if self.status == Status::Readable {
                    if readable {
                        Ok(Step::Perform(Demand::Read))
                    } else {
                        Ok(Step::Settled(Status::Readable))
                    }
                } else if self.status == Status::Writable {
                    if self.out_buffer.len() == 0 {
                        self.status = Status::Done(true);
                        Ok(Step::Settled(Status::Done(true)))
                    } else {
                        Ok(Step::Perform(Demand::Write))
                    }
                } else {
                    Ok(Step::Perform(Demand::Flush))
                }
            },
            Signal::Read(read) => {
                if self.status != Status::Readable {
                    return Err(ConnectionError::IllegalState);
                }
                match read {
                    Ok(n) => {
                        self.status = if n == 0 {
                            Status::Close
                        } else {
                            Status::Writable
                        };
                        Ok(Step::Settled(self.status))
                    },
                    Err(_) => Ok(Step::Settled(Status::Readable)),
                }
            },
            Signal::Written(written) => {
                if self.status != Status::Writable || self.out_buffer.len() == 0 {
                    return Err(ConnectionError::IllegalState);
                }
                match written {
                    Ok(n) => {
                        if n == 0 {
                            self.status = Status::Close;
                            return Ok(Step::Settled(Status::Close));
                        }
                        self.written += n;
                        if self.written >= self.out_buffer.len() {
                            self.status = Status::Done(false);
                            Ok(Step::Perform(Demand::Flush))
                        } else {
                            Ok(Step::Settled(Status::Writable))
                        }
                    },
                    Err(failure) => Err(ConnectionError::Io(failure)),
                }
            },
            Signal::Flushed(flushed) => {
                if self.status != Status::Done(false) {
                    return Err(ConnectionError::IllegalState);
                }
                match flushed {
                    Ok(_) => {
                        self.status = Status::Done(true);
                        Ok(Step::Settled(Status::Done(true)))
                    },
                    Err(failure) => Err(ConnectionError::Io(failure)),
                }
            },
        }
    }
}

} // verus!
