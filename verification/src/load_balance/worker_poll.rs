//! The pool of worker streams, the round-robin dispatch over it, and the
//! retry discipline of the dispatcher.
//!
//! The pool holds the streams but never touches them: its driver writes
//! each frame to the stream that the pool names and reports the outcome.
use vstd::prelude::*;

use crate::connection::IoFailure;
use crate::message::socket::{encode, Frame, Message};

verus! {

/// How many worker sockets are taken from the socket directory at most.
pub const MAX_WORKERS: usize = 10;

/// After how many failed deliveries in a row the pool is renewed, and the
/// dispatcher gives up once it has been renewed.
pub const MAX_RETRIES: usize = 10;

/// The streams to the workers and the cursor of the round robin.
pub struct WorkerPoll<S> {
    /// The directory in which the worker sockets are found.
    pub socket_dir: String,
    /// The connected streams.
    pub poll: Vec<S>,
    /// The index of the stream that gets the next frame.
    pub conn_ptr: usize,
}

/// How an attempt to send a frame ended.
pub enum Delivery<S> {
    /// The whole frame was written; the next frame goes to the next stream.
    Full,
    /// Only a part of the frame was written, which counts as a failure;
    /// the next frame goes to the next stream.
    Partial,
    /// The stream failed and has left the pool; it is handed over to be
    /// let go. The same frame is to be tried on the stream that now
    /// stands at the cursor.
    Dropped(S),
}

/// What is done with an entry of the socket directory.
#[derive(Clone, Copy, Debug, PartialEq, Eq, Structural)]
pub enum Admission {
    /// Enough sockets have been taken: stop looking.
    Stop,
    /// Not a worker socket: pass it over.
    Skip,
    /// Connect to it and send the handshake.
    Connect,
}

/// What the dispatcher does next.
#[derive(Clone, Copy, Debug, PartialEq, Eq, Structural)]
pub enum Turn {
    /// Give up.
    Exit,
    /// Renew the pool, then wait for the next frame.
    Renew,
    /// Wait for the next frame.
    Receive,
}

/// The retry discipline of the dispatcher.
#[derive(Clone, Copy, Debug, PartialEq, Eq, Structural)]
pub struct Dispatcher {
    /// How many deliveries have failed in a row.
    pub retries: usize,
    /// Whether the pool has been renewed because of failures.
    pub shutdown: bool,
}

/// The cursor after `k` frames have been sent, counting from cursor `c`
/// in a pool of `len` streams.
pub open spec fn cursor_after(c: nat, len: nat, k: nat) -> nat
    recommends
        len > 0,
{
    (c + k) % len
}

/// What the dispatcher does next, and the state it does it in.
pub open spec fn turn_of(d: Dispatcher) -> (Dispatcher, Turn) {
    if d.retries >= MAX_RETRIES && d.shutdown {
        (d, Turn::Exit)
    } else if d.retries >= MAX_RETRIES {
        (Dispatcher { retries: 0, shutdown: true }, Turn::Renew)
    } else {
        (d, Turn::Receive)
    }
}

/// The dispatcher after an attempt to deliver a frame.
pub open spec fn after_attempt(d: Dispatcher, delivered: bool) -> Dispatcher {
    if delivered {
        Dispatcher { retries: 0, ..d }
    } else if d.retries < usize::MAX {
        Dispatcher { retries: (d.retries + 1) as usize, ..d }
    } else {
        d
    }
}

/// The dispatcher after `k` rounds in each of which the delivery failed.
pub open spec fn after_failures(d: Dispatcher, k: nat) -> Dispatcher
    decreases k,
{
    if k == 0 {
        d
    } else {
        after_attempt(turn_of(after_failures(d, (k - 1) as nat)).0, false)
    }
}

/// What is done with an entry of the socket directory, given how many
/// streams have been taken already and whether the entry has the extension
/// of a worker socket.
pub fn admission(taken: usize, is_socket: bool) -> (a: Admission)
    ensures
        a == if taken >= MAX_WORKERS {
            Admission::Stop
        } else if is_socket {
            Admission::Connect
        } else {
            Admission::Skip
        },
{
    if taken >= MAX_WORKERS {
        Admission::Stop
    } else if is_socket {
        Admission::Connect
    } else {
        Admission::Skip
    }
}

/// The frame that is written to a worker right after connecting.
pub fn handshake() -> (bytes: [u8; 54])
    ensures
        bytes@ == encode(Frame::Ack),
{
    Message::Ack.to_bytes()
}

/// Whether a stream joins the pool, given the outcome of writing the
/// handshake to it: it does unless the write failed.
pub fn joins(handshake: Result<usize, IoFailure>) -> (yes: bool)
    ensures
        yes == (handshake is Ok),
{
    handshake.is_ok()
}

impl<S> WorkerPoll<S> {
    /// The invariant of a pool: the cursor names one of its streams, or
    /// stands at zero where there is none.
    pub open spec fn wf(&self) -> bool {
        if self.poll@.len() == 0 {
            self.conn_ptr == 0
        } else {
            self.conn_ptr < self.poll@.len()
        }
    }

    /// A pool over the streams that were found, with the cursor on the
    /// first of them.
    pub fn new(socket_dir: String, streams: Vec<S>) -> (pool: Self)
        ensures
            pool.wf(),
            pool.socket_dir == socket_dir,
            pool.poll == streams,
            pool.conn_ptr == 0,
    {
        WorkerPoll { socket_dir, poll: streams, conn_ptr: 0 }
    }

    /// The pool takes the streams of a renewal; the cursor goes back to the
    /// first of them.
    pub fn install(&mut self, streams: Vec<S>)
        ensures
            final(self).wf(),
            final(self).socket_dir == old(self).socket_dir,
            final(self).poll == streams,
            final(self).conn_ptr == 0,
    {
        self.poll = streams;
        self.conn_ptr = 0;
    }

    /// The index of the stream that gets the next frame; none where the
    /// pool is empty and has to be renewed first.
    pub fn target(&self) -> (index: Option<usize>)
        requires
            self.wf(),
        ensures
            index == if self.poll@.len() == 0 {
                None
            } else {
                Some(self.conn_ptr)
            },
    {
        if self.poll.len() == 0 {
            None
        } else {
            Some(self.conn_ptr)
        }
    }

    /// The outcome of writing a frame of `len` bytes to the stream at the
    /// cursor.
    ///
    /// After a write, full or partial, the cursor moves on to the next
    /// stream, and from the last to the first. A stream that failed leaves
    /// the pool, so that the cursor stands on the one that came after it,
    /// or on the first where it was the last.
    pub fn send(&mut self, outcome: Result<usize, IoFailure>, len: usize) -> (r: Delivery<S>)
        requires
            old(self).wf(),
            old(self).poll@.len() > 0,
        ensures
            final(self).wf(),
            final(self).socket_dir == old(self).socket_dir,
            match outcome {
                Ok(n) => {
                    &&& r == if n == len {
                        Delivery::<S>::Full
                    } else {
                        Delivery::<S>::Partial
                    }
                    &&& final(self).poll == old(self).poll
                    &&& final(self).conn_ptr == cursor_after(
                        old(self).conn_ptr as nat,
                        old(self).poll@.len(),
                        1,
                    )
                },
                Err(_) => {
                    &&& r == Delivery::Dropped(old(self).poll@[old(self).conn_ptr as int])
                    &&& final(self).poll@ == old(self).poll@.remove(old(self).conn_ptr as int)
                    &&& final(self).conn_ptr == if old(self).conn_ptr + 1 < old(self).poll@.len() {
                        old(self).conn_ptr
                    } else {
                        0
                    }
                },
            },
    {
        match outcome {
            Ok(n) => {
                let streams = self.poll.len();
                proof {
                    if self.conn_ptr + 1 < streams {
                        vstd::arithmetic::div_mod::lemma_small_mod(
                            (self.conn_ptr + 1) as nat,
                            streams as nat,
                        );
                    } else {
                        vstd::arithmetic::div_mod::lemma_mod_self_0(streams as int);
                    }
                }
                self.conn_ptr = if self.conn_ptr + 1 < streams {
                    self.conn_ptr + 1
                } else {
                    0
                };
                if n == len {
                    Delivery::Full
                } else {
                    Delivery::Partial
                }
            },
            Err(_) => {
                let stream = self.poll.remove(self.conn_ptr);
                if self.conn_ptr >= self.poll.len() {
                    self.conn_ptr = 0;
                }
                Delivery::Dropped(stream)
            },
        }
    }
}

impl Dispatcher {
    /// A dispatcher that has seen no failure.
    pub fn new() -> (d: Self)
        ensures
            d == (Dispatcher { retries: 0, shutdown: false }),
    {
        Dispatcher { retries: 0, shutdown: false }
    }

    /// What to do next: after ten failed deliveries in a row the pool is
    /// renewed once and the count begins again; after ten more the
    /// dispatcher gives up.
    pub fn turn(&mut self) -> (t: Turn)
        ensures
            (*final(self), t) == turn_of(*old(self)),
    {
        if self.retries >= MAX_RETRIES && self.shutdown {
            Turn::Exit
        } else if self.retries >= MAX_RETRIES {
            self.retries = 0;
            self.shutdown = true;
            Turn::Renew
        } else {
            Turn::Receive
        }
    }

    /// The outcome of an attempt to deliver a frame; only a full write is
    /// a delivery. Returns whether the frame goes back to the tail of the
    /// queue.
    pub fn sent(&mut self, delivered: bool) -> (requeue: bool)
        ensures
            *final(self) == after_attempt(*old(self), delivered),
            requeue == !delivered,
    {
        if delivered {
            self.retries = 0;
            false
        } else {
            if self.retries < usize::MAX {
                self.retries += 1;
            }
            true
        }
    }
}

/// Sending one frame after another visits the streams in turn: the cursor
/// after `k + 1` frames is the one that follows the cursor after `k`.
pub proof fn lemma_round_robin_step(c: nat, len: nat, k: nat)
    requires
        len > 0,
    ensures
        cursor_after(c, len, k) < len,
        cursor_after(c, len, k + 1) == cursor_after(cursor_after(c, len, k), len, 1),
        cursor_after(c, len, 0) == c % len,
{
    vstd::arithmetic::div_mod::lemma_add_mod_noop((c + k) as int, 1, len as int);
    vstd::arithmetic::div_mod::lemma_mod_twice((c + k) as int, len as int);
    vstd::arithmetic::div_mod::lemma_add_mod_noop(((c + k) % len) as int, 1, len as int);
}

/// The round robin is fair: as many frames as there are streams bring the
/// cursor back to where it stood, and every stream is the target of one of
/// them.
pub proof fn lemma_round_robin_fair(c: nat, len: nat, i: nat)
    requires
        c < len,
        i < len,
    ensures
        cursor_after(c, len, len) == c,
        exists|k: nat| k < len && cursor_after(c, len, k) == i,
{
    vstd::arithmetic::div_mod::lemma_mod_add_multiples_vanish(c as int, len as int);
    vstd::arithmetic::div_mod::lemma_small_mod(c, len);
    if i >= c {
        let k = (i - c) as nat;
        vstd::arithmetic::div_mod::lemma_small_mod(i, len);
        assert(k < len && cursor_after(c, len, k) == i);
    } else {
        let k = (i + len - c) as nat;
        vstd::arithmetic::div_mod::lemma_mod_add_multiples_vanish(i as int, len as int);
        vstd::arithmetic::div_mod::lemma_small_mod(i, len);
        assert((c + k) as int == len + i);
        assert(k < len && cursor_after(c, len, k) == i);
    }
}

/// Failures in a row, counted from a fresh dispatcher: the first ten are
/// only counted, and the pool has not been renewed; the next ten are
/// counted anew, the pool having been renewed.
pub proof fn lemma_failures_count(k: nat)
    requires
        k <= 2 * MAX_RETRIES,
    ensures
        after_failures(Dispatcher { retries: 0, shutdown: false }, k) == if k <= MAX_RETRIES {
            Dispatcher { retries: k as usize, shutdown: false }
        } else {
            Dispatcher { retries: (k - MAX_RETRIES) as usize, shutdown: true }
        },
    decreases k,
{
    if k > 0 {
        lemma_failures_count((k - 1) as nat);
    }
}

/// A fresh dispatcher goes on receiving through nine failures in a row,
/// renews the pool after the tenth, goes on through nine more, and gives
/// up after the twentieth.
pub proof fn lemma_gives_up_after_twenty(k: nat)
    requires
        k <= 2 * MAX_RETRIES,
    ensures
        turn_of(after_failures(Dispatcher { retries: 0, shutdown: false }, k)).1 == if k == 2
            * MAX_RETRIES {
            Turn::Exit
        } else if k == MAX_RETRIES {
            Turn::Renew
        } else {
            Turn::Receive
        },
{
    lemma_failures_count(k);
}

} // verus!
