//! The worker side: frames arrive over long-lived streams, are decoded in
//! batches, and all but the handshakes are handed on.
use vstd::prelude::*;

use crate::connection::{decode_batch, frames_of, ConnectionError, IoFailure};
use crate::load_balance::Reactor;
use crate::message::socket::{Frame, Message};

verus! {

/// Number of slots of a worker.
pub const MAX_SLOTS: usize = 5;

/// Size of the inbound buffer of a worker connection: ten frames.
pub const BUFFER_SIZE: usize = 540;

/// What the driver does after a read on a worker connection.
pub enum Received {
    /// Hand these frames to the back-end, in this order.
    Frames(Vec<Message>),
    /// The stream was not ready after all: nothing to do.
    Ignore,
    /// Report the failure; the connection stays.
    Report(ConnectionError),
}

/// The frames that are handed on: all but the handshakes, in their order.
pub open spec fn without_acks(frames: Seq<Frame>) -> Seq<Frame>
    decreases frames.len(),
{
    if frames.len() == 0 {
        frames
    } else if frames.last() is Ack {
        without_acks(frames.drop_last())
    } else {
        without_acks(frames.drop_last()).push(frames.last())
    }
}

/// What follows from a read of `read` bytes into a connection, given
/// whether the connection is open and what its inbound buffer holds.
pub open spec fn received_frames(open: bool, buffer: Seq<u8>, read: Result<usize, IoFailure>) -> Result<
    Seq<Frame>,
    Option<ConnectionError>,
> {
    if !open {
        Err(Some(ConnectionError::ClosedConnection))
    } else {
        match read {
            Err(IoFailure::WouldBlock) => Err(None),
            Err(failure) => Err(Some(ConnectionError::Io(failure))),
            Ok(n) => if n == 0 {
                Err(Some(ConnectionError::UnexpectedEof))
            } else {
                Ok(without_acks(decode_batch(buffer.take(n as int))))
            },
        }
    }
}

/// The messages that are handed on: all but the handshakes.
pub fn payload(messages: &Vec<Message>) -> (kept: Vec<Message>)
    ensures
        frames_of(kept@) == without_acks(frames_of(messages@)),
{
    let mut kept: Vec<Message> = Vec::new();
    let mut i: usize = 0;
    assert(frames_of(messages@.take(0)) =~= Seq::<Frame>::empty());
    assert(frames_of(kept@) =~= Seq::<Frame>::empty());
    while i < messages.len()
        invariant
            i <= messages@.len(),
            frames_of(kept@) == without_acks(frames_of(messages@.take(i as int))),
        decreases messages@.len() - i,
    {
        let message = messages[i];
        proof {
            let before = frames_of(messages@.take(i as int));
            let longer = frames_of(messages@.take(i + 1));
            assert(longer.drop_last() =~= before);
            assert(longer.last() == message@);
            assert(frames_of(kept@.push(message)) =~= frames_of(kept@).push(message@));
        }
        match message {
            Message::Ack => {},
            _ => {
                kept.push(message);
            },
        }
        i += 1;
    }
    assert(messages@.take(i as int) =~= messages@);
    kept
}

/// The outcome of one read into the inbound buffer of the connection of
/// a token. A closed connection and a failed read are reported, except
/// that a stream which would block is passed over in silence; the frames
/// of a successful read are decoded and all but the handshakes handed on.
/// The connection stays as it is in every case.
pub fn receive<const BUFFER_SIZE: usize, T>(
    reactor: &Reactor<BUFFER_SIZE, T>,
    token: mio::Token,
    read: Result<usize, IoFailure>,
) -> (r: Received)
    requires
        reactor.slots@.len() > 0,
        read matches Ok(n) ==> n <= BUFFER_SIZE,
    ensures
        ({
            let conn = reactor.slots@[reactor.slot_index(token)];
            match received_frames(conn.open(), conn.in_buffer@, read) {
                Ok(frames) => r matches Received::Frames(messages) && frames_of(messages@)
                    == frames,
                Err(None) => r is Ignore,
                Err(Some(error)) => r matches Received::Report(e) && e == error,
            }
        }),
{
    let slot = reactor.slot_of(token);
    match reactor.slots[slot].read_messages(read) {
        Ok(messages) => Received::Frames(payload(&messages)),
        Err(error) => {
            if error == ConnectionError::Io(IoFailure::WouldBlock) {
                Received::Ignore
            } else {
                Received::Report(error)
            }
        },
    }
}

} // verus!
