//! The fixed-size binary frame exchanged between gateway and worker.
use vstd::prelude::*;

use crate::message::CorrelationId;

verus! {

/// Number of bytes of every frame on the wire.
pub const FRAME_SIZE: usize = 54;

/// Leading byte of a summary frame (`'@'`).
pub const SUMMARY_MARKER: u8 = 0x40;

/// Leading byte of a payment frame (`'$'`).
pub const PAYMENT_MARKER: u8 = 0x24;

/// The acknowledge byte: closes every frame and fills a handshake frame.
pub const ACK: u8 = 0x06;

/// A frame as the gateway and the worker understand it.
#[derive(Clone, Copy, Debug)]
pub enum Message {
    Summary(u32, u32),
    Payment(u64, CorrelationId),
    Ack,
}

/// The mathematical content of a [`Message`].
pub ghost enum Frame {
    Summary { from: u32, to: u32 },
    Payment { amount: u64, id: Seq<u8> },
    Ack,
}

/// Why a byte string is not a frame.
#[derive(Clone, Copy, Debug, PartialEq, Eq, Structural)]
pub enum DecodeError {
    /// The input holds no byte at all.
    EmptyInput,
    /// The marker announces a summary or a payment, but the input is not
    /// exactly one frame long.
    WrongSize,
    /// The first byte is none of the three markers.
    UnknownMarker,
}

impl View for Message {
    type V = Frame;

    open spec fn view(&self) -> Frame {
        match *self {
            Message::Summary(from, to) => Frame::Summary { from, to },
            Message::Payment(amount, id) => Frame::Payment { amount, id: id@ },
            Message::Ack => Frame::Ack,
        }
    }
}

/// The four bytes of `v`, most significant first.
pub open spec fn be32(v: u32) -> Seq<u8> {
    seq![
        (v / 0x100_0000) as u8,
        (v / 0x1_0000 % 0x100) as u8,
        (v / 0x100 % 0x100) as u8,
        (v % 0x100) as u8,
    ]
}

/// The eight bytes of `v`, most significant first.
pub open spec fn be64(v: u64) -> Seq<u8> {
    be32((v / 0x1_0000_0000) as u32) + be32((v % 0x1_0000_0000) as u32)
}

/// The number whose big-endian bytes are the first four of `s`.
pub open spec fn from_be32(s: Seq<u8>) -> u32
    recommends
        s.len() >= 4,
{
    (s[0] * 0x100_0000 + s[1] * 0x1_0000 + s[2] * 0x100 + s[3]) as u32
}

/// The number whose big-endian bytes are the first eight of `s`.
pub open spec fn from_be64(s: Seq<u8>) -> u64
    recommends
        s.len() >= 8,
{
    (from_be32(s) * 0x1_0000_0000 + from_be32(s.skip(4))) as u64
}

/// `n` zero bytes.
pub open spec fn zeros(n: nat) -> Seq<u8> {
    Seq::new(n, |i: int| 0u8)
}

impl Frame {
    /// A frame that a [`Message`] can hold: a payment carries 36 id bytes.
    pub open spec fn wf(self) -> bool {
        match self {
            Frame::Payment { amount, id } => id.len() == 36,
            _ => true,
        }
    }
}

/// The wire layout of a frame: marker, big-endian fields, zero padding and
/// the closing acknowledge byte; a handshake is the acknowledge byte
/// throughout.
pub open spec fn encode(f: Frame) -> Seq<u8> {
    match f {
        Frame::Summary { from, to } => seq![SUMMARY_MARKER] + be32(from) + be32(to) + zeros(44)
            + seq![ACK],
        Frame::Payment { amount, id } => seq![PAYMENT_MARKER] + be64(amount) + id + zeros(8)
            + seq![ACK],
        Frame::Ack => Seq::new(FRAME_SIZE as nat, |i: int| ACK),
    }
}

/// What a byte string says as a frame. Only the marker and the length are
/// examined: padding and the closing byte are not validated, and whatever
/// starts with the acknowledge byte is a handshake.
pub open spec fn decode(s: Seq<u8>) -> Result<Frame, DecodeError> {
    if s.len() == 0 {
        Err(DecodeError::EmptyInput)
    } else if s[0] == SUMMARY_MARKER {
        if s.len() != FRAME_SIZE {
            Err(DecodeError::WrongSize)
        } else {
            Ok(Frame::Summary { from: from_be32(s.subrange(1, 5)), to: from_be32(s.subrange(5, 9)) })
        }
    } else if s[0] == PAYMENT_MARKER {
        if s.len() != FRAME_SIZE {
            Err(DecodeError::WrongSize)
        } else {
            Ok(Frame::Payment { amount: from_be64(s.subrange(1, 9)), id: s.subrange(9, 45) })
        }
    } else if s[0] == ACK {
        Ok(Frame::Ack)
    } else {
        Err(DecodeError::UnknownMarker)
    }
}

/// Reading back the big-endian bytes of a 32-bit number gives the number.
pub proof fn lemma_be32_round_trip(v: u32)
    ensures
        be32(v).len() == 4,
        from_be32(be32(v)) == v,
{
}

/// Reading back the big-endian bytes of a 64-bit number gives the number.
pub proof fn lemma_be64_round_trip(v: u64)
    ensures
        be64(v).len() == 8,
        from_be64(be64(v)) == v,
{
    let hi = (v / 0x1_0000_0000) as u32;
    let lo = (v % 0x1_0000_0000) as u32;
    lemma_be32_round_trip(hi);
    lemma_be32_round_trip(lo);
    assert(be64(v).skip(4) =~= be32(lo));
    assert(from_be32(be64(v)) == from_be32(be32(hi)));
}

/// Every frame is exactly [`FRAME_SIZE`] bytes on the wire and ends with the
/// acknowledge byte.
pub proof fn lemma_encode_shape(f: Frame)
    requires
        f.wf(),
    ensures
        encode(f).len() == FRAME_SIZE,
        encode(f)[FRAME_SIZE - 1] == ACK,
        f is Summary ==> encode(f)[0] == SUMMARY_MARKER,
        f is Payment ==> encode(f)[0] == PAYMENT_MARKER,
        f is Ack ==> encode(f)[0] == ACK,
{
    match f {
        Frame::Summary { from, to } => {
            lemma_be32_round_trip(from);
            lemma_be32_round_trip(to);
        },
        Frame::Payment { amount, id } => {
            lemma_be64_round_trip(amount);
        },
        Frame::Ack => {},
    }
}

/// Decoding what was encoded gives the frame back, for all three variants.
pub proof fn lemma_decode_encode(f: Frame)
    requires
        f.wf(),
    ensures
        decode(encode(f)) == Ok::<Frame, DecodeError>(f),
{
    lemma_encode_shape(f);
    let s = encode(f);
    match f {
        Frame::Summary { from, to } => {
            lemma_be32_round_trip(from);
            lemma_be32_round_trip(to);
            assert(s.subrange(1, 5) =~= be32(from));
            assert(s.subrange(5, 9) =~= be32(to));
        },
        Frame::Payment { amount, id } => {
            lemma_be64_round_trip(amount);
            assert(s.subrange(1, 9) =~= be64(amount));
            assert(s.subrange(9, 45) =~= id);
        },
        Frame::Ack => {},
    }
}

/// The four big-endian bytes of `v`, written into `out` from `at` on.
fn put_be32(out: &mut [u8; 54], at: usize, v: u32)
    requires
        at + 4 <= 54,
    ensures
        final(out)@ == old(out)@.update(at as int, be32(v)[0]).update(at + 1, be32(v)[1]).update(
            at + 2,
            be32(v)[2],
        ).update(at + 3, be32(v)[3]),
{
    out[at] = (v / 0x100_0000) as u8;
    out[at + 1] = (v / 0x1_0000 % 0x100) as u8;
    out[at + 2] = (v / 0x100 % 0x100) as u8;
    out[at + 3] = (v % 0x100) as u8;
}

/// The number held big-endian in the four bytes of `bytes` from `at` on.
fn get_be32(bytes: &[u8], at: usize) -> (v: u32)
    requires
        at + 4 <= bytes@.len(),
    ensures
        v == from_be32(bytes@.subrange(at as int, at + 4)),
{
    let b0: u32 = bytes[at] as u32;
    let b1: u32 = bytes[at + 1] as u32;
    let b2: u32 = bytes[at + 2] as u32;
    let b3: u32 = bytes[at + 3] as u32;
    b0 * 0x100_0000 + b1 * 0x1_0000 + b2 * 0x100 + b3
}

impl DecodeError {
    /// A short description of the failure, for logs.
    pub fn message(&self) -> (text: &'static str)
        ensures
            *self == DecodeError::EmptyInput ==> text@ == "Empty bytes"@,
            *self == DecodeError::WrongSize ==> text@
                == "Frame doesn't have the correct size"@,
            *self == DecodeError::UnknownMarker ==> text@ == "Invalid message type marker"@,
    {
        match self {
            DecodeError::EmptyInput => "Empty bytes",
            DecodeError::WrongSize => "Frame doesn't have the correct size",
            DecodeError::UnknownMarker => "Invalid message type marker",
        }
    }
}

impl Message {
    /// Number of bytes of every frame on the wire.
    pub const SIZE: usize = 54;

    /// Encodes the message as one frame.
    pub fn to_bytes(&self) -> (bytes: [u8; 54])
        ensures
            bytes@ == encode(self@),
    {
        match self {
            Message::Summary(from, to) => {
                let mut bytes = [0u8;54];
                bytes[0] = SUMMARY_MARKER;
                put_be32(&mut bytes, 1, *from);
                put_be32(&mut bytes, 5, *to);
                bytes[53] = ACK;
                assert(bytes@ =~= encode(self@));
                bytes
            },
            Message::Payment(amount, correlation_id) => {
                let mut bytes = [0u8;54];
                bytes[0] = PAYMENT_MARKER;
                put_be32(&mut bytes, 1, (*amount / 0x1_0000_0000) as u32);
                put_be32(&mut bytes, 5, (*amount % 0x1_0000_0000) as u32);
                let ghost head = bytes@;
                assert(head.subrange(0, 9) =~= seq![PAYMENT_MARKER] + be64(*amount));
                let mut i: usize = 0;
                while i < 36
                    invariant
                        i <= 36,
                        bytes@.len() == 54,
                        head.len() == 54,
                        head.subrange(0, 9) == seq![PAYMENT_MARKER] + be64(*amount),
                        forall|k: int| 0 <= k < 9 ==> bytes@[k] == head[k],
                        forall|k: int| 9 <= k < 9 + i ==> bytes@[k] == correlation_id.0@[k - 9],
                        forall|k: int| 9 + i <= k < 54 ==> bytes@[k] == 0u8,
                    decreases 36 - i,
                {
                    bytes[9 + i] = correlation_id.0[i];
                    i += 1;
                }
                bytes[53] = ACK;
                assert(bytes@.subrange(0, 9) =~= head.subrange(0, 9));
                assert(bytes@ =~= bytes@.subrange(0, 9) + correlation_id@ + zeros(8) + seq![ACK]);
                bytes
            },
            Message::Ack => {
                let bytes = [ACK;54];
                assert(bytes@ =~= encode(self@));
                bytes
            },
        }
    }

    /// Decodes one frame. Integer fields are big-endian and the correlation
    /// id is copied verbatim.
    pub fn from_bytes(bytes: &[u8]) -> (r: Result<Message, DecodeError>)
        ensures
            match r {
                Ok(m) => decode(bytes@) == Ok::<Frame, DecodeError>(m@),
                Err(e) => decode(bytes@) == Err::<Frame, DecodeError>(e),
            },
    {
        if bytes.len() == 0 {
            return Err(DecodeError::EmptyInput);
        }
        let marker = bytes[0];
        if marker == SUMMARY_MARKER {
            if bytes.len() != FRAME_SIZE {
                return Err(DecodeError::WrongSize);
            }
            let from = get_be32(bytes, 1);
            let to = get_be32(bytes, 5);
            Ok(Message::Summary(from, to))
        } else if marker == PAYMENT_MARKER {
            if bytes.len() != FRAME_SIZE {
                return Err(DecodeError::WrongSize);
            }
            let hi = get_be32(bytes, 1);
            let lo = get_be32(bytes, 5);
            let amount: u64 = (hi as u64) * 0x1_0000_0000 + (lo as u64);
            assert(bytes@.subrange(1, 9).skip(4) =~= bytes@.subrange(5, 9));
            assert(from_be32(bytes@.subrange(1, 9)) == from_be32(bytes@.subrange(1, 5)));
            let mut id = [0u8;36];
            let mut i: usize = 0;
            while i < 36
                invariant
                    i <= 36,
                    bytes@.len() == 54,
                    forall|k: int| 0 <= k < i ==> id@[k] == bytes@[9 + k],
                decreases 36 - i,
            {
                id[i] = bytes[9 + i];
                i += 1;
            }
            assert(id@ =~= bytes@.subrange(9, 45));
            Ok(Message::Payment(amount, CorrelationId(id)))
        } else if marker == ACK {
            Ok(Message::Ack)
        } else {
            Err(DecodeError::UnknownMarker)
        }
    }
}

/// Decoding what a message encodes to gives a message of the same content.
pub proof fn lemma_round_trip(m: Message)
    ensures
        decode(encode(m@)) == Ok::<Frame, DecodeError>(m@),
{
    lemma_decode_encode(m@);
}

} // verus!
