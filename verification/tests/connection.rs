use gateway::connection::{
    decode_frames, Connection, ConnectionError, Demand, Signal, IoFailure, Status, Step,
};
use gateway::message::socket::Message;
use gateway::message::CorrelationId;

fn accepted() -> Connection<350, u32> {
    let mut conn = Connection::new(None);
    conn.stream = Some(7);
    conn.status = Status::Readable;
    conn
}

#[test]
fn new_connection_is_empty() {
    let conn: Connection<350, u32> = Connection::new(None);
    assert_eq!(conn.status, Status::Empty);
    assert!(conn.stream.is_none());
    assert_eq!(conn.in_buffer, [0u8; 350]);
    assert!(conn.out_buffer.is_empty());
    assert_eq!(conn.written, 0);
    assert_eq!(conn.round_trip, 0);
    assert!(!conn.is_open());

    let conn: Connection<540, u32> = Connection::new(Some(3));
    assert_eq!(conn.status, Status::Empty);
    assert_eq!(conn.stream, Some(3));
    assert!(conn.is_open());
}

#[test]
fn reset_clears_all_but_the_inbound_buffer() {
    let mut conn = accepted();
    conn.in_buffer[0] = 9;
    conn.out_buffer.extend_from_slice(b"abc");
    conn.written = 2;
    conn.round_trip = 5;
    conn.status = Status::Close;
    conn.reset();
    assert_eq!(conn.status, Status::Empty);
    assert!(conn.stream.is_none());
    assert!(conn.out_buffer.is_empty());
    assert_eq!(conn.written, 0);
    assert_eq!(conn.round_trip, 0);
    assert_eq!(conn.in_buffer[0], 9);
}

#[test]
fn a_request_is_read_then_answered() {
    let mut conn = accepted();
    assert_eq!(
        conn.http_handle(Signal::Ready { readable: true }),
        Ok(Step::Perform(Demand::Read))
    );
    assert_eq!(conn.status, Status::Readable);
    assert_eq!(conn.round_trip, 1);
    assert_eq!(
        conn.http_handle(Signal::Read(Ok(120))),
        Ok(Step::Settled(Status::Writable))
    );
    assert_eq!(conn.status, Status::Writable);
    assert_eq!(conn.round_trip, 1);

    conn.out_buffer.extend_from_slice(&[1u8; 47]);
    assert_eq!(
        conn.http_handle(Signal::Ready { readable: false }),
        Ok(Step::Perform(Demand::Write))
    );
    assert_eq!(conn.pending(), &[1u8; 47]);
    assert_eq!(
        conn.http_handle(Signal::Written(Ok(40))),
        Ok(Step::Settled(Status::Writable))
    );
    assert_eq!(conn.written, 40);
    assert_eq!(conn.pending(), &[1u8; 7]);
    assert_eq!(
        conn.http_handle(Signal::Ready { readable: false }),
        Ok(Step::Perform(Demand::Write))
    );
    assert_eq!(
        conn.http_handle(Signal::Written(Ok(7))),
        Ok(Step::Perform(Demand::Flush))
    );
    assert_eq!(conn.written, 47);
    assert_eq!(conn.status, Status::Done(false));
    assert_eq!(
        conn.http_handle(Signal::Flushed(Ok(()))),
        Ok(Step::Settled(Status::Done(true)))
    );
    assert_eq!(conn.status, Status::Done(true));
    assert_eq!(conn.round_trip, 3);
    assert_eq!(conn.stream, Some(7));
}

#[test]
fn written_never_exceeds_the_outbound_buffer() {
    let mut conn = accepted();
    conn.status = Status::Writable;
    conn.out_buffer.extend_from_slice(&[0u8; 10]);
    for n in [3usize, 3, 3, 1] {
        assert!(conn.written + n <= conn.out_buffer.len());
        conn.http_handle(Signal::Written(Ok(n))).unwrap();
        assert!(conn.written <= conn.out_buffer.len());
    }
    assert_eq!(conn.written, 10);
    assert_eq!(conn.status, Status::Done(false));
}

#[test]
fn end_of_stream_closes() {
    let mut conn = accepted();
    assert_eq!(
        conn.http_handle(Signal::Read(Ok(0))),
        Ok(Step::Settled(Status::Close))
    );
    assert_eq!(conn.status, Status::Close);

    let mut conn = accepted();
    conn.status = Status::Writable;
    conn.out_buffer.push(1);
    assert_eq!(
        conn.http_handle(Signal::Written(Ok(0))),
        Ok(Step::Settled(Status::Close))
    );
    assert_eq!(conn.status, Status::Close);
    assert_eq!(conn.written, 0);
}

#[test]
fn nothing_to_send_is_done() {
    let mut conn = accepted();
    conn.status = Status::Writable;
    assert_eq!(
        conn.http_handle(Signal::Ready { readable: true }),
        Ok(Step::Settled(Status::Done(true)))
    );
    assert_eq!(conn.status, Status::Done(true));
}

#[test]
fn a_pending_flush_is_demanded_again() {
    let mut conn = accepted();
    conn.status = Status::Done(false);
    assert_eq!(
        conn.http_handle(Signal::Ready { readable: false }),
        Ok(Step::Perform(Demand::Flush))
    );
    assert_eq!(
        conn.http_handle(Signal::Flushed(Err(IoFailure::Other))),
        Err(ConnectionError::Io(IoFailure::Other))
    );
    assert_eq!(conn.status, Status::Done(false));
}

#[test]
fn not_readable_or_failed_read_stays_readable() {
    let mut conn = accepted();
    assert_eq!(
        conn.http_handle(Signal::Ready { readable: false }),
        Ok(Step::Settled(Status::Readable))
    );
    assert_eq!(
        conn.http_handle(Signal::Read(Err(IoFailure::WouldBlock))),
        Ok(Step::Settled(Status::Readable))
    );
    assert_eq!(conn.status, Status::Readable);
}

#[test]
fn failed_write_is_handed_on() {
    let mut conn = accepted();
    conn.status = Status::Writable;
    conn.out_buffer.push(1);
    assert_eq!(
        conn.http_handle(Signal::Written(Err(IoFailure::WouldBlock))),
        Err(ConnectionError::Io(IoFailure::WouldBlock))
    );
    assert_eq!(conn.status, Status::Writable);
    assert_eq!(conn.written, 0);
}

#[test]
fn illegal_states() {
    for status in [Status::Empty, Status::Close, Status::Done(true)] {
        let mut conn = accepted();
        conn.status = status;
        assert_eq!(
            conn.http_handle(Signal::Ready { readable: true }),
            Err(ConnectionError::IllegalState)
        );
        assert_eq!(conn.status, status);
        assert_eq!(conn.round_trip, 0);
    }
    let mut conn = accepted();
    conn.stream = None;
    assert_eq!(
        conn.http_handle(Signal::Ready { readable: true }),
        Err(ConnectionError::IllegalState)
    );
    // outcomes that no state asked for
    let mut conn = accepted();
    assert_eq!(
        conn.http_handle(Signal::Written(Ok(1))),
        Err(ConnectionError::IllegalState)
    );
    assert_eq!(
        conn.http_handle(Signal::Flushed(Ok(()))),
        Err(ConnectionError::IllegalState)
    );
    conn.status = Status::Writable;
    assert_eq!(
        conn.http_handle(Signal::Read(Ok(1))),
        Err(ConnectionError::IllegalState)
    );
    assert_eq!(
        conn.http_handle(Signal::Written(Ok(0))),
        Err(ConnectionError::IllegalState)
    );
}

fn frames() -> Vec<u8> {
    let mut bytes = Vec::new();
    bytes.extend_from_slice(&Message::Ack.to_bytes());
    bytes.extend_from_slice(&Message::Summary(1, 2).to_bytes());
    bytes.extend_from_slice(&Message::Payment(300, CorrelationId([b'x'; 36])).to_bytes());
    bytes
}

#[test]
fn read_messages_splits_the_read_into_frames() {
    let mut conn: Connection<540, u32> = Connection::new(Some(1));
    let bytes = frames();
    conn.in_buffer[..162].copy_from_slice(&bytes);
    let messages = conn.read_messages(Ok(162)).unwrap();
    assert_eq!(messages.len(), 3);
    assert!(matches!(messages[0], Message::Ack));
    assert!(matches!(messages[1], Message::Summary(1, 2)));
    match messages[2] {
        Message::Payment(amount, id) => {
            assert_eq!(amount, 300);
            assert_eq!(id.0, [b'x'; 36]);
        }
        _ => panic!("Expected Payment message"),
    }
    // a last part shorter than a frame is left out
    assert_eq!(conn.read_messages(Ok(161)).unwrap().len(), 2);
    assert_eq!(conn.read_messages(Ok(53)).unwrap().len(), 0);
    assert_eq!(conn.read_messages(Ok(54)).unwrap().len(), 1);
}

#[test]
fn a_frame_that_does_not_decode_ends_the_batch() {
    let mut bytes = frames();
    bytes[54] = b'X';
    let messages = decode_frames(&bytes);
    assert_eq!(messages.len(), 1);
    assert!(matches!(messages[0], Message::Ack));
    assert_eq!(decode_frames(&[]).len(), 0);
}

#[test]
fn read_messages_failures() {
    let conn: Connection<540, u32> = Connection::new(None);
    assert_eq!(
        conn.read_messages(Ok(54)).unwrap_err(),
        ConnectionError::ClosedConnection
    );
    let mut conn: Connection<540, u32> = Connection::new(Some(1));
    assert_eq!(
        conn.read_messages(Ok(0)).unwrap_err(),
        ConnectionError::UnexpectedEof
    );
    assert_eq!(
        conn.read_messages(Err(IoFailure::WouldBlock)).unwrap_err(),
        ConnectionError::Io(IoFailure::WouldBlock)
    );
    assert_eq!(
        conn.read_messages(Err(IoFailure::Other)).unwrap_err(),
        ConnectionError::Io(IoFailure::Other)
    );
    conn.status = Status::Close;
    assert_eq!(
        conn.read_messages(Ok(54)).unwrap_err(),
        ConnectionError::ClosedConnection
    );
}

#[test]
fn write_message_queues_the_frame() {
    let mut conn: Connection<540, u32> = Connection::new(Some(1));
    conn.out_buffer.push(0xaa);
    assert_eq!(conn.write_messsage(&Message::Summary(1, 2)), Ok(()));
    assert_eq!(conn.status, Status::Writable);
    assert_eq!(conn.out_buffer.len(), 55);
    assert_eq!(conn.out_buffer[0], 0xaa);
    assert_eq!(&conn.out_buffer[1..], &Message::Summary(1, 2).to_bytes());

    conn.status = Status::Close;
    assert_eq!(
        conn.write_messsage(&Message::Ack),
        Err(ConnectionError::ClosedConnection)
    );
    assert_eq!(conn.out_buffer.len(), 55);
    assert_eq!(conn.status, Status::Close);

    let mut conn: Connection<540, u32> = Connection::new(None);
    assert_eq!(
        conn.write_messsage(&Message::Ack),
        Err(ConnectionError::ClosedConnection)
    );
    assert!(conn.out_buffer.is_empty());
}
