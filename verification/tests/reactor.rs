use gateway::connection::{Demand, Signal, IoFailure, Status};
use gateway::load_balance::{
    answer, is_server, server_token, Accepted, Reactor, Verdict, ACCEPT_BATCH, BUFFER_SIZE,
    MAX_SLOTS, SERVER,
};
use gateway::message::http::response::{BAD_REQUEST, NOT_FOUND, OK, SUMMARY};
use gateway::message::http::Request;
use gateway::message::socket::Message;
use mio::Token;

type Gateway = Reactor<350, u32>;

fn accept(reactor: &mut Gateway, stream: u32) -> (Token, usize, Option<u32>) {
    assert!(reactor.may_accept());
    match reactor.accepted(Ok(stream)) {
        Accepted::Registered {
            token,
            slot,
            evicted,
        } => (token, slot, evicted),
        _ => panic!("expected a registration"),
    }
}

/// Drives one request through a fresh reactor and returns the frame that
/// is dispatched and the response that is sent.
fn serve(request: &[u8]) -> (Option<Message>, Vec<u8>) {
    let mut reactor = Gateway::new(MAX_SLOTS);
    reactor.begin_poll();
    let (token, slot, _) = accept(&mut reactor, 11);
    assert!(matches!(
        reactor.handle(token, Signal::Ready { readable: true }),
        Verdict::Perform(Demand::Read)
    ));
    reactor.slots[slot].in_buffer[..request.len()].copy_from_slice(request);
    let frame = match reactor.handle(token, Signal::Read(Ok(request.len()))) {
        Verdict::Respond(frame) => frame,
        _ => panic!("expected a response"),
    };
    assert_eq!(reactor.slots[slot].status, Status::Writable);
    let response = reactor.slots[slot].out_buffer.clone();
    assert!(matches!(
        reactor.handle(token, Signal::Ready { readable: false }),
        Verdict::Perform(Demand::Write)
    ));
    assert!(matches!(
        reactor.handle(token, Signal::Written(Ok(response.len()))),
        Verdict::Perform(Demand::Flush)
    ));
    assert_eq!(reactor.conn_count, 1);
    match reactor.handle(token, Signal::Flushed(Ok(()))) {
        Verdict::Release(stream) => assert_eq!(stream, Some(11)),
        _ => panic!("expected a release"),
    }
    assert_eq!(reactor.conn_count, 0);
    assert_eq!(reactor.slots[slot].status, Status::Empty);
    assert!(reactor.slots[slot].stream.is_none());
    assert!(reactor.slots[slot].out_buffer.is_empty());
    (frame, response)
}

#[test]
fn constants() {
    assert_eq!(SERVER, 0);
    assert_eq!(server_token(), Token(0));
    assert!(is_server(Token(0)));
    assert!(!is_server(Token(1)));
    assert!(!is_server(Token(50)));
    assert_eq!(ACCEPT_BATCH, 10);
    assert_eq!(MAX_SLOTS, 50);
    assert_eq!(BUFFER_SIZE, 350);
}

#[test]
fn payment_is_answered_and_dispatched() {
    let request = b"POST /payments HTTP/1.1\r\nHost: x\r\n\r\n{\"amount\": 19.90, \"correlationId\": \"4a7b1e2c-3d4f-5e6a-7b8c-9d0e1f2a3b4c\"}";
    let (frame, response) = serve(request);
    assert_eq!(
        response,
        b"HTTP/1.1 200 OK\r\nConnection: Keep-Alive\r\nKeep-Alive: timeout=30, max=500\r\nContent-Length: 0\r\n\r\n"
    );
    let frame = frame.expect("a payment is dispatched").to_bytes();
    assert_eq!(frame.len(), 54);
    assert_eq!(frame[0], b'$');
    assert_eq!(&frame[1..9], &1990u64.to_be_bytes());
    assert_eq!(&frame[9..45], b"4a7b1e2c-3d4f-5e6a-7b8c-9d0e1f2a3b4c");
}

#[test]
fn summary_is_answered_and_dispatched() {
    let request = b"GET /payments-summary?from=2020-07-10T12%3A34%3A56.000Z&to=2020-07-10T12%3A35%3A56.000Z HTTP/1.1\r\n\r\n";
    let (frame, response) = serve(request);
    let body = b"{\"default\":{\"totalRequests\": 0,\"totalAmount\": 0},\"fallback\":{\"totalRequests\": 0,\"totalAmount\": 0}}";
    assert_eq!(body.len(), 98);
    assert!(response.starts_with(b"HTTP/1.1 200 OK\r\nContent-Length: 98\r\n\r\n"));
    assert!(response.ends_with(body));
    assert_eq!(response.len(), 39 + 98);
    match frame {
        Some(Message::Summary(from, to)) => {
            assert_ne!(from, 0);
            assert_ne!(to, 0);
        }
        _ => panic!("expected a summary frame"),
    }
}

#[test]
fn unknown_route_is_answered_without_a_frame() {
    let (frame, response) = serve(b"GET /unknown HTTP/1.1\r\n\r\n");
    assert!(frame.is_none());
    assert_eq!(
        response,
        b"HTTP/1.1 404 Not Found\r\nContent-Length: 0\r\n\r\n"
    );
}

#[test]
fn unreadable_payment_is_answered_without_a_frame() {
    let (frame, response) = serve(b"POST /payments HTTP/1.1\r\n\r\n{\"amount\": 10}");
    assert!(frame.is_none());
    assert_eq!(
        response,
        b"HTTP/1.1 400 Bad Request\r\nContent-Length: 0\r\n\r\n"
    );
}

#[test]
fn canned_responses() {
    assert_eq!(&NOT_FOUND[..], b"HTTP/1.1 404 Not Found\r\nContent-Length: 0\r\n\r\n");
    assert_eq!(&BAD_REQUEST[..], b"HTTP/1.1 400 Bad Request\r\nContent-Length: 0\r\n\r\n");
    assert_eq!(&OK[..], b"HTTP/1.1 200 OK\r\nConnection: Keep-Alive\r\nKeep-Alive: timeout=30, max=500\r\nContent-Length: 0\r\n\r\n");
    assert_eq!(&SUMMARY[..], &b"HTTP/1.1 200 OK\r\nContent-Length: 98\r\n\r\n{\"default\":{\"totalRequests\": 0,\"totalAmount\": 0},\"fallback\":{\"totalRequests\": 0,\"totalAmount\": 0}}"[..]);
}

#[test]
fn answer_appends_the_response() {
    let mut out = vec![1u8, 2];
    assert!(answer(&Request::NotFound, &mut out).is_none());
    assert_eq!(&out[..2], &[1, 2]);
    assert_eq!(&out[2..], &NOT_FOUND[..]);
    let mut out = Vec::new();
    assert!(matches!(
        answer(&Request::Summary(3, 4), &mut out),
        Some(Message::Summary(3, 4))
    ));
    assert_eq!(&out[..], &SUMMARY[..]);
}

#[test]
fn new_reactor() {
    let reactor = Gateway::new(50);
    assert_eq!(reactor.slots.len(), 50);
    assert!(reactor
        .slots
        .iter()
        .all(|c| c.stream.is_none() && c.status == Status::Empty));
    assert_eq!(reactor.next_token, 1);
    assert_eq!(reactor.conn_count, 0);
    assert_eq!(reactor.accept_budget, 0);
    assert!(!reactor.may_accept());
}

#[test]
fn accept_burst_is_capped() {
    let mut reactor = Gateway::new(50);
    reactor.begin_poll();
    let mut accepted = 0;
    while reactor.may_accept() {
        let (token, slot, evicted) = accept(&mut reactor, 100 + accepted);
        assert_eq!(token, Token(1 + accepted as usize));
        assert_eq!(slot, token.0 % 50);
        assert!(evicted.is_none());
        assert_eq!(reactor.slots[slot].stream, Some(100 + accepted));
        assert_eq!(reactor.slots[slot].status, Status::Readable);
        accepted += 1;
    }
    assert_eq!(accepted, 10);
    assert_eq!(reactor.conn_count, 10);
    assert_eq!(reactor.next_token, 11);
    reactor.begin_poll();
    assert!(reactor.may_accept());
}

#[test]
fn accept_stops_when_all_slots_are_counted() {
    let mut reactor: Reactor<540, u32> = Reactor::new(5);
    reactor.begin_poll();
    let mut accepted = 0;
    while reactor.may_accept() {
        match reactor.accepted(Ok(accepted)) {
            Accepted::Registered { slot, .. } => assert!(slot < 5),
            _ => panic!("expected a registration"),
        }
        accepted += 1;
    }
    assert_eq!(accepted, 5);
    assert_eq!(reactor.conn_count, 5);
    assert_eq!(reactor.accept_budget, 5);
    // every slot holds one stream, and no two slots the same one
    let mut seen: Vec<u32> = reactor.slots.iter().map(|c| c.stream.unwrap()).collect();
    seen.sort();
    assert_eq!(seen, vec![0, 1, 2, 3, 4]);
}

#[test]
fn failed_accepts_change_nothing() {
    let mut reactor = Gateway::new(50);
    reactor.begin_poll();
    assert!(matches!(
        reactor.accepted(Err(IoFailure::WouldBlock)),
        Accepted::Drained
    ));
    assert!(matches!(
        reactor.accepted(Err(IoFailure::Other)),
        Accepted::Failed
    ));
    assert_eq!(reactor.next_token, 1);
    assert_eq!(reactor.conn_count, 0);
    assert_eq!(reactor.accept_budget, 10);
}

#[test]
fn a_taken_slot_hands_out_its_stream() {
    let mut reactor = Gateway::new(2);
    reactor.begin_poll();
    let (first, slot, _) = accept(&mut reactor, 1);
    assert_eq!((first, slot), (Token(1), 1));
    let (second, slot, _) = accept(&mut reactor, 2);
    assert_eq!((second, slot), (Token(2), 0));
    // the connection of token 2 ends; token 3 falls on the slot of token 1
    assert!(matches!(
        reactor.handle(second, Signal::Read(Ok(0))),
        Verdict::Release(Some(2))
    ));
    assert_eq!(reactor.conn_count, 1);
    let (third, slot, evicted) = accept(&mut reactor, 3);
    assert_eq!((third, slot), (Token(3), 1));
    assert_eq!(evicted, Some(1));
    assert_eq!(reactor.slots[1].stream, Some(3));
    assert_eq!(reactor.slots[0].stream, None);
}

#[test]
fn tokens_skip_the_listener() {
    let mut reactor = Gateway::new(50);
    reactor.begin_poll();
    reactor.next_token = usize::MAX;
    let (token, slot, _) = accept(&mut reactor, 1);
    assert_eq!(token, Token(usize::MAX));
    assert_eq!(slot, usize::MAX % 50);
    assert_eq!(reactor.next_token, 1);
    assert_eq!(reactor.slot_of(Token(51)), 1);
    assert_eq!(reactor.slot_of(Token(50)), 0);
    assert_eq!(reactor.slot_of(Token(7)), 7);
}

#[test]
fn closed_peer_releases_the_slot() {
    let mut reactor = Gateway::new(50);
    reactor.begin_poll();
    let (token, slot, _) = accept(&mut reactor, 5);
    assert!(matches!(
        reactor.handle(token, Signal::Read(Ok(0))),
        Verdict::Release(Some(5))
    ));
    assert_eq!(reactor.conn_count, 0);
    assert_eq!(reactor.slots[slot].status, Status::Empty);
}

#[test]
fn failures_release_without_counting() {
    let mut reactor = Gateway::new(50);
    reactor.begin_poll();
    let (token, slot, _) = accept(&mut reactor, 5);
    reactor.slots[slot].status = Status::Writable;
    reactor.slots[slot].out_buffer.push(1);
    assert!(matches!(
        reactor.handle(token, Signal::Written(Err(IoFailure::Other))),
        Verdict::Release(Some(5))
    ));
    assert_eq!(reactor.conn_count, 1);
    assert!(reactor.slots[slot].stream.is_none());
    // an event on a slot without a connection
    assert!(matches!(
        reactor.handle(token, Signal::Ready { readable: true }),
        Verdict::Release(None)
    ));
    assert_eq!(reactor.conn_count, 1);
}

#[test]
fn faults_and_waits() {
    let mut reactor = Gateway::new(50);
    reactor.begin_poll();
    let (token, slot, _) = accept(&mut reactor, 5);
    assert!(matches!(
        reactor.handle(token, Signal::Ready { readable: false }),
        Verdict::Fault
    ));
    reactor.slots[slot].status = Status::Writable;
    reactor.slots[slot].out_buffer.extend_from_slice(&[0u8; 8]);
    assert!(matches!(
        reactor.handle(token, Signal::Written(Err(IoFailure::WouldBlock))),
        Verdict::Fault
    ));
    assert_eq!(reactor.slots[slot].stream, Some(5));
    assert!(matches!(
        reactor.handle(token, Signal::Written(Ok(3))),
        Verdict::Wait
    ));
    assert_eq!(reactor.slots[slot].out_buffer.len(), 8);
    assert_eq!(reactor.slots[slot].written, 3);
    assert_eq!(reactor.conn_count, 1);
}

#[test]
fn the_whole_inbound_buffer_is_classified() {
    let mut reactor = Gateway::new(50);
    reactor.begin_poll();
    let (token, slot, _) = accept(&mut reactor, 5);
    let request = b"GET /unknown HTTP/1.1\r\n\r\n";
    reactor.slots[slot].in_buffer[..request.len()].copy_from_slice(request);
    // only a part of the request is reported as read
    assert!(matches!(
        reactor.handle(token, Signal::Read(Ok(3))),
        Verdict::Respond(None)
    ));
    assert_eq!(&reactor.slots[slot].out_buffer[..], &NOT_FOUND[..]);
}
