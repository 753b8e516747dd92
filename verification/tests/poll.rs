use std::io::Write;
use std::time::Duration;

use gateway::connection::{Demand, Signal};
use gateway::load_balance::{readiness, Accepted, Reactor, Verdict};
use mio::net::UnixStream;
use mio::{Events, Interest, Poll, Token};

#[test]
fn a_readable_stream_is_reported_ready() {
    let (mut near, mut far) = UnixStream::pair().expect("a pair of streams");
    let mut poll = Poll::new().expect("a poller");
    poll.registry()
        .register(&mut near, Token(7), Interest::READABLE)
        .expect("the stream is registered");
    far.write_all(b"x").expect("a byte is written");

    let mut events = Events::with_capacity(8);
    poll.poll(&mut events, Some(Duration::from_secs(5)))
        .expect("the poll returns");
    let mut seen = 0;
    for event in &events {
        let (token, ready) = readiness(event);
        assert_eq!(token, Token(7));
        assert!(matches!(ready, Signal::Ready { readable: true }));
        assert!(matches!(
            Signal::ready(event),
            Signal::Ready { readable: true }
        ));
        seen += 1;
    }
    assert_eq!(seen, 1);
}

#[test]
fn a_writable_stream_is_reported_ready_but_not_readable() {
    let (mut near, _far) = UnixStream::pair().expect("a pair of streams");
    let mut poll = Poll::new().expect("a poller");
    poll.registry()
        .register(&mut near, Token(9), Interest::WRITABLE)
        .expect("the stream is registered");

    let mut events = Events::with_capacity(8);
    poll.poll(&mut events, Some(Duration::from_secs(5)))
        .expect("the poll returns");
    let mut seen = 0;
    for event in &events {
        let (token, ready) = readiness(event);
        assert_eq!(token, Token(9));
        assert!(matches!(ready, Signal::Ready { readable: false }));
        seen += 1;
    }
    assert_eq!(seen, 1);
}

#[test]
fn a_polled_event_drives_its_slot() {
    let (near, mut far) = UnixStream::pair().expect("a pair of streams");
    let mut reactor: Reactor<350, UnixStream> = Reactor::new(50);
    reactor.begin_poll();
    let mut poll = Poll::new().expect("a poller");
    let (token, slot) = match reactor.accepted(Ok(near)) {
        Accepted::Registered { token, slot, .. } => (token, slot),
        _ => panic!("expected a registration"),
    };
    poll.registry()
        .register(
            reactor.slots[slot].stream.as_mut().unwrap(),
            token,
            Interest::READABLE,
        )
        .expect("the stream is registered");
    far.write_all(b"GET /unknown HTTP/1.1\r\n\r\n")
        .expect("the request is written");

    let mut events = Events::with_capacity(8);
    poll.poll(&mut events, Some(Duration::from_secs(5)))
        .expect("the poll returns");
    let mut demands = 0;
    for event in &events {
        let (token, ready) = readiness(event);
        assert_eq!(reactor.slot_of(token), slot);
        assert!(matches!(
            reactor.handle(token, ready),
            Verdict::Perform(Demand::Read)
        ));
        demands += 1;
    }
    assert_eq!(demands, 1);
}
