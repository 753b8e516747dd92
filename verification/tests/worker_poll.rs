use gateway::connection::IoFailure;
use gateway::load_balance::worker_poll::{
    admission, handshake, joins, Admission, Delivery, Dispatcher, Turn, WorkerPoll, MAX_RETRIES,
    MAX_WORKERS,
};
use gateway::message::socket::Message;

#[test]
fn six_frames_over_two_workers() {
    let mut pool = WorkerPoll::new("/tmp/sockets".to_string(), vec!['a', 'b']);
    let mut received: Vec<Vec<usize>> = vec![Vec::new(), Vec::new()];
    for frame in 0..6 {
        let index = pool.target().expect("the pool is not empty");
        received[index].push(frame);
        assert!(matches!(pool.send(Ok(54), 54), Delivery::Full));
    }
    assert_eq!(received[0], vec![0, 2, 4]);
    assert_eq!(received[1], vec![1, 3, 5]);
    assert_eq!(pool.conn_ptr, 0);
    assert_eq!(pool.socket_dir, "/tmp/sockets");
}

#[test]
fn every_stream_gets_its_turn() {
    for len in 1..=10usize {
        let mut pool = WorkerPoll::new(String::new(), (0..len).collect::<Vec<usize>>());
        let mut seen = vec![0usize; len];
        for _ in 0..len {
            seen[pool.target().unwrap()] += 1;
            pool.send(Ok(54), 54);
        }
        assert!(seen.iter().all(|n| *n == 1));
        assert_eq!(pool.conn_ptr, 0);
    }
}

#[test]
fn partial_write_moves_on_too() {
    let mut pool = WorkerPoll::new(String::new(), vec!['a', 'b']);
    assert!(matches!(pool.send(Ok(10), 54), Delivery::Partial));
    assert_eq!(pool.target(), Some(1));
    assert!(matches!(pool.send(Ok(0), 54), Delivery::Partial));
    assert_eq!(pool.target(), Some(0));
    assert_eq!(pool.poll, vec!['a', 'b']);
}

#[test]
fn failed_stream_leaves_the_pool() {
    let mut pool = WorkerPoll::new(String::new(), vec!['a', 'b', 'c']);
    pool.send(Ok(54), 54);
    assert_eq!(pool.target(), Some(1));
    assert!(matches!(
        pool.send(Err(IoFailure::Other), 54),
        Delivery::Dropped('b')
    ));
    assert_eq!(pool.poll, vec!['a', 'c']);
    assert_eq!(pool.target(), Some(1));
    // the last stream fails: the cursor goes back to the first
    assert!(matches!(
        pool.send(Err(IoFailure::WouldBlock), 54),
        Delivery::Dropped('c')
    ));
    assert_eq!(pool.poll, vec!['a']);
    assert_eq!(pool.target(), Some(0));
    assert!(matches!(
        pool.send(Err(IoFailure::Other), 54),
        Delivery::Dropped('a')
    ));
    assert!(pool.poll.is_empty());
    assert_eq!(pool.target(), None);
}

#[test]
fn renewal_starts_at_the_first_stream() {
    let mut pool = WorkerPoll::new("dir".to_string(), vec!['a', 'b']);
    pool.send(Ok(54), 54);
    pool.install(vec!['x', 'y', 'z']);
    assert_eq!(pool.target(), Some(0));
    assert_eq!(pool.poll, vec!['x', 'y', 'z']);
    assert_eq!(pool.socket_dir, "dir");
    pool.install(Vec::new());
    assert_eq!(pool.target(), None);
}

#[test]
fn at_most_ten_sockets_are_taken() {
    assert_eq!(MAX_WORKERS, 10);
    assert_eq!(admission(0, true), Admission::Connect);
    assert_eq!(admission(9, true), Admission::Connect);
    assert_eq!(admission(9, false), Admission::Skip);
    assert_eq!(admission(10, true), Admission::Stop);
    assert_eq!(admission(10, false), Admission::Stop);
    assert_eq!(admission(11, true), Admission::Stop);
}

#[test]
fn handshake_is_an_ack_frame() {
    assert_eq!(handshake(), [0x06u8; 54]);
    assert!(matches!(Message::from_bytes(&handshake()), Ok(Message::Ack)));
    assert!(joins(Ok(54)));
    assert!(joins(Ok(0)));
    assert!(!joins(Err(IoFailure::Other)));
    assert!(!joins(Err(IoFailure::WouldBlock)));
}

#[test]
fn dispatcher_gives_up_after_twenty_failures() {
    assert_eq!(MAX_RETRIES, 10);
    let mut dispatcher = Dispatcher::new();
    let mut turns = Vec::new();
    loop {
        let turn = dispatcher.turn();
        turns.push(turn);
        if turn == Turn::Exit {
            break;
        }
        assert!(dispatcher.sent(false));
    }
    assert_eq!(turns.len(), 21);
    for (i, turn) in turns.iter().enumerate() {
        let expected = match i {
            10 => Turn::Renew,
            20 => Turn::Exit,
            _ => Turn::Receive,
        };
        assert_eq!(*turn, expected);
    }
    assert_eq!(
        dispatcher,
        Dispatcher {
            retries: 10,
            shutdown: true
        }
    );
}

#[test]
fn a_delivery_ends_the_run_of_failures() {
    let mut dispatcher = Dispatcher::new();
    for _ in 0..9 {
        assert_eq!(dispatcher.turn(), Turn::Receive);
        assert!(dispatcher.sent(false));
    }
    assert_eq!(dispatcher.retries, 9);
    assert_eq!(dispatcher.turn(), Turn::Receive);
    assert!(!dispatcher.sent(true));
    assert_eq!(
        dispatcher,
        Dispatcher {
            retries: 0,
            shutdown: false
        }
    );
    for _ in 0..10 {
        assert_eq!(dispatcher.turn(), Turn::Receive);
        dispatcher.sent(false);
    }
    assert_eq!(dispatcher.turn(), Turn::Renew);
    assert_eq!(
        dispatcher,
        Dispatcher {
            retries: 0,
            shutdown: true
        }
    );
}
