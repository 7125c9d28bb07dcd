use packrat::bridge::Incoming;
use packrat::session::{Phase, Role, Session, SessionError, ROOT_CHANNEL};
use packrat::socket::{connect, exchange};
use std::sync::atomic::{AtomicUsize, Ordering};
use std::sync::Arc;
use std::task::{Wake, Waker};
use std::time::{Duration, Instant};

struct Counter(AtomicUsize);

impl Wake for Counter {
    fn wake(self: Arc<Self>) {
        self.0.fetch_add(1, Ordering::SeqCst);
    }
}

fn counting() -> (Arc<Counter>, Waker) {
    let counter = Arc::new(Counter(AtomicUsize::new(0)));
    let waker = Waker::from(counter.clone());
    (counter, waker)
}

fn dead_socket() -> (ewebsock::WsSender, ewebsock::WsReceiver) {
    ewebsock::connect("ws://127.0.0.1:1", ewebsock::Options::default()).unwrap()
}

#[test]
fn failed_socket_wakes_parked_reader_and_reports_closed() {
    let (mut sock, mut remote) = connect(dead_socket());
    let (counter, waker) = counting();
    assert_eq!(sock.poll_next(waker.clone()), Incoming::Pending);
    sock.start_send(vec![1, 2]);
    remote.send(&mut sock);
    let start = Instant::now();
    loop {
        remote.receive(&mut sock);
        if counter.0.load(Ordering::SeqCst) > 0 {
            break;
        }
        assert!(start.elapsed() < Duration::from_secs(15), "the socket never reported its failure");
        std::hint::spin_loop();
    }
    assert_eq!(counter.0.load(Ordering::SeqCst), 1);
    assert_eq!(sock.poll_next(waker.clone()), Incoming::Closed);
    assert_eq!(sock.poll_next(waker), Incoming::Closed);
}

#[test]
fn two_bridges_keep_their_own_buffers() {
    let (mut s1, mut r1) = connect(dead_socket());
    let (mut s2, _r2) = connect(dead_socket());
    let (c1, w1) = counting();
    let (c2, w2) = counting();
    assert_eq!(s1.poll_next(w1.clone()), Incoming::Pending);
    assert_eq!(s2.poll_next(w2.clone()), Incoming::Pending);
    let start = Instant::now();
    while c1.0.load(Ordering::SeqCst) == 0 {
        r1.receive(&mut s1);
        assert!(start.elapsed() < Duration::from_secs(15), "the socket never reported its failure");
        std::hint::spin_loop();
    }
    assert_eq!(s1.poll_next(w1), Incoming::Closed);
    assert_eq!(c2.0.load(Ordering::SeqCst), 0);
    assert_eq!(s2.poll_next(w2), Incoming::Pending);
}

#[test]
fn lost_socket_closes_the_session_and_fails_pending_call() {
    let (mut sock, mut remote) = connect(dead_socket());
    let mut session: Session<Waker> = Session::new(Role::Initiator);
    session.open_root_channel().unwrap();
    session.send(ROOT_CHANNEL, vec![1, 2, 0, 0, 0, 3, 0, 0, 0]).unwrap();
    let (counter, waker) = counting();
    assert_eq!(session.poll_channel(ROOT_CHANNEL, waker.clone()), Ok(None));
    exchange(&mut sock, &mut session);
    assert!(session.take_outgoing().is_empty());
    let start = Instant::now();
    while !sock.is_closed() {
        remote.receive(&mut sock);
        assert!(start.elapsed() < Duration::from_secs(15), "the socket never reported its failure");
        std::hint::spin_loop();
    }
    assert_eq!(session.phase(), Phase::Active);
    exchange(&mut sock, &mut session);
    assert_eq!(session.phase(), Phase::Closed);
    assert_eq!(counter.0.load(Ordering::SeqCst), 1);
    assert_eq!(session.poll_channel(ROOT_CHANNEL, waker), Err(SessionError::TransportClosed));
}
