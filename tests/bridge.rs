use packrat::bridge::{Buffers, Incoming, SocketEvent};

#[test]
fn poll_on_empty_buffers_parks() {
    let mut b: Buffers<u32> = Buffers::new();
    assert_eq!(b.poll_incoming(1), Incoming::Pending);
    assert_eq!(b.poll_incoming(2), Incoming::Pending);
    assert_eq!(b.push_inbound(vec![5]), vec![1, 2]);
    assert_eq!(b.poll_incoming(3), Incoming::Ready(vec![5]));
}

#[test]
fn parked_tasks_resume_once_and_buffers_arrive_in_order() {
    let mut b: Buffers<u32> = Buffers::new();
    for w in 0..4 {
        assert_eq!(b.poll_incoming(w), Incoming::Pending);
    }
    let mut resumed = Vec::new();
    for k in 0..3u8 {
        resumed.extend(b.push_inbound(vec![k]));
    }
    assert_eq!(resumed, vec![0, 1, 2, 3]);
    for k in 0..3u8 {
        assert_eq!(b.poll_incoming(9), Incoming::Ready(vec![k]));
    }
    assert_eq!(b.poll_incoming(9), Incoming::Pending);
}

#[test]
fn outgoing_waits_for_open_then_flushes_in_order() {
    let mut b: Buffers<u32> = Buffers::new();
    b.enqueue_outgoing(vec![1]);
    b.enqueue_outgoing(vec![2]);
    assert!(!b.is_ready());
    assert!(b.take_outgoing().is_empty());
    b.mark_open();
    assert!(b.is_ready());
    assert_eq!(b.take_outgoing(), vec![vec![1], vec![2]]);
    assert!(b.take_outgoing().is_empty());
}

#[test]
fn failure_resumes_parked_tasks_and_reports_closed() {
    let mut b: Buffers<u32> = Buffers::new();
    assert_eq!(b.poll_incoming(4), Incoming::Pending);
    assert_eq!(b.fail(), vec![4]);
    assert!(b.is_closed());
    assert_eq!(b.poll_incoming(5), Incoming::Closed);
}

#[test]
fn buffers_queued_before_failure_are_still_delivered() {
    let mut b: Buffers<u32> = Buffers::new();
    b.push_inbound(vec![1]);
    b.fail();
    assert_eq!(b.poll_incoming(0), Incoming::Ready(vec![1]));
    assert_eq!(b.poll_incoming(0), Incoming::Closed);
}

#[test]
fn socket_events_drive_the_buffers() {
    let mut b: Buffers<u32> = Buffers::new();
    assert_eq!(b.poll_incoming(1), Incoming::Pending);
    assert!(b.apply_event(SocketEvent::NonBinary).is_empty());
    assert_eq!(b.poll_incoming(2), Incoming::Pending);
    assert!(b.apply_event(SocketEvent::Opened).is_empty());
    assert!(b.is_ready());
    assert_eq!(b.apply_event(SocketEvent::Binary(vec![6])), vec![1, 2]);
    assert_eq!(b.poll_incoming(3), Incoming::Ready(vec![6]));
    assert_eq!(b.poll_incoming(4), Incoming::Pending);
    assert_eq!(b.apply_event(SocketEvent::Error("reset".to_string())), vec![4]);
    assert_eq!(b.poll_incoming(5), Incoming::Closed);
}

#[test]
fn socket_close_fails_the_bridge() {
    let mut b: Buffers<u32> = Buffers::new();
    assert_eq!(b.poll_incoming(1), Incoming::Pending);
    assert_eq!(b.apply_event(SocketEvent::Closed), vec![1]);
    assert_eq!(b.poll_incoming(2), Incoming::Closed);
}
