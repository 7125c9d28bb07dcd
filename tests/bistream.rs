use packrat::bistream::{BiStream, StreamNext};

#[derive(Debug, PartialEq)]
enum Status {
    Online,
    Replaying,
    Disconnected,
}

#[test]
fn subscriber_sees_items_in_emission_order_despite_acks() {
    let mut s: BiStream<Status, u32> = BiStream::new();
    s.push_item(Status::Online);
    s.send_ack(2);
    s.push_item(Status::Replaying);
    s.send_ack(1);
    assert_eq!(s.next_item(), StreamNext::Item(Status::Online));
    s.send_ack(3);
    s.push_item(Status::Disconnected);
    assert_eq!(s.next_item(), StreamNext::Item(Status::Replaying));
    assert_eq!(s.next_item(), StreamNext::Item(Status::Disconnected));
    assert_eq!(s.next_item(), StreamNext::Pending);
    assert_eq!(s.next_ack(), Some(2));
    assert_eq!(s.next_ack(), Some(1));
    assert_eq!(s.next_ack(), Some(3));
    assert_eq!(s.next_ack(), None);
}

#[test]
fn closed_stream_drains_then_ends() {
    let mut s: BiStream<u8, ()> = BiStream::new();
    s.push_item(1);
    s.close();
    assert!(!s.is_open());
    s.push_item(2);
    s.send_ack(());
    assert_eq!(s.next_item(), StreamNext::Item(1));
    assert_eq!(s.next_item(), StreamNext::EndOfStream);
    assert_eq!(s.next_ack(), None);
}
