//! A transport bridge over an `ewebsock` WebSocket: [`Sock`] owns the
//! buffers that the session polls and feeds, [`Remote`] owns the socket and
//! is pumped once per tick against a `Sock`'s buffers. Sharing a `Sock`
//! between tasks is left to the caller's lock.
use crate::bridge::{Buffers, BuffersModel, Incoming, SocketEvent};
use crate::codec::byte_views;
use crate::session::{receive_all, Session, SessionModel};
use ewebsock::{WsEvent, WsMessage, WsReceiver, WsSender};
use std::task::Waker;
use vstd::prelude::*;

verus! {

/// `std::task::Waker`, held opaquely: the handle of a parked task.
#[verifier::external_type_specification]
#[verifier::external_body]
pub struct ExWaker(std::task::Waker);

/// `ewebsock::WsSender`, held opaquely: the sending half of a WebSocket.
#[verifier::external_type_specification]
#[verifier::external_body]
pub struct ExWsSender(ewebsock::WsSender);

/// `ewebsock::WsReceiver`, held opaquely: the event queue of a WebSocket.
#[verifier::external_type_specification]
#[verifier::external_body]
pub struct ExWsReceiver(ewebsock::WsReceiver);

/// Relies on `std::task::Waker::wake`: schedules the parked task to be polled again.
#[verifier::external_body]
fn wake(w: Waker) {
    w.wake()
}

/// Relies on `ewebsock::WsReceiver::try_recv`, which returns the events the
/// socket has queued, without blocking; each is converted variant for variant.
#[verifier::external_body]
fn drain_events(rx: &WsReceiver) -> Vec<SocketEvent> {
    let mut out = Vec::new();
    while let Some(event) = rx.try_recv() {
        out.push(match event {
            WsEvent::Opened => SocketEvent::Opened,
            WsEvent::Message(WsMessage::Binary(b)) => SocketEvent::Binary(b),
            WsEvent::Message(_) => SocketEvent::NonBinary,
            WsEvent::Error(e) => SocketEvent::Error(e),
            WsEvent::Closed => SocketEvent::Closed,
        });
    }
    out
}

/// Relies on `ewebsock::WsSender::send`: hands one binary message to the socket.
#[verifier::external_body]
fn send_binary(tx: &mut WsSender, msg: Vec<u8>) {
    tx.send(WsMessage::Binary(msg))
}

/// The session's side of the bridge: a stream of incoming buffers and a sink
/// of outgoing ones.
pub struct Sock {
    buf: Buffers<Waker>,
}

/// The socket's side of the bridge.
pub struct Remote {
    ws_tx: WsSender,
    ws_rx: WsReceiver,
}

impl Sock {
    /// No task waits while a buffer is queued, and none waits on a failed
    /// socket.
    #[verifier::type_invariant]
    spec fn buffers_wf(self) -> bool {
        self.buf@.wf()
    }

    /// Takes the buffers out for a mutation, leaving empty ones in place.
    fn take_buffers(&mut self) -> (r: Buffers<Waker>)
        ensures
            r@ == old(self)@,
            r@.wf(),
    {
        proof {
            use_type_invariant(&*self);
        }
        let mut b = Buffers::new();
        std::mem::swap(&mut b, &mut self.buf);
        b
    }
}

impl View for Sock {
    type V = BuffersModel<Waker>;

    closed spec fn view(&self) -> BuffersModel<Waker> {
        self.buf@
    }
}

/// Resumes every handle in `woken`, once each.
fn wake_all(woken: Vec<Waker>) {
    let mut woken = woken;
    while woken.len() > 0
        decreases woken.len(),
    {
        let w = woken.pop().unwrap();
        wake(w);
    }
}

/// Splits a WebSocket into the two sides of a bridge; the buffers start
/// empty, with the socket not yet open.
pub fn connect(ws: (WsSender, WsReceiver)) -> (r: (Sock, Remote))
    ensures
        r.0@.outbound.len() == 0,
        r.0@.inbound.len() == 0,
        r.0@.parked.len() == 0,
        !r.0@.ready,
        !r.0@.closed,
        r.0@.wf(),
{
    let (ws_tx, ws_rx) = ws;
    (Sock { buf: Buffers::new() }, Remote { ws_tx, ws_rx })
}

impl Sock {
    /// Takes the oldest incoming buffer; if none is queued, parks `waker`
    /// to be resumed when one arrives, or reports that the socket failed.
    pub fn poll_next(&mut self, waker: Waker) -> (r: Incoming)
        ensures
            (final(self)@, r@) == old(self)@.poll(waker),
            old(self)@.wf(),
            final(self)@.wf(),
    {
        let mut b = self.take_buffers();
        let r = b.poll_incoming(waker);
        self.buf = b;
        r
    }

    /// Takes the oldest incoming buffer, if any, without parking anyone.
    pub fn try_next(&mut self) -> (r: Option<Vec<u8>>)
        ensures
            old(self)@.inbound.len() > 0 ==> r is Some && r->Some_0@ == old(self)@.inbound[0]
                && final(self)@ == (BuffersModel { inbound: old(self)@.inbound.drop_first(), ..old(self)@ }),
            old(self)@.inbound.len() == 0 ==> r is None && final(self)@ == old(self)@,
            final(self)@.wf(),
    {
        let mut b = self.take_buffers();
        let r = b.take_inbound();
        self.buf = b;
        r
    }

    /// Whether the socket has failed.
    pub fn is_closed(&self) -> (r: bool)
        ensures
            r == self@.closed,
    {
        self.buf.is_closed()
    }

    /// How many incoming buffers are queued.
    pub fn pending_len(&self) -> (r: usize)
        ensures
            r == self@.inbound.len(),
    {
        self.buf.inbound_len()
    }

    /// Queues an outgoing buffer; it is sent once the socket is open.
    pub fn start_send(&mut self, item: Vec<u8>)
        ensures
            final(self)@ == (BuffersModel { outbound: old(self)@.outbound.push(item@), ..old(self)@ }),
    {
        let mut b = self.take_buffers();
        b.enqueue_outgoing(item);
        self.buf = b;
    }
}

impl Remote {
    /// Applies every event the socket has queued, in order, to `sock`'s
    /// buffers, and resumes each task that an arrival or a failure
    /// releases, once.
    pub fn receive(&mut self, sock: &mut Sock)
        ensures
            exists|evs: Seq<SocketEvent>| final(sock)@ == #[trigger] old(sock)@.on_events(evs).0,
            final(sock)@.wf(),
            final(sock)@.outbound == old(sock)@.outbound,
            old(sock)@.inbound.is_prefix_of(final(sock)@.inbound),
            old(sock)@.ready ==> final(sock)@.ready,
            old(sock)@.closed ==> final(sock)@.closed,
    {
        let events = drain_events(&self.ws_rx);
        let ghost evs = events@;
        let mut b = sock.take_buffers();
        proof {
            crate::bridge::lemma_events_monotone(b@, evs);
        }
        let woken = b.apply_events(events);
        sock.buf = b;
        wake_all(woken);
    }

    /// Once the socket is open, hands every queued outgoing buffer to it,
    /// in the order they were queued, and empties the queue; before that,
    /// sends nothing and changes nothing.
    pub fn send(&mut self, sock: &mut Sock)
        ensures
            old(sock)@.ready ==> final(sock)@ == (BuffersModel { outbound: Seq::empty(), ..old(sock)@ }),
            !old(sock)@.ready ==> final(sock)@ == old(sock)@,
    {
        let mut b = sock.take_buffers();
        let mut out = b.take_outgoing();
        sock.buf = b;
        while out.len() > 0
            decreases out.len(),
        {
            let msg = out.remove(0);
            send_binary(&mut self.ws_tx, msg);
        }
    }
}

/// The session after it takes in the buffers queued on `sock`, and, if the
/// socket failed, loses its connection.
pub open spec fn exchanged<W>(session: SessionModel<W>, sock: BuffersModel<Waker>) -> SessionModel<W> {
    let s = receive_all(session, sock.inbound);
    if sock.closed {
        s.lose_transport().0
    } else {
        s
    }
}

/// Moves traffic between a bridge and the session it carries: every
/// queued inbound buffer goes to the session, in arrival order, and the
/// tasks it releases are resumed; a frame's error stays with that frame.
/// If the socket has failed, the session then loses its connection and
/// every task waiting on it is resumed. Last, every frame the session
/// queued goes to the bridge, in order.
pub fn exchange(sock: &mut Sock, session: &mut Session<Waker>)
    requires
        old(session)@.wf(),
    ensures
        final(session)@ == (SessionModel { outgoing: Seq::empty(), ..exchanged(old(session)@, old(sock)@) }),
        final(sock)@ == (BuffersModel {
            inbound: Seq::empty(),
            outbound: old(sock)@.outbound + exchanged(old(session)@, old(sock)@).outgoing,
            ..old(sock)@
        }),
        final(session)@.wf(),
        final(sock)@.wf(),
{
    let ghost frames = sock@.inbound;
    let ghost start = session@;
    let ghost sock0 = sock@;
    proof {
        use_type_invariant(&*sock);
    }
    while sock.pending_len() > 0
        invariant
            sock@.wf(),
            session@.wf(),
            frames.len() >= sock@.inbound.len(),
            sock@.inbound == frames.subrange(frames.len() - sock@.inbound.len(), frames.len() as int),
            sock@ == (BuffersModel { inbound: sock@.inbound, ..sock0 }),
            receive_all(start, frames) == receive_all(session@, sock@.inbound),
        decreases sock@.inbound.len(),
    {
        let ghost before = sock@.inbound;
        let b = sock.try_next().unwrap();
        assert(before.drop_first() =~= sock@.inbound);
        assert(sock@.inbound =~= frames.subrange(frames.len() - sock@.inbound.len(), frames.len() as int));
        if let Ok(woken) = session.receive_frame(b.as_slice()) {
            wake_all(woken);
        }
    }
    assert(sock@ == (BuffersModel { inbound: Seq::empty(), ..sock0 })) by {
        assert(sock@.inbound =~= Seq::<Seq<u8>>::empty());
    }
    assert(session@ == receive_all(start, frames));
    if sock.is_closed() {
        let woken = session.transport_lost();
        wake_all(woken);
    }
    assert(session@ == exchanged(start, sock0));
    let mut out = session.take_outgoing();
    let ghost sent = byte_views(out@);
    while out.len() > 0
        invariant
            sock@.wf(),
            out@.len() <= sent.len(),
            byte_views(out@) == sent.subrange(sent.len() - out@.len(), sent.len() as int),
            sock@ == (BuffersModel {
                inbound: Seq::empty(),
                outbound: sock0.outbound + sent.subrange(0, sent.len() - out@.len()),
                ..sock0
            }),
        decreases out.len(),
    {
        let ghost k = sent.len() - out@.len();
        let ghost out0 = out@;
        let msg = out.remove(0);
        assert(msg@ == sent[k]) by {
            assert(byte_views(out0)[0] == msg@);
        }
        sock.start_send(msg);
        assert(byte_views(out@) =~= sent.subrange(k + 1, sent.len() as int)) by {
            assert(out@ =~= out0.drop_first());
            assert(byte_views(out0.drop_first()) =~= byte_views(out0).drop_first());
            assert(sent.subrange(k, sent.len() as int).drop_first() =~= sent.subrange(k + 1, sent.len() as int));
        }
        assert(sock0.outbound + sent.subrange(0, k + 1) =~= (sock0.outbound + sent.subrange(0, k)).push(sent[k]));
    }
    assert(sent.subrange(0, sent.len() as int) =~= sent);
}

} // verus!
