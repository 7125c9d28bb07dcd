//! The buffers shared between a callback-driven socket and the session that
//! pulls incoming frames from it and pushes outgoing frames into it.
use crate::codec::byte_views;
use vstd::prelude::*;

verus! {

/// Buffers of a transport bridge; `W` is the suspension handle of a task
/// parked on an empty inbound queue.
pub struct Buffers<W> {
    tx: Vec<Vec<u8>>,
    rx: Vec<Vec<u8>>,
    wakers: Vec<W>,
    ready: bool,
    closed: bool,
}

/// Mathematical value of [`Buffers`].
pub ghost struct BuffersModel<W> {
    /// Buffers waiting to be sent, oldest first.
    pub outbound: Seq<Seq<u8>>,
    /// Buffers received and not yet polled, oldest first.
    pub inbound: Seq<Seq<u8>>,
    /// Suspension handles of tasks waiting for an inbound buffer.
    pub parked: Seq<W>,
    /// The socket has reported that it is open.
    pub ready: bool,
    /// The socket has failed; no more buffers will arrive.
    pub closed: bool,
}

/// Outcome of polling for the next inbound buffer.
#[derive(Debug, PartialEq, Eq)]
pub enum Incoming {
    Ready(Vec<u8>),
    Pending,
    Closed,
}

pub ghost enum IncomingModel {
    Ready(Seq<u8>),
    Pending,
    Closed,
}

impl View for Incoming {
    type V = IncomingModel;

    open spec fn view(&self) -> IncomingModel {
        match self {
            Incoming::Ready(b) => IncomingModel::Ready(b@),
            Incoming::Pending => IncomingModel::Pending,
            Incoming::Closed => IncomingModel::Closed,
        }
    }
}

/// An event reported by the socket.
#[derive(Debug, PartialEq, Eq)]
pub enum SocketEvent {
    /// The connection is open; outgoing buffers may be sent.
    Opened,
    /// A binary message arrived.
    Binary(Vec<u8>),
    /// A message of another kind arrived (text, ping, pong); the bridge ignores it.
    NonBinary,
    /// The connection failed.
    Error(String),
    /// The connection was closed.
    Closed,
}

impl<W> View for Buffers<W> {
    type V = BuffersModel<W>;

    closed spec fn view(&self) -> BuffersModel<W> {
        BuffersModel {
            outbound: byte_views(self.tx@),
            inbound: byte_views(self.rx@),
            parked: self.wakers@,
            ready: self.ready,
            closed: self.closed,
        }
    }
}

impl<W> BuffersModel<W> {
    /// No task waits while a buffer is available, and none waits on a
    /// failed socket.
    pub open spec fn wf(self) -> bool {
        &&& self.inbound.len() > 0 ==> self.parked.len() == 0
        &&& self.closed ==> self.parked.len() == 0
    }

    /// State after a buffer arrives, and the handles to resume: every task
    /// that was parked.
    pub open spec fn arrive(self, b: Seq<u8>) -> (Self, Seq<W>) {
        (BuffersModel { inbound: self.inbound.push(b), parked: Seq::empty(), ..self }, self.parked)
    }

    /// State after a poll by a task with handle `w`, and the outcome.
    pub open spec fn poll(self, w: W) -> (Self, IncomingModel) {
        if self.inbound.len() > 0 {
            (BuffersModel { inbound: self.inbound.drop_first(), ..self }, IncomingModel::Ready(self.inbound[0]))
        } else if self.closed {
            (self, IncomingModel::Closed)
        } else {
            (BuffersModel { parked: self.parked.push(w), ..self }, IncomingModel::Pending)
        }
    }

    /// State after the socket fails, and the handles to resume.
    pub open spec fn fail(self) -> (Self, Seq<W>) {
        (BuffersModel { closed: true, parked: Seq::empty(), ..self }, self.parked)
    }

    /// State after the socket reports `ev`, and the handles to resume.
    pub open spec fn on_event(self, ev: SocketEvent) -> (Self, Seq<W>) {
        match ev {
            SocketEvent::Opened => (BuffersModel { ready: true, ..self }, Seq::empty()),
            SocketEvent::Binary(b) => self.arrive(b@),
            SocketEvent::NonBinary => (self, Seq::empty()),
            SocketEvent::Error(_) => self.fail(),
            SocketEvent::Closed => self.fail(),
        }
    }

    /// State after the events `evs`, applied in order, and every handle
    /// they released, in order.
    pub open spec fn on_events(self, evs: Seq<SocketEvent>) -> (Self, Seq<W>)
        decreases evs.len(),
    {
        if evs.len() == 0 {
            (self, Seq::empty())
        } else {
            let (s1, w1) = self.on_event(evs[0]);
            let (s2, w2) = s1.on_events(evs.drop_first());
            (s2, w1 + w2)
        }
    }

    /// State after `bufs` arrive one by one, and all handles resumed on the way.
    pub open spec fn arrive_all(self, bufs: Seq<Seq<u8>>) -> (Self, Seq<W>)
        decreases bufs.len(),
    {
        if bufs.len() == 0 {
            (self, Seq::empty())
        } else {
            let (s1, woken1) = self.arrive(bufs[0]);
            let (s2, woken2) = s1.arrive_all(bufs.drop_first());
            (s2, woken1 + woken2)
        }
    }

    /// The buffers that repeated polls by a task with handle `w` return
    /// before the first poll that is not `Ready`.
    pub open spec fn poll_until_empty(self, w: W) -> Seq<Seq<u8>>
        decreases self.inbound.len(),
    {
        if self.inbound.len() > 0 {
            seq![self.inbound[0]] + self.poll(w).0.poll_until_empty(w)
        } else {
            Seq::empty()
        }
    }
}

/// Once any number (one or more) of buffers arrive, every task that was parked is
/// resumed exactly once, no task is left parked, and polling then hands out
/// every buffer, the earlier queued ones first, each in arrival order.
pub proof fn lemma_no_lost_wakeup<W>(s: BuffersModel<W>, bufs: Seq<Seq<u8>>, w: W)
    requires
        s.wf(),
        bufs.len() >= 1,
    ensures
        s.arrive_all(bufs).1 == s.parked,
        s.arrive_all(bufs).0.parked.len() == 0,
        s.arrive_all(bufs).0.wf(),
        s.arrive_all(bufs).0.poll_until_empty(w) == s.inbound + bufs,
    decreases bufs.len(),
{
    let (s1, woken1) = s.arrive(bufs[0]);
    let rest = bufs.drop_first();
    if rest.len() == 0 {
        assert(s.arrive_all(bufs).0 == s1.arrive_all(rest).0);
        assert(woken1 + Seq::<W>::empty() =~= woken1);
        assert(s1.inbound =~= s.inbound + bufs);
    } else {
        lemma_no_lost_wakeup(s1, rest, w);
        assert(s1.parked =~= Seq::<W>::empty());
        assert(woken1 + s1.parked =~= woken1);
        assert(s1.inbound + rest =~= s.inbound + bufs);
    }
    lemma_poll_until_empty(s.arrive_all(bufs).0, w);
}

/// Whatever events arrive, the outbound queue is untouched, the inbound
/// queue only grows at its end, an open or failed socket stays so, and
/// well-formedness is kept.
pub proof fn lemma_events_monotone<W>(s: BuffersModel<W>, evs: Seq<SocketEvent>)
    requires
        s.wf(),
    ensures
        s.on_events(evs).0.wf(),
        s.on_events(evs).0.outbound == s.outbound,
        s.inbound.is_prefix_of(s.on_events(evs).0.inbound),
        s.ready ==> s.on_events(evs).0.ready,
        s.closed ==> s.on_events(evs).0.closed,
    decreases evs.len(),
{
    if evs.len() > 0 {
        let s1 = s.on_event(evs[0]).0;
        assert(s.inbound.is_prefix_of(s1.inbound)) by {
            if let SocketEvent::Binary(b) = evs[0] {
                assert(s1.inbound =~= s.inbound.push(b@));
            }
        }
        lemma_events_monotone(s1, evs.drop_first());
    }
}

/// Polling until the queue is empty yields exactly the inbound queue, in order.
pub proof fn lemma_poll_until_empty<W>(s: BuffersModel<W>, w: W)
    ensures
        s.poll_until_empty(w) == s.inbound,
    decreases s.inbound.len(),
{
    if s.inbound.len() > 0 {
        lemma_poll_until_empty(s.poll(w).0, w);
        assert(seq![s.inbound[0]] + s.inbound.drop_first() =~= s.inbound);
    } else {
        assert(s.inbound =~= Seq::<Seq<u8>>::empty());
    }
}

impl<W> Buffers<W> {
    /// Empty buffers of a socket that has not opened yet.
    pub fn new() -> (r: Self)
        ensures
            r@.outbound.len() == 0,
            r@.inbound.len() == 0,
            r@.parked.len() == 0,
            !r@.ready,
            !r@.closed,
    {
        Buffers { tx: Vec::new(), rx: Vec::new(), wakers: Vec::new(), ready: false, closed: false }
    }

    /// Queues a received buffer and hands back the handles of every parked
    /// task, to be resumed once each.
    pub fn push_inbound(&mut self, b: Vec<u8>) -> (woken: Vec<W>)
        requires
            old(self)@.wf(),
        ensures
            final(self)@ == old(self)@.arrive(b@).0,
            woken@ == old(self)@.arrive(b@).1,
            final(self)@.wf(),
    {
        let ghost old_rx = byte_views(self.rx@);
        self.rx.push(b);
        assert(byte_views(self.rx@) =~= old_rx.push(b@));
        let mut woken: Vec<W> = Vec::new();
        std::mem::swap(&mut woken, &mut self.wakers);
        woken
    }

    /// Takes the oldest inbound buffer; on an empty queue parks `waker`
    /// unless the socket has failed.
    pub fn poll_incoming(&mut self, waker: W) -> (r: Incoming)
        requires
            old(self)@.wf(),
        ensures
            final(self)@ == old(self)@.poll(waker).0,
            r@ == old(self)@.poll(waker).1,
            final(self)@.wf(),
    {
        if self.rx.len() > 0 {
            let ghost old_rx = byte_views(self.rx@);
            let b = self.rx.remove(0);
            assert(byte_views(self.rx@) =~= old_rx.drop_first());
            Incoming::Ready(b)
        } else if self.closed {
            Incoming::Closed
        } else {
            self.wakers.push(waker);
            Incoming::Pending
        }
    }

    /// How many inbound buffers are queued.
    pub fn inbound_len(&self) -> (r: usize)
        ensures
            r == self@.inbound.len(),
    {
        self.rx.len()
    }

    /// Takes the oldest inbound buffer, if any, without parking anyone.
    pub fn take_inbound(&mut self) -> (r: Option<Vec<u8>>)
        requires
            old(self)@.wf(),
        ensures
            old(self)@.inbound.len() > 0 ==> r is Some && r->Some_0@ == old(self)@.inbound[0]
                && final(self)@ == (BuffersModel { inbound: old(self)@.inbound.drop_first(), ..old(self)@ }),
            old(self)@.inbound.len() == 0 ==> r is None && final(self)@ == old(self)@,
            final(self)@.wf(),
    {
        if self.rx.len() > 0 {
            let ghost old_rx = byte_views(self.rx@);
            let b = self.rx.remove(0);
            assert(byte_views(self.rx@) =~= old_rx.drop_first());
            Some(b)
        } else {
            None
        }
    }

    /// Queues a buffer to be sent once the socket is open.
    pub fn enqueue_outgoing(&mut self, b: Vec<u8>)
        ensures
            final(self)@ == (BuffersModel { outbound: old(self)@.outbound.push(b@), ..old(self)@ }),
    {
        let ghost old_tx = byte_views(self.tx@);
        self.tx.push(b);
        assert(byte_views(self.tx@) =~= old_tx.push(b@));
    }

    /// Records that the socket has opened.
    pub fn mark_open(&mut self)
        ensures
            final(self)@ == (BuffersModel { ready: true, ..old(self)@ }),
    {
        self.ready = true;
    }

    /// Whether the socket has opened.
    pub fn is_ready(&self) -> (r: bool)
        ensures
            r == self@.ready,
    {
        self.ready
    }

    /// Whether the socket has failed.
    pub fn is_closed(&self) -> (r: bool)
        ensures
            r == self@.closed,
    {
        self.closed
    }

    /// Once the socket is open, takes every queued outbound buffer, oldest
    /// first; before that, takes nothing.
    pub fn take_outgoing(&mut self) -> (r: Vec<Vec<u8>>)
        ensures
            old(self)@.ready ==> byte_views(r@) == old(self)@.outbound
                && final(self)@ == (BuffersModel { outbound: Seq::empty(), ..old(self)@ }),
            !old(self)@.ready ==> byte_views(r@).len() == 0 && final(self)@ == old(self)@,
    {
        let mut out: Vec<Vec<u8>> = Vec::new();
        if self.ready {
            std::mem::swap(&mut out, &mut self.tx);
            assert(byte_views(self.tx@) =~= Seq::<Seq<u8>>::empty());
        }
        out
    }

    /// Applies one socket event: an opening marks the socket ready, a
    /// binary message is queued, an error or a close fails the bridge, and
    /// any other message is ignored. Hands back the handles to resume.
    pub fn apply_event(&mut self, ev: SocketEvent) -> (woken: Vec<W>)
        requires
            old(self)@.wf(),
        ensures
            final(self)@ == old(self)@.on_event(ev).0,
            woken@ == old(self)@.on_event(ev).1,
            final(self)@.wf(),
    {
        match ev {
            SocketEvent::Opened => {
                self.mark_open();
                Vec::new()
            },
            SocketEvent::Binary(b) => self.push_inbound(b),
            SocketEvent::NonBinary => Vec::new(),
            SocketEvent::Error(_) => self.fail(),
            SocketEvent::Closed => self.fail(),
        }
    }

    /// Applies the events `evs` in order and hands back the handles they
    /// release, each once.
    pub fn apply_events(&mut self, evs: Vec<SocketEvent>) -> (woken: Vec<W>)
        requires
            old(self)@.wf(),
        ensures
            final(self)@ == old(self)@.on_events(evs@).0,
            woken@ == old(self)@.on_events(evs@).1,
            final(self)@.wf(),
    {
        let ghost orig = evs@;
        let ghost start = self@;
        let mut rest = evs;
        let mut woken: Vec<W> = Vec::new();
        while rest.len() > 0
            invariant
                rest@.len() <= orig.len(),
                rest@ == orig.subrange(orig.len() - rest@.len(), orig.len() as int),
                self@.wf(),
                start.on_events(orig) == (self@.on_events(rest@).0, woken@ + self@.on_events(rest@).1),
            decreases rest.len(),
        {
            let ghost before = self@;
            let ghost k = orig.len() - rest@.len();
            let ev = rest.remove(0);
            assert(ev == orig[k]);
            let ghost r0 = rest@;
            let mut w = self.apply_event(ev);
            assert(r0 =~= orig.subrange(k + 1, orig.len() as int));
            assert(before.on_events(r0.insert(0, ev)) == before.on_events(seq![ev] + r0)) by {
                assert(r0.insert(0, ev) =~= seq![ev] + r0);
            }
            assert((seq![ev] + r0).drop_first() =~= r0);
            assert(orig.subrange(k, orig.len() as int) =~= seq![ev] + r0);
            let ghost w_old = woken@;
            woken.append(&mut w);
            assert(w_old + (before.on_event(ev).1 + self@.on_events(r0).1) =~= woken@ + self@.on_events(r0).1);
        }
        assert(self@.on_events(rest@).1 =~= Seq::<W>::empty());
        assert(woken@ + Seq::<W>::empty() =~= woken@);
        woken
    }

    /// Records that the socket failed and hands back every parked handle,
    /// to be resumed once each.
    pub fn fail(&mut self) -> (woken: Vec<W>)
        requires
            old(self)@.wf(),
        ensures
            final(self)@ == old(self)@.fail().0,
            woken@ == old(self)@.fail().1,
            final(self)@.wf(),
    {
        self.closed = true;
        let mut woken: Vec<W> = Vec::new();
        std::mem::swap(&mut woken, &mut self.wakers);
        woken
    }
}

} // verus!
