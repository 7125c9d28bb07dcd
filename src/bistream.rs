//! A bidirectional stream carried by one channel: the serving side emits
//! items, the subscribing side sends acknowledgements back.
use crate::codec::StreamPart;
use vstd::prelude::*;

verus! {

/// State of one bidirectional stream.
pub struct BiStream<I, A> {
    items: Vec<I>,
    acks: Vec<A>,
    open: bool,
}

/// Mathematical value of a [`BiStream`].
pub ghost struct BiStreamModel<I, A> {
    /// Items emitted and not yet read by the subscriber, oldest first.
    pub items: Seq<I>,
    /// Acknowledgements sent and not yet read by the serving side.
    pub acks: Seq<A>,
    /// Neither side has ended the stream.
    pub open: bool,
}

/// What the subscriber gets when it asks for the next item.
#[derive(Debug, PartialEq, Eq)]
pub enum StreamNext<I> {
    Item(I),
    /// Nothing queued yet; the stream is still open.
    Pending,
    /// The stream has ended and every item has been read.
    EndOfStream,
}

/// One action of either side of an open stream.
pub ghost enum StreamAction<I, A> {
    Emit(I),
    Ack(A),
}

impl<I, A> View for BiStream<I, A> {
    type V = BiStreamModel<I, A>;

    closed spec fn view(&self) -> BiStreamModel<I, A> {
        BiStreamModel { items: self.items@, acks: self.acks@, open: self.open }
    }
}

impl<I, A> BiStreamModel<I, A> {
    /// State after the serving side emits `item`.
    pub open spec fn emit(self, item: I) -> Self {
        if self.open {
            BiStreamModel { items: self.items.push(item), ..self }
        } else {
            self
        }
    }

    /// State after the subscriber sends `ack`.
    pub open spec fn ack(self, ack: A) -> Self {
        if self.open {
            BiStreamModel { acks: self.acks.push(ack), ..self }
        } else {
            self
        }
    }

    /// State after the subscriber asks for the next item, and the answer.
    pub open spec fn next(self) -> (Self, StreamNext<I>) {
        if self.items.len() > 0 {
            (BiStreamModel { items: self.items.drop_first(), ..self }, StreamNext::Item(self.items[0]))
        } else if self.open {
            (self, StreamNext::Pending)
        } else {
            (self, StreamNext::EndOfStream)
        }
    }

    /// State after the actions `acts`, in order.
    pub open spec fn run(self, acts: Seq<StreamAction<I, A>>) -> Self
        decreases acts.len(),
    {
        if acts.len() == 0 {
            self
        } else {
            let s = match acts[0] {
                StreamAction::Emit(i) => self.emit(i),
                StreamAction::Ack(a) => self.ack(a),
            };
            s.run(acts.drop_first())
        }
    }

    /// The items that repeated reads return before the first answer that is
    /// not an item.
    pub open spec fn read_all(self) -> Seq<I>
        decreases self.items.len(),
    {
        if self.items.len() > 0 {
            seq![self.items[0]] + self.next().0.read_all()
        } else {
            Seq::empty()
        }
    }
}

/// The items among `acts`, in order.
pub open spec fn emitted<I, A>(acts: Seq<StreamAction<I, A>>) -> Seq<I>
    decreases acts.len(),
{
    if acts.len() == 0 {
        Seq::empty()
    } else {
        match acts[0] {
            StreamAction::Emit(i) => seq![i] + emitted(acts.drop_first()),
            StreamAction::Ack(_) => emitted(acts.drop_first()),
        }
    }
}

/// However acknowledgements interleave with the items of an open stream,
/// the subscriber reads every item, in the order it was emitted.
pub proof fn lemma_items_in_emission_order<I, A>(s: BiStreamModel<I, A>, acts: Seq<StreamAction<I, A>>)
    requires
        s.open,
        s.items.len() == 0,
    ensures
        s.run(acts).read_all() == emitted(acts),
{
    lemma_run_items(s, acts);
    lemma_read_all(s.run(acts));
    assert(s.items + emitted(acts) =~= emitted(acts));
}

proof fn lemma_run_items<I, A>(s: BiStreamModel<I, A>, acts: Seq<StreamAction<I, A>>)
    requires
        s.open,
    ensures
        s.run(acts).items == s.items + emitted(acts),
        s.run(acts).open,
    decreases acts.len(),
{
    if acts.len() > 0 {
        let t = match acts[0] {
            StreamAction::Emit(i) => s.emit(i),
            StreamAction::Ack(a) => s.ack(a),
        };
        lemma_run_items(t, acts.drop_first());
        match acts[0] {
            StreamAction::Emit(i) => {
                assert(s.items.push(i) + emitted(acts.drop_first()) =~= s.items + emitted(acts));
            },
            StreamAction::Ack(_) => {},
        }
    } else {
        assert(s.items + Seq::<I>::empty() =~= s.items);
    }
}

proof fn lemma_read_all<I, A>(s: BiStreamModel<I, A>)
    ensures
        s.read_all() == s.items,
    decreases s.items.len(),
{
    if s.items.len() > 0 {
        lemma_read_all(s.next().0);
        assert(seq![s.items[0]] + s.items.drop_first() =~= s.items);
    } else {
        assert(s.items =~= Seq::<I>::empty());
    }
}

impl<I, A> BiStream<I, A> {
    /// An open stream with nothing queued either way.
    pub fn new() -> (r: Self)
        ensures
            r@.items.len() == 0,
            r@.acks.len() == 0,
            r@.open,
    {
        BiStream { items: Vec::new(), acks: Vec::new(), open: true }
    }

    /// Emits an item; after the stream ended this does nothing.
    pub fn push_item(&mut self, item: I)
        ensures
            final(self)@ == old(self)@.emit(item),
    {
        if self.open {
            self.items.push(item);
        }
    }

    /// Sends an acknowledgement; after the stream ended this does nothing.
    pub fn send_ack(&mut self, ack: A)
        ensures
            final(self)@ == old(self)@.ack(ack),
    {
        if self.open {
            self.acks.push(ack);
        }
    }

    /// The oldest item not yet read; `Pending` while the open stream has
    /// none, `EndOfStream` once it ended and every item was read.
    pub fn next_item(&mut self) -> (r: StreamNext<I>)
        ensures
            (final(self)@, r) == old(self)@.next(),
    {
        if self.items.len() > 0 {
            let ghost old_items = self.items@;
            let item = self.items.remove(0);
            assert(self.items@ =~= old_items.drop_first());
            StreamNext::Item(item)
        } else if self.open {
            StreamNext::Pending
        } else {
            StreamNext::EndOfStream
        }
    }

    /// The oldest acknowledgement not yet read by the serving side.
    pub fn next_ack(&mut self) -> (r: Option<A>)
        ensures
            old(self)@.acks.len() > 0 ==> r == Some(old(self)@.acks[0])
                && final(self)@ == (BiStreamModel { acks: old(self)@.acks.drop_first(), ..old(self)@ }),
            old(self)@.acks.len() == 0 ==> r.is_none() && final(self)@ == old(self)@,
    {
        if self.acks.len() > 0 {
            let ghost old_acks = self.acks@;
            let ack = self.acks.remove(0);
            assert(self.acks@ =~= old_acks.drop_first());
            Some(ack)
        } else {
            None
        }
    }

    /// Ends the stream, from either side or because its channel closed;
    /// items already emitted can still be read.
    pub fn close(&mut self)
        ensures
            final(self)@ == (BiStreamModel { open: false, ..old(self)@ }),
    {
        self.open = false;
    }

    /// Whether neither side has ended the stream.
    pub fn is_open(&self) -> (r: bool)
        ensures
            r == self@.open,
    {
        self.open
    }
}

impl BiStreamModel<Vec<u8>, Vec<u8>> {
    /// State after a stream part arrives from the channel: an item joins
    /// the items, an acknowledgement the acknowledgements.
    pub open spec fn take(self, part: StreamPart) -> Self {
        match part {
            StreamPart::Item(b) => self.emit(b),
            StreamPart::Ack(b) => self.ack(b),
        }
    }
}

impl BiStream<Vec<u8>, Vec<u8>> {
    /// Takes in a stream part that arrived on the stream's channel.
    pub fn take_part(&mut self, part: StreamPart)
        ensures
            final(self)@ == old(self)@.take(part),
    {
        match part {
            StreamPart::Item(b) => self.push_item(b),
            StreamPart::Ack(b) => self.send_ack(b),
        }
    }
}

} // verus!
