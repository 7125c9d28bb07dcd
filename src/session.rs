//! The session of one connection: it assigns channel identifiers, routes
//! inbound frames to the channel they name, queues outbound frames, and
//! runs the handshake by which a sub-channel token is minted and redeemed.
use crate::bistream::{BiStream, BiStreamModel};
use crate::codec::{
    byte_views, decode, decode_part, encode, encode_part, spec_decode, spec_decode_part, spec_encode, spec_encode_part,
    DecodeError, Message, MessageModel, StreamPart,
};
use std::collections::{HashMap, HashSet};
use vstd::prelude::*;

verus! {

broadcast use vstd::std_specs::hash::group_hash_axioms;

/// The channel that is open for the whole life of an active session.
pub const ROOT_CHANNEL: u64 = 0;

/// Life cycle of a session.
#[derive(Clone, Copy, Debug, PartialEq, Eq, Structural)]
pub enum Phase {
    /// The secure transport is being set up; no channel exists.
    Handshaking,
    /// The root channel is open; sub-channels may be opened.
    Active,
    /// A close was requested; no new channel may be opened, in-flight
    /// traffic is still routed.
    Closing,
    /// Terminal: every channel identifier is invalid.
    Closed,
}

/// Which end of the connection a session is. Each end mints identifiers
/// from its own half of the identifier space: the initiator odd ones, the
/// acceptor even ones above the root channel's.
#[derive(Clone, Copy, Debug, PartialEq, Eq, Structural)]
pub enum Role {
    Initiator,
    Acceptor,
}

/// The remainder modulo 2 of the identifiers that `role` mints.
pub open spec fn parity(role: Role) -> u64 {
    if role == Role::Initiator { 1 } else { 0 }
}

/// Whether a channel has been redeemed yet.
#[derive(Clone, Copy, Debug, PartialEq, Eq, Structural)]
pub enum ChannelState {
    /// Minted for a sub-channel token that has not been redeemed.
    Reserved,
    /// Carrying traffic.
    Open,
}

/// Errors a session reports; none of them tears the session down.
#[derive(Clone, Copy, Debug, PartialEq, Eq, Structural)]
pub enum SessionError {
    /// The underlying connection is gone.
    TransportClosed,
    /// A received buffer is not a frame.
    Malformed,
    /// The frame or call names no channel that can take it.
    UnknownChannel,
    /// The token names a channel that this session itself has reserved.
    ChannelAlreadyReserved,
    /// The token has been redeemed already.
    TokenAlreadyConnected,
    /// The session is not in a phase that allows the operation.
    InvalidPhase,
    /// No channel identifier is left to allocate.
    IdsExhausted,
}

/// A capability to claim one reserved sub-channel; it travels to the peer
/// inside an ordinary response payload.
#[derive(Clone, Copy, Debug, PartialEq, Eq, Structural)]
pub struct SubchannelToken {
    pub channel: u64,
}

/// A task waiting for traffic on a channel.
pub struct Parked<W> {
    pub channel: u64,
    pub waker: W,
}

/// Routing entry of one channel.
struct ChannelEntry {
    state: ChannelState,
    inbound: Vec<Vec<u8>>,
}

/// Mathematical value of a [`ChannelEntry`].
pub ghost struct ChannelModel {
    pub state: ChannelState,
    /// Payloads delivered and not yet read, oldest first.
    pub inbound: Seq<Seq<u8>>,
}

impl View for ChannelEntry {
    type V = ChannelModel;

    closed spec fn view(&self) -> ChannelModel {
        ChannelModel { state: self.state, inbound: byte_views(self.inbound@) }
    }
}

/// The multiplexer of one connection; `W` is the suspension handle of a
/// task parked on a channel.
pub struct Session<W> {
    phase: Phase,
    role: Role,
    next_id: u64,
    redeemed: HashSet<u64>,
    channels: HashMap<u64, ChannelEntry>,
    parked: Vec<Parked<W>>,
    outgoing: Vec<Vec<u8>>,
}

/// Mathematical value of a [`Session`].
pub ghost struct SessionModel<W> {
    pub phase: Phase,
    pub role: Role,
    /// The identifier the next reservation gets.
    pub next_id: u64,
    /// Every peer token this session has redeemed, open or closed since.
    pub redeemed: Set<u64>,
    /// The routing table.
    pub channels: Map<u64, ChannelModel>,
    /// Tasks waiting for traffic, in the order they parked.
    pub parked: Seq<Parked<W>>,
    /// Encoded frames waiting to be handed to the transport, oldest first.
    pub outgoing: Seq<Seq<u8>>,
}

impl<W> View for Session<W> {
    type V = SessionModel<W>;

    closed spec fn view(&self) -> SessionModel<W> {
        SessionModel {
            phase: self.phase,
            role: self.role,
            next_id: self.next_id,
            redeemed: self.redeemed@,
            channels: self.channels@.map_values(|e: ChannelEntry| e@),
            parked: self.parked@,
            outgoing: byte_views(self.outgoing@),
        }
    }
}

/// The handles of the tasks in `ps` that wait on channel `c`, in order.
pub open spec fn wakers_on<W>(ps: Seq<Parked<W>>, c: u64) -> Seq<W>
    decreases ps.len(),
{
    if ps.len() == 0 {
        Seq::empty()
    } else if ps.last().channel == c {
        wakers_on(ps.drop_last(), c).push(ps.last().waker)
    } else {
        wakers_on(ps.drop_last(), c)
    }
}

/// The tasks in `ps` that wait on a channel other than `c`, in order.
pub open spec fn parked_elsewhere<W>(ps: Seq<Parked<W>>, c: u64) -> Seq<Parked<W>> {
    ps.filter(|p: Parked<W>| p.channel != c)
}

/// The error for an operation that the phase `p` does not allow.
pub open spec fn phase_error(p: Phase) -> SessionError {
    if p == Phase::Closed {
        SessionError::TransportClosed
    } else {
        SessionError::InvalidPhase
    }
}

/// Whether traffic on existing channels is routed in phase `p`.
pub open spec fn routes(p: Phase) -> bool {
    p == Phase::Active || p == Phase::Closing
}

/// An empty channel in state `st`.
pub open spec fn fresh(st: ChannelState) -> ChannelModel {
    ChannelModel { state: st, inbound: Seq::empty() }
}

/// The contents of a result that hands back handles to resume.
pub open spec fn woken_view<W>(r: Result<Vec<W>, SessionError>) -> Result<Seq<W>, SessionError> {
    match r {
        Ok(v) => Ok(v@),
        Err(e) => Err(e),
    }
}

/// The contents of the result of a poll.
pub open spec fn polled_view(r: Result<Option<Vec<u8>>, SessionError>) -> Result<Option<Seq<u8>>, SessionError> {
    match r {
        Ok(Some(b)) => Ok(Some(b@)),
        Ok(None) => Ok(None),
        Err(e) => Err(e),
    }
}

impl<W> SessionModel<W> {
    /// Whether this session mints identifier `id`.
    pub open spec fn mints(self, id: u64) -> bool {
        id != ROOT_CHANNEL && id % 2 == parity(self.role)
    }

    pub open spec fn wf(self) -> bool {
        &&& self.next_id >= 1
        &&& self.next_id % 2 == parity(self.role)
        &&& forall|id: u64|
            #[trigger] self.channels.contains_key(id) ==> id == ROOT_CHANNEL || (self.mints(id) && id < self.next_id) || (
            !self.mints(id) && self.redeemed.contains(id))
        &&& self.phase == Phase::Handshaking ==> self.channels.is_empty() && self.parked.len() == 0
        &&& self.phase == Phase::Closed ==> self.channels.is_empty() && self.parked.len() == 0
        &&& forall|i: int|
            0 <= i < self.parked.len() ==> {
                &&& self.channels.contains_key(#[trigger] self.parked[i].channel)
                &&& self.channels[self.parked[i].channel].inbound.len() == 0
            }
    }

    /// Without the tasks parked on `c`.
    pub open spec fn unpark(self, c: u64) -> Self {
        SessionModel { parked: parked_elsewhere(self.parked, c), ..self }
    }

    /// The handshake is done: the root channel opens.
    pub open spec fn open_root(self) -> (Self, Result<u64, SessionError>) {
        if self.phase == Phase::Handshaking {
            (
                SessionModel {
                    phase: Phase::Active,
                    channels: self.channels.insert(ROOT_CHANNEL, fresh(ChannelState::Open)),
                    ..self
                },
                Ok(ROOT_CHANNEL),
            )
        } else {
            (self, Err(phase_error(self.phase)))
        }
    }

    /// A fresh identifier is reserved for a sub-channel.
    pub open spec fn reserve(self) -> (Self, Result<u64, SessionError>) {
        if self.phase != Phase::Active {
            (self, Err(phase_error(self.phase)))
        } else if self.next_id > u64::MAX - 2 {
            (self, Err(SessionError::IdsExhausted))
        } else {
            (
                SessionModel {
                    next_id: (self.next_id + 2) as u64,
                    channels: self.channels.insert(self.next_id, fresh(ChannelState::Reserved)),
                    ..self
                },
                Ok(self.next_id),
            )
        }
    }

    /// The peer's token for channel `c` is redeemed here: the channel opens
    /// and a connect frame is queued for the peer. A token is redeemed at
    /// most once, even after its channel closed; an identifier from this
    /// session's own half is no token of the peer's.
    pub open spec fn redeem(self, c: u64) -> (Self, Result<u64, SessionError>) {
        if self.phase != Phase::Active {
            (self, Err(phase_error(self.phase)))
        } else if c == ROOT_CHANNEL || self.mints(c) {
            if self.channels.contains_key(c) && self.channels[c].state == ChannelState::Reserved {
                (self, Err(SessionError::ChannelAlreadyReserved))
            } else {
                (self, Err(SessionError::UnknownChannel))
            }
        } else if self.redeemed.contains(c) {
            (self, Err(SessionError::TokenAlreadyConnected))
        } else {
            (
                SessionModel {
                    redeemed: self.redeemed.insert(c),
                    channels: self.channels.insert(c, fresh(ChannelState::Open)),
                    outgoing: self.outgoing.push(spec_encode(MessageModel::Connect { channel: c })),
                    ..self
                },
                Ok(c),
            )
        }
    }

    /// The peer redeemed the token of reserved channel `c`: it opens and
    /// the tasks waiting for it resume.
    pub open spec fn accept(self, c: u64) -> (Self, Result<Seq<W>, SessionError>) {
        if self.phase != Phase::Active {
            (self, Err(phase_error(self.phase)))
        } else if !self.channels.contains_key(c) {
            (self, Err(SessionError::UnknownChannel))
        } else if self.channels[c].state == ChannelState::Open {
            (self, Err(SessionError::TokenAlreadyConnected))
        } else {
            (
                SessionModel {
                    channels: self.channels.insert(c, fresh(ChannelState::Open)),
                    ..self.unpark(c)
                },
                Ok(wakers_on(self.parked, c)),
            )
        }
    }

    /// A payload for channel `c` arrived: it joins that channel's queue and
    /// the tasks waiting on that channel resume.
    pub open spec fn deliver(self, c: u64, p: Seq<u8>) -> (Self, Result<Seq<W>, SessionError>) {
        if !routes(self.phase) {
            (self, Err(phase_error(self.phase)))
        } else if !self.channels.contains_key(c) || self.channels[c].state != ChannelState::Open {
            (self, Err(SessionError::UnknownChannel))
        } else {
            (
                SessionModel {
                    channels: self.channels.insert(
                        c,
                        ChannelModel { inbound: self.channels[c].inbound.push(p), ..self.channels[c] },
                    ),
                    ..self.unpark(c)
                },
                Ok(wakers_on(self.parked, c)),
            )
        }
    }

    /// Channel `c` goes away; the tasks waiting on it resume and then find
    /// it unknown.
    pub open spec fn drop_channel(self, c: u64) -> (Self, Result<Seq<W>, SessionError>) {
        if !routes(self.phase) {
            (self, Err(phase_error(self.phase)))
        } else if !self.channels.contains_key(c) {
            (self, Err(SessionError::UnknownChannel))
        } else {
            (
                SessionModel { channels: self.channels.remove(c), ..self.unpark(c) },
                Ok(wakers_on(self.parked, c)),
            )
        }
    }

    /// Channel `c` is closed here; if it was open, the peer is told.
    pub open spec fn close(self, c: u64) -> (Self, Result<Seq<W>, SessionError>) {
        let (s, r) = self.drop_channel(c);
        if r is Ok && self.channels[c].state == ChannelState::Open {
            (SessionModel { outgoing: s.outgoing.push(spec_encode(MessageModel::Close { channel: c })), ..s }, r)
        } else {
            (s, r)
        }
    }

    /// Effect of one received buffer.
    pub open spec fn receive(self, b: Seq<u8>) -> (Self, Result<Seq<W>, SessionError>) {
        match spec_decode(b) {
            None => (self, Err(SessionError::Malformed)),
            Some(MessageModel::Data { channel, payload }) => self.deliver(channel, payload),
            Some(MessageModel::Connect { channel }) => self.accept(channel),
            Some(MessageModel::Close { channel }) => self.drop_channel(channel),
        }
    }

    /// A task with handle `w` reads channel `c`: the oldest payload, or it
    /// parks until traffic arrives.
    pub open spec fn poll(self, c: u64, w: W) -> (Self, Result<Option<Seq<u8>>, SessionError>) {
        if !routes(self.phase) {
            (self, Err(phase_error(self.phase)))
        } else if !self.channels.contains_key(c) {
            (self, Err(SessionError::UnknownChannel))
        } else if self.channels[c].inbound.len() > 0 {
            (
                SessionModel {
                    channels: self.channels.insert(
                        c,
                        ChannelModel { inbound: self.channels[c].inbound.drop_first(), ..self.channels[c] },
                    ),
                    ..self
                },
                Ok(Some(self.channels[c].inbound[0])),
            )
        } else {
            (SessionModel { parked: self.parked.push(Parked { channel: c, waker: w }), ..self }, Ok(None))
        }
    }

    /// A payload is sent on open channel `c`.
    pub open spec fn send(self, c: u64, p: Seq<u8>) -> (Self, Result<(), SessionError>) {
        if !routes(self.phase) {
            (self, Err(phase_error(self.phase)))
        } else if !self.channels.contains_key(c) || self.channels[c].state != ChannelState::Open {
            (self, Err(SessionError::UnknownChannel))
        } else {
            (
                SessionModel {
                    outgoing: self.outgoing.push(spec_encode(MessageModel::Data { channel: c, payload: p })),
                    ..self
                },
                Ok(()),
            )
        }
    }

    /// A closing session finishes: like a lost connection, but only from
    /// the closing phase.
    pub open spec fn finish_close(self) -> (Self, Result<Seq<W>, SessionError>) {
        if self.phase == Phase::Closing {
            (self.lose_transport().0, Ok(self.lose_transport().1))
        } else {
            (self, Err(phase_error(self.phase)))
        }
    }

    /// The handshake failed: the session ends without ever becoming active.
    pub open spec fn fail_handshake(self) -> (Self, Result<(), SessionError>) {
        if self.phase == Phase::Handshaking {
            (SessionModel { phase: Phase::Closed, outgoing: Seq::empty(), ..self }, Ok(()))
        } else {
            (self, Err(phase_error(self.phase)))
        }
    }

    /// The connection is lost: every channel is gone and every parked task
    /// resumes.
    pub open spec fn lose_transport(self) -> (Self, Seq<W>) {
        (
            SessionModel {
                phase: Phase::Closed,
                channels: Map::empty(),
                parked: Seq::empty(),
                outgoing: Seq::empty(),
                ..self
            },
            self.parked.map_values(|p: Parked<W>| p.waker),
        )
    }
}

/// The session after it receives the buffers `frames` in order; each
/// frame's error stays local to that frame.
pub open spec fn receive_all<W>(s: SessionModel<W>, frames: Seq<Seq<u8>>) -> SessionModel<W>
    decreases frames.len(),
{
    if frames.len() == 0 {
        s
    } else {
        receive_all(s.receive(frames[0]).0, frames.drop_first())
    }
}

/// Splits `ps` into the tasks parked elsewhere than `c` and the handles of
/// those parked on `c`, keeping the order of each.
fn split_parked<W>(ps: Vec<Parked<W>>, c: u64) -> (r: (Vec<Parked<W>>, Vec<W>))
    ensures
        r.0@ == parked_elsewhere(ps@, c),
        r.1@ == wakers_on(ps@, c),
{
    let ghost orig = ps@;
    let mut rest = ps;
    let mut keep: Vec<Parked<W>> = Vec::new();
    let mut woken: Vec<W> = Vec::new();
    while rest.len() > 0
        invariant
            rest@.len() <= orig.len(),
            rest@ == orig.subrange(orig.len() - rest@.len(), orig.len() as int),
            keep@ == parked_elsewhere(orig.subrange(0, orig.len() - rest@.len()), c),
            woken@ == wakers_on(orig.subrange(0, orig.len() - rest@.len()), c),
        decreases rest.len(),
    {
        let ghost k = orig.len() - rest@.len();
        let p = rest.remove(0);
        assert(p == orig[k]);
        assert(orig.subrange(0, k + 1).drop_last() =~= orig.subrange(0, k));
        proof {
            reveal(Seq::filter);
        }
        let Parked { channel, waker } = p;
        if channel == c {
            woken.push(waker);
        } else {
            keep.push(Parked { channel, waker });
        }
        assert(rest@ =~= orig.subrange(k + 1, orig.len() as int));
    }
    assert(orig.subrange(0, orig.len() as int) =~= orig);
    (keep, woken)
}

/// The handles of every task in `ps`, in order.
fn all_wakers<W>(ps: Vec<Parked<W>>) -> (r: Vec<W>)
    ensures
        r@ == ps@.map_values(|p: Parked<W>| p.waker),
{
    let ghost orig = ps@;
    let mut rest = ps;
    let mut woken: Vec<W> = Vec::new();
    while rest.len() > 0
        invariant
            rest@.len() <= orig.len(),
            rest@ == orig.subrange(orig.len() - rest@.len(), orig.len() as int),
            woken@ == orig.subrange(0, orig.len() - rest@.len()).map_values(|p: Parked<W>| p.waker),
        decreases rest.len(),
    {
        let ghost k = orig.len() - rest@.len();
        let p = rest.remove(0);
        assert(p == orig[k]);
        woken.push(p.waker);
        assert(woken@ =~= orig.subrange(0, k + 1).map_values(|p: Parked<W>| p.waker));
        assert(rest@ =~= orig.subrange(k + 1, orig.len() as int));
    }
    assert(orig.subrange(0, orig.len() as int) =~= orig);
    woken
}

proof fn lemma_view_insert(m: Map<u64, ChannelEntry>, k: u64, e: ChannelEntry)
    ensures
        m.insert(k, e).map_values(|x: ChannelEntry| x@) == m.map_values(|x: ChannelEntry| x@).insert(k, e@),
{
    assert(m.insert(k, e).map_values(|x: ChannelEntry| x@) =~= m.map_values(|x: ChannelEntry| x@).insert(k, e@));
}

proof fn lemma_view_remove(m: Map<u64, ChannelEntry>, k: u64)
    ensures
        m.remove(k).map_values(|x: ChannelEntry| x@) == m.map_values(|x: ChannelEntry| x@).remove(k),
{
    assert(m.remove(k).map_values(|x: ChannelEntry| x@) =~= m.map_values(|x: ChannelEntry| x@).remove(k));
}

/// The tasks parked elsewhere than `c` wait on a channel other than `c`,
/// and each was parked before.
proof fn lemma_elsewhere<W>(ps: Seq<Parked<W>>, c: u64)
    ensures
        forall|i: int|
            0 <= i < parked_elsewhere(ps, c).len() ==> {
                &&& (#[trigger] parked_elsewhere(ps, c)[i]).channel != c
                &&& exists|j: int| 0 <= j < ps.len() && ps[j] == parked_elsewhere(ps, c)[i]
            },
{
    let pred = |p: Parked<W>| p.channel != c;
    ps.filter_lemma(pred);
    assert forall|i: int| 0 <= i < parked_elsewhere(ps, c).len() implies exists|j: int|
        0 <= j < ps.len() && ps[j] == #[trigger] parked_elsewhere(ps, c)[i] by {
        let x = parked_elsewhere(ps, c)[i];
        assert(ps.filter(pred).contains(x));
        ps.lemma_filter_contains_rev(pred, x);
    }
}

impl ChannelEntry {
    fn new(state: ChannelState) -> (r: Self)
        ensures
            r@ == fresh(state),
    {
        let r = ChannelEntry { state, inbound: Vec::new() };
        assert(r@.inbound =~= Seq::<Seq<u8>>::empty());
        r
    }
}

impl<W> Session<W> {
    /// A session at end `role` whose transport is still being set up.
    pub fn new(role: Role) -> (r: Self)
        ensures
            r@.wf(),
            r@.phase == Phase::Handshaking,
            r@.role == role,
            r@.next_id == (if role == Role::Initiator { 1u64 } else { 2u64 }),
            r@.redeemed.is_empty(),
            r@.channels.is_empty(),
            r@.parked.len() == 0,
            r@.outgoing.len() == 0,
    {
        let r = Session {
            phase: Phase::Handshaking,
            role,
            next_id: if role == Role::Initiator { 1 } else { 2 },
            redeemed: HashSet::new(),
            channels: HashMap::new(),
            parked: Vec::new(),
            outgoing: Vec::new(),
        };
        assert(r@.channels =~= Map::empty());
        assert(r@.redeemed =~= Set::empty());
        assert(r@.outgoing =~= Seq::<Seq<u8>>::empty());
        r
    }

    /// The current phase.
    pub fn phase(&self) -> (r: Phase)
        ensures
            r == self@.phase,
    {
        self.phase
    }

    /// Whether channel `c` has a routing entry, and in which state.
    pub fn channel_state(&self, c: u64) -> (r: Option<ChannelState>)
        ensures
            r == (if self@.channels.contains_key(c) { Some(self@.channels[c].state) } else { None }),
    {
        match self.channels.get(&c) {
            Some(e) => Some(e.state),
            None => None,
        }
    }

    /// Moves channel `c`'s parked tasks out, handing back their handles.
    fn unpark_channel(&mut self, c: u64) -> (woken: Vec<W>)
        ensures
            final(self)@ == old(self)@.unpark(c),
            woken@ == wakers_on(old(self)@.parked, c),
    {
        let mut ps: Vec<Parked<W>> = Vec::new();
        std::mem::swap(&mut ps, &mut self.parked);
        let (keep, woken) = split_parked(ps, c);
        self.parked = keep;
        woken
    }

    /// Called once the handshake is done: the session becomes active with
    /// its root channel open.
    pub fn open_root_channel(&mut self) -> (r: Result<u64, SessionError>)
        requires
            old(self)@.wf(),
        ensures
            (final(self)@, r) == old(self)@.open_root(),
            final(self)@.wf(),
    {
        if self.phase != Phase::Handshaking {
            return Err(if self.phase == Phase::Closed { SessionError::TransportClosed } else { SessionError::InvalidPhase });
        }
        self.phase = Phase::Active;
        let e = ChannelEntry::new(ChannelState::Open);
        proof { lemma_view_insert(self.channels@, ROOT_CHANNEL, e); }
        self.channels.insert(ROOT_CHANNEL, e);
        Ok(ROOT_CHANNEL)
    }

    /// Reserves a fresh channel identifier, distinct from every identifier
    /// this session has reserved or redeemed before.
    pub fn allocate_channel_id(&mut self) -> (r: Result<u64, SessionError>)
        requires
            old(self)@.wf(),
        ensures
            (final(self)@, r) == old(self)@.reserve(),
            final(self)@.wf(),
    {
        if self.phase != Phase::Active {
            return Err(if self.phase == Phase::Closed { SessionError::TransportClosed } else { SessionError::InvalidPhase });
        }
        if self.next_id > u64::MAX - 2 {
            return Err(SessionError::IdsExhausted);
        }
        let id = self.next_id;
        let e = ChannelEntry::new(ChannelState::Reserved);
        proof { lemma_view_insert(self.channels@, id, e); }
        self.channels.insert(id, e);
        self.next_id = id + 2;
        Ok(id)
    }

    /// Mints a sub-channel token: reserves an identifier that the peer can
    /// claim by redeeming the token.
    pub fn reserve_subchannel(&mut self) -> (r: Result<SubchannelToken, SessionError>)
        requires
            old(self)@.wf(),
        ensures
            final(self)@ == old(self)@.reserve().0,
            r == (match old(self)@.reserve().1 {
                Ok(id) => Ok(SubchannelToken { channel: id }),
                Err(e) => Err(e),
            }),
            final(self)@.wf(),
    {
        match self.allocate_channel_id() {
            Ok(id) => Ok(SubchannelToken { channel: id }),
            Err(e) => Err(e),
        }
    }

    /// Redeems a token received from the peer: opens its channel here and
    /// queues the connect frame that opens it on the peer's side.
    pub fn connect_subchannel(&mut self, token: SubchannelToken) -> (r: Result<u64, SessionError>)
        requires
            old(self)@.wf(),
        ensures
            (final(self)@, r) == old(self)@.redeem(token.channel),
            final(self)@.wf(),
    {
        let c = token.channel;
        if self.phase != Phase::Active {
            return Err(if self.phase == Phase::Closed { SessionError::TransportClosed } else { SessionError::InvalidPhase });
        }
        let own = match self.role {
            Role::Initiator => c % 2 == 1,
            Role::Acceptor => c % 2 == 0,
        };
        if c == ROOT_CHANNEL || own {
            return Err(match self.channels.get(&c) {
                Some(e) => if e.state == ChannelState::Reserved {
                    SessionError::ChannelAlreadyReserved
                } else {
                    SessionError::UnknownChannel
                },
                None => SessionError::UnknownChannel,
            });
        }
        if self.redeemed.contains(&c) {
            return Err(SessionError::TokenAlreadyConnected);
        }
        let e = ChannelEntry::new(ChannelState::Open);
        proof { lemma_view_insert(self.channels@, c, e); }
        self.channels.insert(c, e);
        self.redeemed.insert(c);
        let frame = encode(&Message::Connect { channel: c });
        let ghost old_out = self.outgoing@;
        self.outgoing.push(frame);
        assert(byte_views(self.outgoing@) =~= byte_views(old_out).push(frame@));
        Ok(c)
    }

    /// The peer redeemed the token of reserved channel `c`: the channel
    /// opens, and the tasks waiting for it are handed back to be resumed.
    pub fn accept_connect(&mut self, c: u64) -> (r: Result<Vec<W>, SessionError>)
        requires
            old(self)@.wf(),
        ensures
            (final(self)@, woken_view(r)) == old(self)@.accept(c),
            final(self)@.wf(),
    {
        if self.phase != Phase::Active {
            return Err(if self.phase == Phase::Closed { SessionError::TransportClosed } else { SessionError::InvalidPhase });
        }
        match self.channels.get(&c) {
            None => {
                return Err(SessionError::UnknownChannel);
            },
            Some(e) => {
                if e.state == ChannelState::Open {
                    return Err(SessionError::TokenAlreadyConnected);
                }
            },
        }
        let ghost s0 = self@;
        let woken = self.unpark_channel(c);
        let e = ChannelEntry::new(ChannelState::Open);
        proof {
            lemma_view_insert(self.channels@, c, e);
            lemma_elsewhere(s0.parked, c);
        }
        self.channels.insert(c, e);
        proof {
            let s = self@;
            assert forall|i: int| 0 <= i < s.parked.len() implies {
                &&& s.channels.contains_key(#[trigger] s.parked[i].channel)
                &&& s.channels[s.parked[i].channel].inbound.len() == 0
            } by {
                let j = choose|j: int| 0 <= j < s0.parked.len() && s0.parked[j] == parked_elsewhere(s0.parked, c)[i];
                assert(s0.channels.contains_key(s0.parked[j].channel));
            }
        }
        Ok(woken)
    }

    /// Routes a payload to channel `c`: it joins that channel's queue, and
    /// the tasks waiting on that channel, and only those, are handed back
    /// to be resumed.
    pub fn demultiplex(&mut self, c: u64, payload: Vec<u8>) -> (r: Result<Vec<W>, SessionError>)
        requires
            old(self)@.wf(),
        ensures
            (final(self)@, woken_view(r)) == old(self)@.deliver(c, payload@),
            final(self)@.wf(),
    {
        if self.phase != Phase::Active && self.phase != Phase::Closing {
            return Err(if self.phase == Phase::Closed { SessionError::TransportClosed } else { SessionError::InvalidPhase });
        }
        match self.channels.get(&c) {
            None => {
                return Err(SessionError::UnknownChannel);
            },
            Some(e) => {
                if e.state != ChannelState::Open {
                    return Err(SessionError::UnknownChannel);
                }
            },
        }
        let ghost s0 = self@;
        let woken = self.unpark_channel(c);
        assert(self@.channels.dom() == s0.channels.dom());
        assert(self.channels@.dom() =~= self@.channels.dom());
        let ghost m0 = self.channels@;
        let mut e = self.channels.remove(&c).unwrap();
        let ghost old_in = e.inbound@;
        e.inbound.push(payload);
        assert(byte_views(e.inbound@) =~= byte_views(old_in).push(payload@));
        proof {
            lemma_view_insert(self.channels@, c, e);
            assert(self.channels@.insert(c, e) =~= m0.insert(c, e));
            lemma_view_insert(m0, c, e);
            lemma_elsewhere(s0.parked, c);
        }
        self.channels.insert(c, e);
        proof {
            let s = self@;
            assert forall|i: int| 0 <= i < s.parked.len() implies {
                &&& s.channels.contains_key(#[trigger] s.parked[i].channel)
                &&& s.channels[s.parked[i].channel].inbound.len() == 0
            } by {
                let j = choose|j: int| 0 <= j < s0.parked.len() && s0.parked[j] == parked_elsewhere(s0.parked, c)[i];
                assert(s0.channels.contains_key(s0.parked[j].channel));
            }
        }
        Ok(woken)
    }

    /// Removes channel `c`'s routing entry and hands back the handles of the
    /// tasks waiting on it.
    fn remove_channel(&mut self, c: u64) -> (r: Result<Vec<W>, SessionError>)
        requires
            old(self)@.wf(),
        ensures
            (final(self)@, woken_view(r)) == old(self)@.drop_channel(c),
            final(self)@.wf(),
    {
        if self.phase != Phase::Active && self.phase != Phase::Closing {
            return Err(if self.phase == Phase::Closed { SessionError::TransportClosed } else { SessionError::InvalidPhase });
        }
        if !self.channels.contains_key(&c) {
            return Err(SessionError::UnknownChannel);
        }
        let ghost s0 = self@;
        let woken = self.unpark_channel(c);
        proof {
            lemma_view_remove(self.channels@, c);
            lemma_elsewhere(s0.parked, c);
        }
        self.channels.remove(&c);
        proof {
            let s = self@;
            assert forall|i: int| 0 <= i < s.parked.len() implies {
                &&& s.channels.contains_key(#[trigger] s.parked[i].channel)
                &&& s.channels[s.parked[i].channel].inbound.len() == 0
            } by {
                let j = choose|j: int| 0 <= j < s0.parked.len() && s0.parked[j] == parked_elsewhere(s0.parked, c)[i];
                assert(s0.channels.contains_key(s0.parked[j].channel));
            }
        }
        Ok(woken)
    }

    /// Closes channel `c` here, or revokes its reservation. The peer is sent
    /// a close frame if the channel was open; the tasks waiting on it are
    /// handed back to be resumed, and the identifier is never reused.
    pub fn close_channel(&mut self, c: u64) -> (r: Result<Vec<W>, SessionError>)
        requires
            old(self)@.wf(),
        ensures
            (final(self)@, woken_view(r)) == old(self)@.close(c),
            final(self)@.wf(),
    {
        let was_open = match self.channels.get(&c) {
            Some(e) => e.state == ChannelState::Open,
            None => false,
        };
        let r = self.remove_channel(c);
        if r.is_ok() && was_open {
            let frame = encode(&Message::Close { channel: c });
            let ghost old_out = self.outgoing@;
            self.outgoing.push(frame);
            assert(byte_views(self.outgoing@) =~= byte_views(old_out).push(frame@));
        }
        r
    }

    /// Handles one buffer received from the transport: a data frame is
    /// routed to its channel, a connect frame opens a reserved channel, a
    /// close frame removes a channel. Hands back the tasks to resume.
    pub fn receive_frame(&mut self, b: &[u8]) -> (r: Result<Vec<W>, SessionError>)
        requires
            old(self)@.wf(),
        ensures
            (final(self)@, woken_view(r)) == old(self)@.receive(b@),
            final(self)@.wf(),
    {
        match decode(b) {
            Err(DecodeError::Malformed) => Err(SessionError::Malformed),
            Ok(Message::Data { channel, payload }) => self.demultiplex(channel, payload),
            Ok(Message::Connect { channel }) => self.accept_connect(channel),
            Ok(Message::Close { channel }) => self.remove_channel(channel),
        }
    }

    /// Reads channel `c` for a task with handle `waker`: the oldest queued
    /// payload, or `None` after parking the task until traffic arrives.
    pub fn poll_channel(&mut self, c: u64, waker: W) -> (r: Result<Option<Vec<u8>>, SessionError>)
        requires
            old(self)@.wf(),
        ensures
            (final(self)@, polled_view(r)) == old(self)@.poll(c, waker),
            final(self)@.wf(),
    {
        if self.phase != Phase::Active && self.phase != Phase::Closing {
            return Err(if self.phase == Phase::Closed { SessionError::TransportClosed } else { SessionError::InvalidPhase });
        }
        let queued = match self.channels.get(&c) {
            None => {
                return Err(SessionError::UnknownChannel);
            },
            Some(e) => e.inbound.len() > 0,
        };
        if queued {
            let ghost s0 = self@;
            let ghost m0 = self.channels@;
            let mut e = self.channels.remove(&c).unwrap();
            let ghost old_in = e.inbound@;
            let b = e.inbound.remove(0);
            assert(byte_views(e.inbound@) =~= byte_views(old_in).drop_first());
            proof {
                lemma_view_insert(self.channels@, c, e);
                assert(self.channels@.insert(c, e) =~= m0.insert(c, e));
                lemma_view_insert(m0, c, e);
            }
            self.channels.insert(c, e);
            proof {
                let s = self@;
                assert forall|i: int| 0 <= i < s.parked.len() implies {
                    &&& s.channels.contains_key(#[trigger] s.parked[i].channel)
                    &&& s.channels[s.parked[i].channel].inbound.len() == 0
                } by {
                    assert(s0.channels.contains_key(s0.parked[i].channel));
                }
            }
            Ok(Some(b))
        } else {
            self.parked.push(Parked { channel: c, waker });
            Ok(None)
        }
    }

    /// Queues a data frame carrying `payload` on open channel `c`.
    pub fn send(&mut self, c: u64, payload: Vec<u8>) -> (r: Result<(), SessionError>)
        requires
            old(self)@.wf(),
        ensures
            (final(self)@, r) == old(self)@.send(c, payload@),
            final(self)@.wf(),
    {
        if self.phase != Phase::Active && self.phase != Phase::Closing {
            return Err(if self.phase == Phase::Closed { SessionError::TransportClosed } else { SessionError::InvalidPhase });
        }
        match self.channels.get(&c) {
            None => {
                return Err(SessionError::UnknownChannel);
            },
            Some(e) => {
                if e.state != ChannelState::Open {
                    return Err(SessionError::UnknownChannel);
                }
            },
        }
        let frame = encode(&Message::Data { channel: c, payload });
        let ghost old_out = self.outgoing@;
        self.outgoing.push(frame);
        assert(byte_views(self.outgoing@) =~= byte_views(old_out).push(frame@));
        Ok(())
    }

    /// Sends one part of a bidirectional stream on open channel `c`.
    pub fn send_stream_part(&mut self, c: u64, part: &StreamPart) -> (r: Result<(), SessionError>)
        requires
            old(self)@.wf(),
        ensures
            (final(self)@, r) == old(self)@.send(c, spec_encode_part(part@)),
            final(self)@.wf(),
    {
        let payload = encode_part(part);
        self.send(c, payload)
    }

    /// Feeds `stream` from its channel `c`, for a task with handle `waker`:
    /// the oldest payload is decoded and taken in as an item or an
    /// acknowledgement (`Ok(true)`); with nothing queued the task parks
    /// (`Ok(false)`); once the channel is gone or the connection lost, the
    /// stream ends and the error is returned.
    pub fn pull_stream(&mut self, c: u64, stream: &mut BiStream<Vec<u8>, Vec<u8>>, waker: W) -> (r: Result<bool, SessionError>)
        requires
            old(self)@.wf(),
        ensures
            final(self)@ == old(self)@.poll(c, waker).0,
            final(self)@.wf(),
            match old(self)@.poll(c, waker).1 {
                Ok(Some(p)) => match spec_decode_part(p) {
                    Some(pm) => r == Ok::<bool, SessionError>(true) && exists|part: StreamPart|
                        part@ == pm && final(stream)@ == #[trigger] old(stream)@.take(part),
                    None => r == Err::<bool, SessionError>(SessionError::Malformed) && final(stream)@ == old(stream)@,
                },
                Ok(None) => r == Ok::<bool, SessionError>(false) && final(stream)@ == old(stream)@,
                Err(e) => r == Err::<bool, SessionError>(e) && final(stream)@ == (BiStreamModel { open: false, ..old(stream)@ }),
            },
    {
        match self.poll_channel(c, waker) {
            Ok(Some(p)) => match decode_part(p.as_slice()) {
                Ok(part) => {
                    stream.take_part(part);
                    Ok(true)
                },
                Err(_) => Err(SessionError::Malformed),
            },
            Ok(None) => Ok(false),
            Err(e) => {
                stream.close();
                Err(e)
            },
        }
    }

    /// Starts closing an active session: from now on no channel can be
    /// opened, while traffic on existing ones is still routed.
    pub fn begin_close(&mut self)
        requires
            old(self)@.wf(),
        ensures
            old(self)@.phase == Phase::Active ==> final(self)@ == (SessionModel { phase: Phase::Closing, ..old(self)@ }),
            old(self)@.phase != Phase::Active ==> final(self)@ == old(self)@,
            final(self)@.wf(),
    {
        if self.phase == Phase::Active {
            self.phase = Phase::Closing;
        }
    }

    /// The connection is lost: the session closes for good, every channel
    /// is gone, and every parked task is handed back to be resumed, once.
    pub fn transport_lost(&mut self) -> (woken: Vec<W>)
        requires
            old(self)@.wf(),
        ensures
            final(self)@ == old(self)@.lose_transport().0,
            woken@ == old(self)@.lose_transport().1,
            final(self)@.wf(),
    {
        self.phase = Phase::Closed;
        self.channels = HashMap::new();
        self.outgoing = Vec::new();
        let mut ps: Vec<Parked<W>> = Vec::new();
        std::mem::swap(&mut ps, &mut self.parked);
        assert(self@.channels =~= Map::empty());
        assert(self@.outgoing =~= Seq::<Seq<u8>>::empty());
        all_wakers(ps)
    }

    /// Ends a closing session: every channel is gone and every parked task
    /// is handed back to be resumed, once.
    pub fn finish_close(&mut self) -> (r: Result<Vec<W>, SessionError>)
        requires
            old(self)@.wf(),
        ensures
            (final(self)@, woken_view(r)) == old(self)@.finish_close(),
            final(self)@.wf(),
    {
        if self.phase != Phase::Closing {
            return Err(if self.phase == Phase::Closed { SessionError::TransportClosed } else { SessionError::InvalidPhase });
        }
        Ok(self.transport_lost())
    }

    /// Records that the handshake failed: the session ends without ever
    /// opening a channel.
    pub fn fail_handshake(&mut self) -> (r: Result<(), SessionError>)
        requires
            old(self)@.wf(),
        ensures
            (final(self)@, r) == old(self)@.fail_handshake(),
            final(self)@.wf(),
    {
        if self.phase != Phase::Handshaking {
            return Err(if self.phase == Phase::Closed { SessionError::TransportClosed } else { SessionError::InvalidPhase });
        }
        self.phase = Phase::Closed;
        self.outgoing = Vec::new();
        assert(byte_views(self.outgoing@) =~= Seq::<Seq<u8>>::empty());
        Ok(())
    }

    /// Takes every queued outgoing frame, oldest first.
    pub fn take_outgoing(&mut self) -> (r: Vec<Vec<u8>>)
        ensures
            byte_views(r@) == old(self)@.outgoing,
            final(self)@ == (SessionModel { outgoing: Seq::empty(), ..old(self)@ }),
    {
        let mut out: Vec<Vec<u8>> = Vec::new();
        std::mem::swap(&mut out, &mut self.outgoing);
        assert(byte_views(self.outgoing@) =~= Seq::<Seq<u8>>::empty());
        out
    }
}

/// Tasks parked on `b` are untouched when those parked on another channel
/// are taken out.
proof fn lemma_wakers_elsewhere<W>(ps: Seq<Parked<W>>, a: u64, b: u64)
    requires
        a != b,
    ensures
        wakers_on(parked_elsewhere(ps, a), b) == wakers_on(ps, b),
    decreases ps.len(),
{
    reveal(Seq::filter);
    if ps.len() > 0 {
        lemma_wakers_elsewhere(ps.drop_last(), a, b);
        let f = parked_elsewhere(ps.drop_last(), a);
        assert(f.push(ps.last()).drop_last() =~= f);
    }
}

/// A payload routed to channel `a` leaves every other channel `b` as it
/// was, and no task parked on `b` is resumed by it or stops waiting; only
/// tasks parked on `a` are resumed.
pub proof fn lemma_channel_isolation<W>(s: SessionModel<W>, a: u64, p: Seq<u8>, b: u64)
    requires
        s.wf(),
        a != b,
    ensures
        s.deliver(a, p).0.channels.contains_key(b) == s.channels.contains_key(b),
        s.channels.contains_key(b) ==> s.deliver(a, p).0.channels[b] == s.channels[b],
        wakers_on(s.deliver(a, p).0.parked, b) == wakers_on(s.parked, b),
        s.deliver(a, p).1 matches Ok(woken) ==> woken == wakers_on(s.parked, a),
{
    lemma_wakers_elsewhere(s.parked, a, b);
}

/// The frame that a send on channel `a` queues is, once the peer receives
/// it, routed by the peer to its channel `a` with the same payload.
pub proof fn lemma_sent_frame_routes_to_its_channel<W, V>(s: SessionModel<W>, peer: SessionModel<V>, a: u64, p: Seq<u8>)
    requires
        s.send(a, p).1 is Ok,
    ensures
        peer.receive(s.send(a, p).0.outgoing.last()) == peer.deliver(a, p),
{
    crate::codec::lemma_round_trip(MessageModel::Data { channel: a, payload: p });
}

/// A stream part sent on channel `c` reaches the peer's channel `c` as a
/// payload that decodes to that same part.
pub proof fn lemma_stream_part_arrives<W, V>(s: SessionModel<W>, peer: SessionModel<V>, c: u64, part: crate::codec::StreamPartModel)
    requires
        s.send(c, spec_encode_part(part)).1 is Ok,
    ensures
        peer.receive(s.send(c, spec_encode_part(part)).0.outgoing.last()) == peer.deliver(c, spec_encode_part(part)),
        spec_decode_part(spec_encode_part(part)) == Some(part),
{
    lemma_sent_frame_routes_to_its_channel(s, peer, c, spec_encode_part(part));
    crate::codec::lemma_part_round_trip(part);
}

/// Redeeming a token queues the frame that, received by the peer that
/// reserved the channel, opens it there too.
pub proof fn lemma_redeem_opens_peer_channel<W, V>(s: SessionModel<W>, peer: SessionModel<V>, c: u64)
    requires
        s.redeem(c).1 is Ok,
        peer.phase == Phase::Active,
        peer.channels.contains_key(c),
        peer.channels[c].state == ChannelState::Reserved,
    ensures
        peer.receive(s.redeem(c).0.outgoing.last()) == peer.accept(c),
        peer.accept(c).1 is Ok,
        peer.accept(c).0.channels[c] == fresh(ChannelState::Open),
{
    crate::codec::lemma_round_trip(MessageModel::Connect { channel: c });
}

/// Reserving preserves well-formedness.
proof fn lemma_reserve_wf<W>(s: SessionModel<W>)
    requires
        s.wf(),
    ensures
        s.reserve().0.wf(),
{
}

/// The session after `n` reservations in a row, and the identifiers they
/// returned; the run stops at the first failure.
pub open spec fn reserve_n<W>(s: SessionModel<W>, n: nat) -> (SessionModel<W>, Seq<u64>)
    decreases n,
{
    if n == 0 {
        (s, Seq::empty())
    } else {
        match s.reserve() {
            (s1, Ok(id)) => {
                let (s2, ids) = reserve_n(s1, (n - 1) as nat);
                (s2, seq![id] + ids)
            },
            (s1, Err(_)) => (s1, Seq::empty()),
        }
    }
}

/// Reservations made one after another return pairwise distinct
/// identifiers, none of which names a channel that existed before; an
/// active session with identifiers to spare grants every one of them.
pub proof fn lemma_ids_distinct<W>(s: SessionModel<W>, n: nat)
    requires
        s.wf(),
    ensures
        forall|i: int, j: int|
            0 <= i < j < reserve_n(s, n).1.len() ==> reserve_n(s, n).1[i] != reserve_n(s, n).1[j],
        forall|i: int|
            0 <= i < reserve_n(s, n).1.len() ==> !s.channels.contains_key(#[trigger] reserve_n(s, n).1[i])
                && s.mints(reserve_n(s, n).1[i]),
        s.phase == Phase::Active && s.next_id + 2 * n <= u64::MAX ==> reserve_n(s, n).1.len() == n,
{
    lemma_ids_ascending(s, n);
}

proof fn lemma_ids_ascending<W>(s: SessionModel<W>, n: nat)
    requires
        s.wf(),
    ensures
        forall|i: int| 0 <= i < reserve_n(s, n).1.len() ==> #[trigger] reserve_n(s, n).1[i] == s.next_id + 2 * i,
        s.phase == Phase::Active && s.next_id + 2 * n <= u64::MAX ==> reserve_n(s, n).1.len() == n,
    decreases n,
{
    if n > 0 {
        let (s1, r) = s.reserve();
        if r is Ok {
            lemma_reserve_wf(s);
            lemma_ids_ascending(s1, (n - 1) as nat);
            let ids = reserve_n(s1, (n - 1) as nat).1;
            assert forall|i: int| 0 <= i < reserve_n(s, n).1.len() implies #[trigger] reserve_n(s, n).1[i] == s.next_id + 2 * i by {
                if i > 0 {
                    assert(reserve_n(s, n).1[i] == ids[i - 1]);
                }
            }
        }
    }
}

/// Redeeming a token a second time fails with `TokenAlreadyConnected` and
/// changes nothing, so the channel the first redemption opened is
/// unaffected; it still fails after that channel was closed.
pub proof fn lemma_token_single_use<W>(s: SessionModel<W>, t: SubchannelToken)
    requires
        s.wf(),
        s.redeem(t.channel).1 is Ok,
    ensures
        s.redeem(t.channel).0.redeem(t.channel) == (s.redeem(t.channel).0, Err::<u64, SessionError>(SessionError::TokenAlreadyConnected)),
        s.redeem(t.channel).0.close(t.channel).0.redeem(t.channel).1 == Err::<u64, SessionError>(SessionError::TokenAlreadyConnected),
{
}

/// On the minting side, a second connect frame for the same token is
/// refused with `TokenAlreadyConnected` and changes nothing.
pub proof fn lemma_connect_single_use<W>(s: SessionModel<W>, c: u64)
    requires
        s.wf(),
        s.accept(c).1 is Ok,
    ensures
        s.accept(c).0.accept(c) == (s.accept(c).0, Err::<Seq<W>, SessionError>(SessionError::TokenAlreadyConnected)),
{
}

/// Once the connection is lost, every task that was waiting is resumed,
/// once and in the order it parked, and every later read or send, on any
/// channel, reports `TransportClosed` instead of waiting.
pub proof fn lemma_transport_loss<W>(s: SessionModel<W>, c: u64, w: W, p: Seq<u8>)
    requires
        s.wf(),
    ensures
        s.lose_transport().1.len() == s.parked.len(),
        forall|i: int| 0 <= i < s.parked.len() ==> s.lose_transport().1[i] == (#[trigger] s.parked[i]).waker,
        s.lose_transport().0.wf(),
        s.lose_transport().0.poll(c, w) == (s.lose_transport().0, Err::<Option<Seq<u8>>, SessionError>(SessionError::TransportClosed)),
        s.lose_transport().0.send(c, p) == (s.lose_transport().0, Err::<(), SessionError>(SessionError::TransportClosed)),
{
}

} // verus!
