//! Outbound UDP: what the listener does with the datagrams that were redirected to
//! it, and what a session does with those that it relays.

use vstd::prelude::*;

use super::queue::{
    datagram_channel_with_limits, empty_queue, law_an_ended_queue_is_closed, DatagramTrySendError,
    Offer, QueueModel,
};
use super::sessions::{completed, FlowKey, Session, SessionTable};
use crate::bytebuf::frozen_bytes;
use crate::net::{law_canonical_address, law_loopback_addresses, IpAddr, SocketAddr};

verus! {

/// Why a datagram was dropped.
#[derive(Clone, Copy, Debug, PartialEq, Eq, Structural)]
pub enum UdpDropReason {
    Truncated,
    MissingOriginalDestination,
    KernelRxQueue,
    SelfRedirect,
    SessionQueue,
    Draining,
    SessionLimit,
    SessionEnd,
    SessionEstablishment,
    OversizedDatagram,
    HboneWrite,
    ResponseSend,
}

impl UdpDropReason {
    /// The name under which drops are counted.
    pub open spec fn name(self) -> Seq<char> {
        match self {
            UdpDropReason::Truncated => "truncated"@,
            UdpDropReason::MissingOriginalDestination => "missing_original_destination"@,
            UdpDropReason::KernelRxQueue => "kernel_rx_queue"@,
            UdpDropReason::SelfRedirect => "self_redirect"@,
            UdpDropReason::SessionQueue => "session_queue"@,
            UdpDropReason::Draining => "draining"@,
            UdpDropReason::SessionLimit => "session_limit"@,
            UdpDropReason::SessionEnd => "session_end"@,
            UdpDropReason::SessionEstablishment => "session_establishment"@,
            UdpDropReason::OversizedDatagram => "oversized_datagram"@,
            UdpDropReason::HboneWrite => "hbone_write"@,
            UdpDropReason::ResponseSend => "response_send"@,
        }
    }

    /// The name under which drops are counted.
    pub fn label(self) -> (r: String)
        ensures
            r@ == self.name(),
    {
        match self {
            UdpDropReason::Truncated => "truncated".to_owned(),
            UdpDropReason::MissingOriginalDestination => "missing_original_destination".to_owned(),
            UdpDropReason::KernelRxQueue => "kernel_rx_queue".to_owned(),
            UdpDropReason::SelfRedirect => "self_redirect".to_owned(),
            UdpDropReason::SessionQueue => "session_queue".to_owned(),
            UdpDropReason::Draining => "draining".to_owned(),
            UdpDropReason::SessionLimit => "session_limit".to_owned(),
            UdpDropReason::SessionEnd => "session_end".to_owned(),
            UdpDropReason::SessionEstablishment => "session_establishment".to_owned(),
            UdpDropReason::OversizedDatagram => "oversized_datagram".to_owned(),
            UdpDropReason::HboneWrite => "hbone_write".to_owned(),
            UdpDropReason::ResponseSend => "response_send".to_owned(),
        }
    }
}

/// The datagrams lost between two readings of the kernel's drop counter, which
/// wraps around.
pub fn kernel_overflow_delta(previous: u32, current: u32) -> (r: u64)
    ensures
        r == (current - previous) % 0x1_0000_0000,
{
    current.wrapping_sub(previous) as u64
}

/// Whether a client addressed the listener itself over loopback: a session to it
/// would lead back to us. The same port on another host is none of our business,
/// and our own address is refused on the inbound side.
pub open spec fn illegal_call(destination: SocketAddr, listener_port: u16) -> bool {
    destination.spec_ip().loopback() && destination.spec_port() == listener_port
}

/// Whether a client addressed the listener itself over loopback.
pub fn is_illegal_call(destination: SocketAddr, listener_port: u16) -> (r: bool)
    ensures
        r == illegal_call(destination, listener_port),
{
    destination.ip().is_loopback() && destination.port() == listener_port
}

/// A datagram that was redirected to us.
pub struct ReceivedDatagram {
    pub payload: bytes::Bytes,
    pub source: SocketAddr,
    pub destination: SocketAddr,
}

/// What one readiness of the socket brought.
pub struct ReceivedDatagrams {
    pub datagrams: Vec<ReceivedDatagram>,
    pub overflow_counter: Option<u32>,
    pub truncated: u64,
    pub missing_original_destination: u64,
}

impl ReceivedDatagrams {
    /// Nothing but these datagrams.
    pub fn empty(datagrams: Vec<ReceivedDatagram>) -> (r: Self)
        ensures
            r.datagrams == datagrams,
            r.overflow_counter.is_none(),
            r.truncated == 0,
            r.missing_original_destination == 0,
    {
        ReceivedDatagrams {
            datagrams,
            overflow_counter: None,
            truncated: 0,
            missing_original_destination: 0,
        }
    }
}

/// What became of a datagram.
#[derive(Clone, Copy, Debug, PartialEq, Eq, Structural)]
pub enum Dispatched {
    /// It waits in the queue of the flow's session.
    Queued,
    /// It opened a session, in whose queue it waits.
    Opened { id: u64 },
    /// It was dropped.
    Dropped(UdpDropReason),
}

/// The listener's sessions and what decides over new ones.
pub struct Dispatcher {
    sessions: SessionTable,
    draining: bool,
    overflow_counter: u32,
    listener_port: u16,
    max_datagrams: usize,
    max_bytes: usize,
}

/// The listener, as a plain value.
pub struct DispatcherModel {
    pub sessions: Map<FlowKey, Session>,
    pub max_sessions: nat,
    pub next_id: u64,
    pub draining: bool,
    pub overflow_counter: u32,
    pub listener_port: u16,
    pub max_datagrams: usize,
    pub max_bytes: usize,
}

/// The flow of a datagram, its addresses in canonical form.
pub open spec fn flow_of(source: SocketAddr, destination: SocketAddr) -> FlowKey {
    FlowKey { source: source.canonical(), destination: destination.canonical() }
}

/// The number of the session after this one.
pub open spec fn next_number(id: u64) -> u64 {
    if id == u64::MAX {
        0
    } else {
        (id + 1) as u64
    }
}

impl DispatcherModel {
    /// A flow without a session opens one, unless the listener is draining or the
    /// limit is reached.
    pub open spec fn open_session(self, key: FlowKey, payload: Seq<u8>) -> (
        DispatcherModel,
        Dispatched,
    ) {
        if self.draining {
            (self, Dispatched::Dropped(UdpDropReason::Draining))
        } else if self.sessions.dom().len() >= self.max_sessions {
            (self, Dispatched::Dropped(UdpDropReason::SessionLimit))
        } else {
            let queue = empty_queue(self.max_datagrams as nat, self.max_bytes as nat).offered(
                payload,
            );
            (
                DispatcherModel {
                    sessions: self.sessions.insert(key, Session { id: self.next_id, queue }),
                    next_id: next_number(self.next_id),
                    ..self
                },
                Dispatched::Opened { id: self.next_id },
            )
        }
    }

    /// What becomes of a datagram: one that leads back to us is dropped; one of a
    /// flow with a session joins its queue or is dropped where that is full; where
    /// the session takes none any more, or there is none, the flow opens one.
    pub open spec fn dispatch(
        self,
        source: SocketAddr,
        destination: SocketAddr,
        payload: Seq<u8>,
    ) -> (DispatcherModel, Dispatched) {
        let key = flow_of(source, destination);
        if illegal_call(key.destination, self.listener_port) {
            (self, Dispatched::Dropped(UdpDropReason::SelfRedirect))
        } else if self.sessions.dom().contains(key) {
            let session = self.sessions[key];
            match session.queue.offer(payload.len()) {
                Offer::Queued => (
                    DispatcherModel {
                        sessions: self.sessions.insert(
                            key,
                            Session { id: session.id, queue: session.queue.offered(payload) },
                        ),
                        ..self
                    },
                    Dispatched::Queued,
                ),
                Offer::Full => (self, Dispatched::Dropped(UdpDropReason::SessionQueue)),
                Offer::Closed => DispatcherModel {
                    sessions: self.sessions.remove(key),
                    ..self
                }.open_session(key, payload),
            }
        } else {
            self.open_session(key, payload)
        }
    }
}

/// What the datagrams came to, one after the other.
#[verifier::ext_equal]
pub struct Outcome {
    pub model: DispatcherModel,
    /// The drops, in order.
    pub drops: Seq<UdpDropReason>,
    /// The sessions that were opened, in order.
    pub opened: Seq<(FlowKey, u64)>,
}

/// What the datagrams come to, one after the other.
pub open spec fn dispatch_all(model: DispatcherModel, datagrams: Seq<ReceivedDatagram>) -> Outcome
    decreases datagrams.len(),
{
    if datagrams.len() == 0 {
        Outcome { model, drops: Seq::empty(), opened: Seq::empty() }
    } else {
        let before = dispatch_all(model, datagrams.drop_last());
        let last = datagrams.last();
        let (next, what) = before.model.dispatch(
            last.source,
            last.destination,
            frozen_bytes(last.payload),
        );
        match what {
            Dispatched::Queued => Outcome { model: next, ..before },
            Dispatched::Opened { id } => Outcome {
                model: next,
                opened: before.opened.push((flow_of(last.source, last.destination), id)),
                ..before
            },
            Dispatched::Dropped(reason) => Outcome {
                model: next,
                drops: before.drops.push(reason),
                ..before
            },
        }
    }
}

/// The lengths of the payloads together.
pub open spec fn received_bytes(datagrams: Seq<ReceivedDatagram>) -> nat
    decreases datagrams.len(),
{
    if datagrams.len() == 0 {
        0
    } else {
        received_bytes(datagrams.drop_last()) + frozen_bytes(datagrams.last().payload).len()
    }
}

/// What is counted after one readiness of the socket.
pub struct ReceiveReport {
    /// What the kernel and the receiver lost, by reason.
    pub lost: Vec<(UdpDropReason, u64)>,
    /// How many datagrams came, and how many bytes they carried.
    pub packets: u64,
    pub bytes: u64,
    /// The datagrams that were dropped, in order.
    pub drops: Vec<UdpDropReason>,
    /// The sessions that were opened, in order.
    pub opened: Vec<(FlowKey, u64)>,
}

/// A count, where it is not zero.
pub open spec fn counted(reason: UdpDropReason, count: nat) -> Seq<(UdpDropReason, u64)> {
    if count > 0 {
        seq![(reason, count as u64)]
    } else {
        Seq::empty()
    }
}

/// What the kernel and the receiver lost, by reason.
pub open spec fn losses(received: ReceivedDatagrams, overflow_counter: u32) -> Seq<
    (UdpDropReason, u64),
> {
    counted(UdpDropReason::Truncated, received.truncated as nat) + counted(
        UdpDropReason::MissingOriginalDestination,
        received.missing_original_destination as nat,
    ) + (match received.overflow_counter {
        Some(current) => counted(
            UdpDropReason::KernelRxQueue,
            ((current - overflow_counter) % 0x1_0000_0000) as nat,
        ),
        None => Seq::empty(),
    })
}

/// Appends a count, where it is not zero.
fn push_count(lost: &mut Vec<(UdpDropReason, u64)>, reason: UdpDropReason, count: u64)
    ensures
        final(lost)@ == old(lost)@ + counted(reason, count as nat),
{
    let ghost before = lost@;
    if count > 0 {
        lost.push((reason, count));
    }
    assert(lost@ =~= before + counted(reason, count as nat));
}

impl View for Dispatcher {
    type V = DispatcherModel;

    closed spec fn view(&self) -> DispatcherModel {
        DispatcherModel {
            sessions: self.sessions@,
            max_sessions: self.sessions.limit(),
            next_id: self.sessions.next(),
            draining: self.draining,
            overflow_counter: self.overflow_counter,
            listener_port: self.listener_port,
            max_datagrams: self.max_datagrams,
            max_bytes: self.max_bytes,
        }
    }
}

impl Dispatcher {
    /// No flow has two sessions, and every queue is in order.
    pub closed spec fn wf(self) -> bool {
        self.sessions.wf()
    }

    /// A listener without sessions.
    pub fn new(
        listener_port: u16,
        max_sessions: usize,
        max_datagrams: usize,
        max_bytes: usize,
    ) -> (r: Self)
        ensures
            r.wf(),
            r@ == (DispatcherModel {
                sessions: Map::empty(),
                max_sessions: max_sessions as nat,
                next_id: 0,
                draining: false,
                overflow_counter: 0,
                listener_port,
                max_datagrams,
                max_bytes,
            }),
    {
        Dispatcher {
            sessions: SessionTable::new(max_sessions),
            draining: false,
            overflow_counter: 0,
            listener_port,
            max_datagrams,
            max_bytes,
        }
    }

    /// Begins to drain: sessions go on, but none opens any more.
    pub fn drain(&mut self)
        requires
            old(self).wf(),
        ensures
            final(self).wf(),
            final(self)@ == (DispatcherModel { draining: true, ..old(self)@ }),
    {
        self.draining = true;
    }

    /// Whether nothing is left to do: the listener drains and has no session.
    pub fn is_finished(&self) -> (r: bool)
        requires
            self.wf(),
        ensures
            r == (self@.draining && self@.sessions.dom().len() == 0),
    {
        self.draining && self.sessions.len() == 0
    }

    /// Notes that a session has ended.
    pub fn complete(&mut self, key: FlowKey, id: u64)
        requires
            old(self).wf(),
        ensures
            final(self).wf(),
            final(self)@ == (DispatcherModel {
                sessions: completed(old(self)@.sessions, key, id),
                ..old(self)@
            }),
    {
        self.sessions.complete(key, id);
    }

    /// The sessions, for those who relay their datagrams.
    pub fn sessions_mut(&mut self) -> (r: &mut SessionTable)
        requires
            old(self).wf(),
        ensures
            r.wf(),
            r@ == old(self)@.sessions,
            final(r).wf() ==> final(self).wf(),
            final(self)@ == (DispatcherModel {
                sessions: final(r)@,
                max_sessions: final(r).limit(),
                next_id: final(r).next(),
                ..old(self)@
            }),
    {
        &mut self.sessions
    }

    /// Opens a session for a flow that has none, and queues its first datagram.
    fn open_session(&mut self, key: FlowKey, payload: bytes::Bytes) -> (r: Dispatched)
        requires
            old(self).wf(),
        ensures
            final(self).wf(),
            (final(self)@, r) == old(self)@.open_session(key, frozen_bytes(payload)),
    {
        if self.draining {
            return Dispatched::Dropped(UdpDropReason::Draining);
        }
        let mut queue = datagram_channel_with_limits(self.max_datagrams, self.max_bytes);
        let sent: Result<(), DatagramTrySendError> = queue.try_send(payload);
        match self.sessions.insert(key, queue) {
            Some(id) => Dispatched::Opened { id },
            None => Dispatched::Dropped(UdpDropReason::SessionLimit),
        }
    }

    /// Dispatches one datagram.
    pub fn dispatch(
        &mut self,
        source: SocketAddr,
        destination: SocketAddr,
        payload: bytes::Bytes,
    ) -> (r: Dispatched)
        requires
            old(self).wf(),
        ensures
            final(self).wf(),
            (final(self)@, r) == old(self)@.dispatch(source, destination, frozen_bytes(payload)),
    {
        let key: FlowKey = FlowKey {
            source: source.to_canonical(),
            destination: destination.to_canonical(),
        };
        if is_illegal_call(key.destination, self.listener_port) {
            return Dispatched::Dropped(UdpDropReason::SelfRedirect);
        }
        match self.sessions.get(&key) {
            Some(id) => {
                let ghost before = self@.sessions;
                match self.sessions.try_send(&key, payload) {
                    Ok(()) => Dispatched::Queued,
                    Err(DatagramTrySendError::Full) => {
                        assert(self@.sessions =~= before);
                        Dispatched::Dropped(UdpDropReason::SessionQueue)
                    },
                    Err(DatagramTrySendError::Closed(back)) => {
                        self.sessions.complete(key, id);
                        assert(self@.sessions =~= before.remove(key));
                        self.open_session(key, back)
                    },
                }
            },
            None => self.open_session(key, payload),
        }
    }

    /// Takes in what one readiness of the socket brought: counts what was lost and
    /// dispatches the datagrams in order.
    pub fn receive(&mut self, received: ReceivedDatagrams) -> (r: ReceiveReport)
        requires
            old(self).wf(),
            received_bytes(received.datagrams@) <= u64::MAX,
        ensures
            final(self).wf(),
            r.lost@ == losses(received, old(self)@.overflow_counter),
            r.packets == received.datagrams@.len(),
            r.bytes == received_bytes(received.datagrams@),
            ({
                let outcome = dispatch_all(
                    DispatcherModel {
                        overflow_counter: match received.overflow_counter {
                            Some(current) => current,
                            None => old(self)@.overflow_counter,
                        },
                        ..old(self)@
                    },
                    received.datagrams@,
                );
                &&& final(self)@ == outcome.model
                &&& r.drops@ == outcome.drops
                &&& r.opened@ == outcome.opened
            }),
    {
        let mut lost: Vec<(UdpDropReason, u64)> = Vec::new();
        push_count(&mut lost, UdpDropReason::Truncated, received.truncated);
        push_count(
            &mut lost,
            UdpDropReason::MissingOriginalDestination,
            received.missing_original_destination,
        );
        match received.overflow_counter {
            Some(current) => {
                let dropped: u64 = kernel_overflow_delta(self.overflow_counter, current);
                self.overflow_counter = current;
                push_count(&mut lost, UdpDropReason::KernelRxQueue, dropped);
            },
            None => {},
        }
        assert(lost@ =~= losses(received, old(self)@.overflow_counter));
        let ghost all = received.datagrams@;
        let ghost start = self@;
        let mut packets: u64 = 0;
        let mut bytes: u64 = 0;
        let mut drops: Vec<UdpDropReason> = Vec::new();
        let mut opened: Vec<(FlowKey, u64)> = Vec::new();
        let mut datagrams: Vec<ReceivedDatagram> = received.datagrams;
        let mut i: usize = 0;
        proof {
            let first = dispatch_all(start, all.take(0));
            assert(drops@ =~= first.drops);
            assert(opened@ =~= first.opened);
        }
        while i < datagrams.len()
            invariant
                self.wf(),
                datagrams@ == all,
                i <= all.len(),
                packets == i,
                received_bytes(all) <= u64::MAX,
                bytes == received_bytes(all.take(i as int)),
                self@ == dispatch_all(start, all.take(i as int)).model,
                drops@ == dispatch_all(start, all.take(i as int)).drops,
                opened@ == dispatch_all(start, all.take(i as int)).opened,
            decreases all.len() - i,
        {
            let datagram: &ReceivedDatagram = &datagrams[i];
            proof {
                assert(all.take(i + 1).drop_last() =~= all.take(i as int));
                lemma_received_bytes_monotone(all, i + 1);
            }
            bytes = bytes + datagram.payload.len() as u64;
            let payload: bytes::Bytes = crate::bytebuf::frozen_from(&datagram.payload, 0);
            assert(frozen_bytes(payload) =~= frozen_bytes(datagram.payload));
            let (source, destination): (SocketAddr, SocketAddr) = (
                datagram.source,
                datagram.destination,
            );
            match self.dispatch(source, destination, payload) {
                Dispatched::Queued => {},
                Dispatched::Opened { id } => {
                    opened.push(
                        (
                            FlowKey {
                                source: source.to_canonical(),
                                destination: destination.to_canonical(),
                            },
                            id,
                        ),
                    );
                },
                Dispatched::Dropped(reason) => {
                    drops.push(reason);
                },
            }
            packets = packets + 1;
            i = i + 1;
        }
        assert(all.take(i as int) =~= all);
        ReceiveReport { lost, packets, bytes, drops, opened }
    }
}

proof fn lemma_received_bytes_monotone(datagrams: Seq<ReceivedDatagram>, k: int)
    requires
        0 <= k <= datagrams.len(),
    ensures
        received_bytes(datagrams.take(k)) <= received_bytes(datagrams),
    decreases datagrams.len() - k,
{
    if k < datagrams.len() {
        lemma_received_bytes_monotone(datagrams, k + 1);
        assert(datagrams.take(k + 1).drop_last() =~= datagrams.take(k));
    } else {
        assert(datagrams.take(k) =~= datagrams);
    }
}

/// A session always takes the datagram that opens it.
pub proof fn law_first_datagram_is_queued(max_datagrams: nat, max_bytes: nat, payload: Seq<u8>)
    ensures
        empty_queue(max_datagrams, max_bytes).offer(payload.len()) is Queued,
{
}

/// A datagram of a flow whose session has ended, and is not yet cleared away, is never
/// taken for one that the session's queue has no room for: it is dispatched as if the
/// flow had no session.
pub proof fn law_an_ended_session_makes_way(
    model: DispatcherModel,
    source: SocketAddr,
    destination: SocketAddr,
    payload: Seq<u8>,
    queue: QueueModel,
)
    requires
        queue.wf(),
        queue.settled(),
        model.sessions.dom().contains(flow_of(source, destination)),
        model.sessions[flow_of(source, destination)].queue == queue.ended(),
    ensures
        model.dispatch(source, destination, payload) == (
        if illegal_call(flow_of(source, destination).destination, model.listener_port) {
            (model, Dispatched::Dropped(UdpDropReason::SelfRedirect))
        } else {
            DispatcherModel {
                sessions: model.sessions.remove(flow_of(source, destination)),
                ..model
            }.open_session(flow_of(source, destination), payload)
        }),
{
    law_an_ended_queue_is_closed(queue, payload.len());
}

/// While the listener drains, no session opens: no flow has one that had none.
pub proof fn law_draining_opens_nothing(model: DispatcherModel, datagrams: Seq<ReceivedDatagram>)
    requires
        model.draining,
    ensures
        dispatch_all(model, datagrams).opened.len() == 0,
        dispatch_all(model, datagrams).model.draining,
        dispatch_all(model, datagrams).model.sessions.dom().subset_of(model.sessions.dom()),
    decreases datagrams.len(),
{
    if datagrams.len() > 0 {
        law_draining_opens_nothing(model, datagrams.drop_last());
    }
}

/// Sessions never outnumber the limit.
pub proof fn law_session_limit(model: DispatcherModel, datagrams: Seq<ReceivedDatagram>)
    requires
        model.sessions.dom().finite(),
        model.sessions.dom().len() <= model.max_sessions,
    ensures
        ({
            let after = dispatch_all(model, datagrams).model;
            &&& after.sessions.dom().finite()
            &&& after.sessions.dom().len() <= after.max_sessions
            &&& after.max_sessions == model.max_sessions
        }),
    decreases datagrams.len(),
{
    if datagrams.len() > 0 {
        law_session_limit(model, datagrams.drop_last());
    }
}

/// A datagram leads back to the listener exactly where it is for the listener's port on
/// 127.0.0.0/8 or on `::1`.
pub proof fn law_calls_to_ourselves(destination: SocketAddr, listener_port: u16)
    ensures
        illegal_call(destination, listener_port) <==> match destination {
            SocketAddr::V4 { ip, port } => 0x7f00_0000 <= ip <= 0x7fff_ffff && port
                == listener_port,
            SocketAddr::V6 { ip, port, .. } => ip == 1 && port == listener_port,
        },
{
    law_loopback_addresses(destination.spec_ip());
}

/// A flow goes from its source to its destination, each in canonical form: an IPv4
/// address in IPv6 clothing is that IPv4 address.
pub proof fn law_flows_go_one_way(source: SocketAddr, destination: SocketAddr, v4: u32)
    ensures
        source is V4 ==> flow_of(source, destination).source == source,
        destination is V4 ==> flow_of(source, destination).destination == destination,
        source.spec_ip() == IpAddr::V6((0xffff_0000_0000 + v4) as u128) ==> flow_of(
            source,
            destination,
        ).source.spec_ip() == IpAddr::V4(v4),
        destination.spec_ip() == IpAddr::V6((0xffff_0000_0000 + v4) as u128) ==> flow_of(
            source,
            destination,
        ).destination.spec_ip() == IpAddr::V4(v4),
        flow_of(source, destination).source.spec_port() == source.spec_port(),
        flow_of(source, destination).destination.spec_port() == destination.spec_port(),
{
    law_canonical_address(source, v4);
    law_canonical_address(destination, v4);
}

/// What is for the listener itself is dropped, and nothing else for that reason. The
/// datagrams of a flow with a session go to the end of that session's queue while it has
/// room, and are dropped while it has none. Either way no other flow is touched.
pub proof fn law_datagrams_of_a_session(
    model: DispatcherModel,
    source: SocketAddr,
    destination: SocketAddr,
    payload: Seq<u8>,
    other: FlowKey,
)
    ensures
        ({
            let key = flow_of(source, destination);
            let (after, what) = model.dispatch(source, destination, payload);
            let queue = model.sessions[key].queue;
            &&& what == Dispatched::Dropped(UdpDropReason::SelfRedirect) <==> illegal_call(
                key.destination,
                model.listener_port,
            )
            &&& other != key ==> {
                &&& after.sessions.dom().contains(other) <==> model.sessions.dom().contains(other)
                &&& model.sessions.dom().contains(other) ==> after.sessions[other]
                    == model.sessions[other]
            }
            &&& what is Dropped ==> after.next_id == model.next_id
            &&& after.draining == model.draining
            &&& after.listener_port == model.listener_port
            &&& after.max_sessions == model.max_sessions
            &&& after.overflow_counter == model.overflow_counter
            &&& !illegal_call(key.destination, model.listener_port)
                && model.sessions.dom().contains(key) ==> {
                &&& queue.offer(payload.len()) is Queued ==> what is Queued
                    && after.sessions.dom().contains(key) && after.sessions[key].id
                    == model.sessions[key].id && after.sessions[key].queue.waiting
                    == queue.waiting.push(payload)
                &&& queue.offer(payload.len()) is Full ==> what == Dispatched::Dropped(
                    UdpDropReason::SessionQueue,
                ) && after == model
            }
        }),
{
}

/// A datagram of a flow without a session opens one, under a number of its own, in whose
/// queue it waits alone. While the listener drains, or has as many sessions as it may,
/// the datagram is dropped instead and nothing changes.
pub proof fn law_datagrams_open_sessions(
    model: DispatcherModel,
    source: SocketAddr,
    destination: SocketAddr,
    payload: Seq<u8>,
)
    requires
        !illegal_call(flow_of(source, destination).destination, model.listener_port),
        !model.sessions.dom().contains(flow_of(source, destination)),
    ensures
        ({
            let key = flow_of(source, destination);
            let (after, what) = model.dispatch(source, destination, payload);
            &&& model.draining ==> what == Dispatched::Dropped(UdpDropReason::Draining) && after
                == model
            &&& !model.draining && model.sessions.dom().len() >= model.max_sessions ==> what
                == Dispatched::Dropped(UdpDropReason::SessionLimit) && after == model
            &&& !model.draining && model.sessions.dom().len() < model.max_sessions ==> {
                &&& what == (Dispatched::Opened { id: model.next_id })
                &&& after.sessions.dom() == model.sessions.dom().insert(key)
                &&& after.sessions[key].id == model.next_id
                &&& after.sessions[key].queue.waiting == seq![payload]
                &&& !after.sessions[key].queue.closed
            }
        }),
{
    law_first_datagram_is_queued(model.max_datagrams as nat, model.max_bytes as nat, payload);
    assert(Seq::<Seq<u8>>::empty().push(payload) =~= seq![payload]);
}

/// The numbers of sessions go up one by one and start again behind the last.
pub proof fn law_numbers_of_sessions(id: u64)
    ensures
        next_number(id) == (id + 1) % 0x1_0000_0000_0000_0000,
        next_number(id) != id,
{
}

/// What was lost is told by its reason, where there is any: what was cut off, what had
/// no destination, and what the kernel dropped since its counter was last read. That
/// counter, moved on by what is told, stands where it was read, and wraps around.
pub proof fn law_losses_are_told(received: ReceivedDatagrams, overflow_counter: u32, n: u64)
    ensures
        losses(received, overflow_counter).contains((UdpDropReason::Truncated, n)) <==> n
            == received.truncated && n > 0,
        losses(received, overflow_counter).contains((UdpDropReason::MissingOriginalDestination, n))
            <==> n == received.missing_original_destination && n > 0,
        losses(received, overflow_counter).contains((UdpDropReason::KernelRxQueue, n)) ==> {
            &&& received.overflow_counter is Some
            &&& 0 < n < 0x1_0000_0000
            &&& (overflow_counter + n) % 0x1_0000_0000 == received.overflow_counter.unwrap()
        },
        received.overflow_counter matches Some(current) && current != overflow_counter && 0 < n
            < 0x1_0000_0000 && (overflow_counter + n) % 0x1_0000_0000 == current ==> losses(
            received,
            overflow_counter,
        ).contains((UdpDropReason::KernelRxQueue, n)),
        losses(received, overflow_counter).len() <= 3,
{
    let a = counted(UdpDropReason::Truncated, received.truncated as nat);
    let b = counted(
        UdpDropReason::MissingOriginalDestination,
        received.missing_original_destination as nat,
    );
    let c = match received.overflow_counter {
        Some(current) => counted(
            UdpDropReason::KernelRxQueue,
            ((current - overflow_counter) % 0x1_0000_0000) as nat,
        ),
        None => Seq::empty(),
    };
    let all = a + b + c;
    if received.truncated > 0 {
        assert(all[0] == (UdpDropReason::Truncated, received.truncated));
    }
    if received.missing_original_destination > 0 {
        assert(all[a.len() as int] == (
            UdpDropReason::MissingOriginalDestination,
            received.missing_original_destination,
        ));
    }
    if c.len() > 0 {
        assert(all[a.len() as int + b.len()] == c[0]);
    }
    assert forall|i: int| 0 <= i < all.len() implies #[trigger] all[i] == a[i] || all[i] == b[i
        - a.len()] || all[i] == c[i - a.len() - b.len()] by {}
    if all.contains((UdpDropReason::Truncated, n)) {
        let i = choose|i: int| 0 <= i < all.len() && all[i] == (UdpDropReason::Truncated, n);
        assert(i < a.len());
    }
    if all.contains((UdpDropReason::MissingOriginalDestination, n)) {
        let i = choose|i: int|
            0 <= i < all.len() && all[i] == (UdpDropReason::MissingOriginalDestination, n);
        assert(a.len() <= i < a.len() + b.len());
    }
    if all.contains((UdpDropReason::KernelRxQueue, n)) {
        let i = choose|i: int| 0 <= i < all.len() && all[i] == (UdpDropReason::KernelRxQueue, n);
        assert(i == a.len() + b.len());
    }
}

/// The bytes of datagrams are counted together, whichever come first.
pub proof fn law_bytes_are_counted(a: Seq<ReceivedDatagram>, b: Seq<ReceivedDatagram>, one: ReceivedDatagram)
    ensures
        received_bytes(a + b) == received_bytes(a) + received_bytes(b),
        received_bytes(seq![one]) == frozen_bytes(one.payload).len(),
    decreases b.len(),
{
    assert(seq![one].drop_last() =~= Seq::empty());
    reveal_with_fuel(received_bytes, 2);
    if b.len() == 0 {
        assert(a + b =~= a);
    } else {
        law_bytes_are_counted(a, b.drop_last(), one);
        assert((a + b).drop_last() =~= a + b.drop_last());
    }
}

/// Datagrams come to the same whether they come in one go or in two.
pub proof fn law_datagrams_are_taken_in_turn(
    model: DispatcherModel,
    a: Seq<ReceivedDatagram>,
    b: Seq<ReceivedDatagram>,
)
    ensures
        ({
            let first = dispatch_all(model, a);
            let second = dispatch_all(first.model, b);
            let both = dispatch_all(model, a + b);
            &&& both.model == second.model
            &&& both.drops == first.drops + second.drops
            &&& both.opened == first.opened + second.opened
        }),
    decreases b.len(),
{
    let first = dispatch_all(model, a);
    if b.len() == 0 {
        assert(a + b =~= a);
        assert(first.drops + Seq::<UdpDropReason>::empty() =~= first.drops);
        assert(first.opened + Seq::<(FlowKey, u64)>::empty() =~= first.opened);
    } else {
        law_datagrams_are_taken_in_turn(model, a, b.drop_last());
        assert((a + b).drop_last() =~= a + b.drop_last());
        let second = dispatch_all(first.model, b);
        let both = dispatch_all(model, a + b);
        assert(both.drops =~= first.drops + second.drops);
        assert(both.opened =~= first.opened + second.opened);
    }
}

} // verus!
