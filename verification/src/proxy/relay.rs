//! A UDP session: what it reports, what it counts, and how it ends.

use vstd::prelude::*;

use super::outbound_udp::UdpDropReason;
use super::sessions::FlowKey;
use crate::bytebuf::{frozen_bytes, frozen_from};
use crate::capsule::{feed, payloads, CapsuleError, Decoder};
use crate::net::SocketAddr;
use crate::table::{Table, TableKey};

verus! {

/// How long a session may take to be established, in seconds.
pub const SESSION_ESTABLISH_TIMEOUT_SECS: u64 = 10;

/// The longest payload that an IPv4 datagram can carry.
pub const MAX_IPV4_PAYLOAD: usize = 65_507;

/// The longest payload that an IPv6 datagram can carry.
pub const MAX_IPV6_PAYLOAD: usize = 65_527;

/// Linux's error for a message that is too long.
pub const EMSGSIZE: i32 = 90;

/// Linux's error for want of buffer space.
pub const ENOBUFS: i32 = 105;

/// How a session ended.
#[derive(Clone, Copy, Debug, PartialEq, Eq, Structural)]
pub enum EndReason {
    Cancelled,
    SessionQueueFull,
    ForceShutdown,
    EstablishmentError,
    EstablishmentTimeout,
    ResponseSocketError,
    CapsuleEncodeError,
    HboneWriteTimeout,
    HboneWriteError,
    HboneReadError,
    PeerClosed,
    CapsuleDecodeError,
    ResponseSendError,
    IdleTimeout,
}

impl EndReason {
    /// The word for it in the access log.
    pub open spec fn word(self) -> Seq<char> {
        match self {
            EndReason::Cancelled => "cancelled"@,
            EndReason::SessionQueueFull => "session_queue_full"@,
            EndReason::ForceShutdown => "force_shutdown"@,
            EndReason::EstablishmentError => "establishment_error"@,
            EndReason::EstablishmentTimeout => "establishment_timeout"@,
            EndReason::ResponseSocketError => "response_socket_error"@,
            EndReason::CapsuleEncodeError => "capsule_encode_error"@,
            EndReason::HboneWriteTimeout => "hbone_write_timeout"@,
            EndReason::HboneWriteError => "hbone_write_error"@,
            EndReason::HboneReadError => "hbone_read_error"@,
            EndReason::PeerClosed => "peer_closed"@,
            EndReason::CapsuleDecodeError => "capsule_decode_error"@,
            EndReason::ResponseSendError => "response_send_error"@,
            EndReason::IdleTimeout => "idle_timeout"@,
        }
    }

    /// The word for it in the access log.
    pub fn text(self) -> (r: String)
        ensures
            r@ == self.word(),
    {
        match self {
            EndReason::Cancelled => "cancelled".to_owned(),
            EndReason::SessionQueueFull => "session_queue_full".to_owned(),
            EndReason::ForceShutdown => "force_shutdown".to_owned(),
            EndReason::EstablishmentError => "establishment_error".to_owned(),
            EndReason::EstablishmentTimeout => "establishment_timeout".to_owned(),
            EndReason::ResponseSocketError => "response_socket_error".to_owned(),
            EndReason::CapsuleEncodeError => "capsule_encode_error".to_owned(),
            EndReason::HboneWriteTimeout => "hbone_write_timeout".to_owned(),
            EndReason::HboneWriteError => "hbone_write_error".to_owned(),
            EndReason::HboneReadError => "hbone_read_error".to_owned(),
            EndReason::PeerClosed => "peer_closed".to_owned(),
            EndReason::CapsuleDecodeError => "capsule_decode_error".to_owned(),
            EndReason::ResponseSendError => "response_send_error".to_owned(),
            EndReason::IdleTimeout => "idle_timeout".to_owned(),
        }
    }
}

/// Datagrams in one direction: how many, and how many bytes they carried.
#[derive(Clone, Copy, Debug, PartialEq, Eq, Structural)]
pub struct DatagramTotals {
    pub packets: u64,
    pub bytes: u64,
}

/// What the access log says of one session. The bytes are those of UDP payloads:
/// of whole batches that the stream has taken, and of replies that were sent.
#[derive(Clone, Copy, Debug, PartialEq, Eq, Structural)]
pub struct SessionLog {
    pub key: FlowKey,
    pub id: u64,
    pub gateway: Option<SocketAddr>,
    pub sent: DatagramTotals,
    pub received: DatagramTotals,
    pub end_reason: EndReason,
}

impl SessionLog {
    /// The log of a session that has done nothing; unless another end is noted, it
    /// was cancelled.
    pub fn new(key: FlowKey, id: u64) -> (r: Self)
        ensures
            r == (SessionLog {
                key,
                id,
                gateway: None,
                sent: DatagramTotals { packets: 0, bytes: 0 },
                received: DatagramTotals { packets: 0, bytes: 0 },
                end_reason: EndReason::Cancelled,
            }),
    {
        SessionLog {
            key,
            id,
            gateway: None,
            sent: DatagramTotals { packets: 0, bytes: 0 },
            received: DatagramTotals { packets: 0, bytes: 0 },
            end_reason: EndReason::Cancelled,
        }
    }

    /// The gateway in text, or `unknown`.
    pub fn gateway_text(&self) -> (r: String)
        ensures
            r@ == (match self.gateway {
                Some(gateway) => gateway.shown(),
                None => "unknown"@,
            }),
    {
        match self.gateway {
            Some(gateway) => gateway.text(),
            None => "unknown".to_owned(),
        }
    }
}

/// How the attempt to establish a session came out.
#[derive(Clone, Copy, Debug, PartialEq, Eq, Structural)]
pub enum Establishment {
    Established,
    Failed,
    TimedOut,
}

/// What an attempt to establish a session leads to, where it failed.
pub open spec fn end_of_establishment(outcome: Establishment) -> Option<(EndReason, UdpDropReason)> {
    match outcome {
        Establishment::Established => None,
        Establishment::Failed => Some(
            (EndReason::EstablishmentError, UdpDropReason::SessionEstablishment),
        ),
        Establishment::TimedOut => Some(
            (EndReason::EstablishmentTimeout, UdpDropReason::SessionEstablishment),
        ),
    }
}

/// What a failed attempt to establish a session leads to: how the session ends,
/// and as what the datagrams that still wait are counted.
pub fn after_establishment(outcome: Establishment) -> (r: Option<(EndReason, UdpDropReason)>)
    ensures
        r == end_of_establishment(outcome),
{
    match outcome {
        Establishment::Established => None,
        Establishment::Failed => Some(
            (EndReason::EstablishmentError, UdpDropReason::SessionEstablishment),
        ),
        Establishment::TimedOut => Some(
            (EndReason::EstablishmentTimeout, UdpDropReason::SessionEstablishment),
        ),
    }
}

/// Whether a reply fits a datagram of the client's address family.
pub open spec fn fits(source: SocketAddr, len: nat) -> bool {
    len <= (if source is V4 {
        MAX_IPV4_PAYLOAD
    } else {
        MAX_IPV6_PAYLOAD
    })
}

/// Whether a reply fits a datagram of the client's address family.
pub fn response_fits(source: &SocketAddr, len: usize) -> (r: bool)
    ensures
        r == fits(*source, len as nat),
{
    len <= (if source.is_ipv4() {
        MAX_IPV4_PAYLOAD
    } else {
        MAX_IPV6_PAYLOAD
    })
}

/// The kinds of failure to send that pass.
#[derive(Clone, Copy, Debug, PartialEq, Eq, Structural)]
pub enum SendErrorKind {
    Interrupted,
    WouldBlock,
    Other,
}

/// Whether a failure to send a reply ends the session.
pub open spec fn is_fatal(raw_os_error: Option<i32>, kind: SendErrorKind) -> bool {
    !(raw_os_error == Some(EMSGSIZE) || raw_os_error == Some(ENOBUFS) || kind is Interrupted || kind
        is WouldBlock)
}

/// Whether a failure to send a reply ends the session. One that concerns the
/// datagram's size or a want of buffers does not: the socket is still good for
/// other replies.
pub fn send_error_is_fatal(raw_os_error: Option<i32>, kind: SendErrorKind) -> (r: bool)
    ensures
        r == is_fatal(raw_os_error, kind),
{
    let size_or_buffers: bool = match raw_os_error {
        Some(code) => code == EMSGSIZE || code == ENOBUFS,
        None => false,
    };
    let passing: bool = match kind {
        SendErrorKind::Interrupted => true,
        SendErrorKind::WouldBlock => true,
        SendErrorKind::Other => false,
    };
    !size_or_buffers && !passing
}

/// What happened to a session that relays; where it counts, when.
#[derive(Clone, Copy, Debug, PartialEq, Eq, Structural)]
pub enum RelayEvent {
    /// The stream was opened.
    Opened { now: u64 },
    /// A batch is about to be written to the stream.
    BatchStarted { datagrams: u64, now: u64 },
    /// The stream has taken the whole batch.
    BatchWritten { payload_bytes: u64, now: u64 },
    /// The next batch could not be encoded.
    EncodeFailed,
    /// The stream did not take the batch in time.
    WriteTimedOut,
    /// The stream failed while it took the batch.
    WriteFailed,
    /// The stream failed while it was read.
    ReadFailed,
    /// The peer closed the stream.
    PeerClosed,
    /// A reply is about to be sent to the client.
    ResponseStarted { now: u64 },
    /// A reply was sent to the client.
    ResponseSent { bytes: u64 },
    /// A reply could not be sent, and no other can.
    ResponseFailed,
    /// Nothing happened for too long.
    IdleTimedOut,
}

/// Where a session that relays stands.
#[derive(Clone, Copy, Debug, PartialEq, Eq, Structural)]
pub struct RelayState {
    /// How many datagrams the batch has that is being written.
    pub in_flight: u64,
    pub sent: DatagramTotals,
    pub received: DatagramTotals,
    /// When something was last relayed, in either direction.
    pub last_activity: u64,
    /// Since when the batch is being written, while one is.
    pub writing_since: Option<u64>,
    /// How the session ended, once it has.
    pub ended: Option<EndReason>,
}

impl RelayState {
    /// The state after an event. Nothing happens to a session that has ended.
    pub open spec fn after(self, event: RelayEvent) -> RelayState {
        if self.ended.is_some() {
            self
        } else {
            match event {
                RelayEvent::Opened { now } => RelayState { last_activity: now, ..self },
                RelayEvent::BatchStarted { datagrams, now } => RelayState {
                    in_flight: datagrams,
                    last_activity: now,
                    writing_since: Some(now),
                    ..self
                },
                RelayEvent::BatchWritten { payload_bytes, now } => RelayState {
                    in_flight: 0,
                    last_activity: now,
                    writing_since: None,
                    sent: DatagramTotals {
                        packets: (self.sent.packets + self.in_flight) as u64,
                        bytes: (self.sent.bytes + payload_bytes) as u64,
                    },
                    ..self
                },
                RelayEvent::ResponseStarted { now } => RelayState { last_activity: now, ..self },
                RelayEvent::ResponseSent { bytes } => RelayState {
                    received: DatagramTotals {
                        packets: (self.received.packets + 1) as u64,
                        bytes: (self.received.bytes + bytes) as u64,
                    },
                    ..self
                },
                RelayEvent::EncodeFailed => RelayState {
                    ended: Some(EndReason::CapsuleEncodeError),
                    ..self
                },
                RelayEvent::WriteTimedOut => RelayState {
                    ended: Some(EndReason::HboneWriteTimeout),
                    ..self
                },
                RelayEvent::WriteFailed => RelayState {
                    ended: Some(EndReason::HboneWriteError),
                    ..self
                },
                RelayEvent::ReadFailed => RelayState {
                    ended: Some(EndReason::HboneReadError),
                    ..self
                },
                RelayEvent::PeerClosed => RelayState { ended: Some(EndReason::PeerClosed), ..self },
                RelayEvent::ResponseFailed => RelayState {
                    ended: Some(EndReason::ResponseSendError),
                    ..self
                },
                RelayEvent::IdleTimedOut => RelayState {
                    ended: Some(EndReason::IdleTimeout),
                    ..self
                },
            }
        }
    }

    /// What the access log says of the session in the end, and how many datagrams were
    /// lost in a batch that was not written whole.
    pub open spec fn finished(self, log: SessionLog) -> (SessionLog, u64) {
        (
            SessionLog {
                sent: self.sent,
                received: self.received,
                end_reason: match self.ended {
                    Some(reason) => reason,
                    None => log.end_reason,
                },
                ..log
            },
            match self.ended {
                Some(_) => self.in_flight,
                None => 0,
            },
        )
    }

    /// The counters can take the event.
    pub open spec fn has_room_for(self, event: RelayEvent) -> bool {
        match event {
            RelayEvent::BatchWritten { payload_bytes, .. } => self.sent.packets + self.in_flight
                <= u64::MAX && self.sent.bytes + payload_bytes <= u64::MAX,
            RelayEvent::ResponseSent { bytes } => self.received.packets < u64::MAX
                && self.received.bytes + bytes <= u64::MAX,
            _ => true,
        }
    }

    /// How the session runs out of time, where it has: the stream has not taken a batch
    /// within the limit, whatever came back meanwhile, or nothing was relayed for that
    /// long.
    pub open spec fn overdue(self, now: u64, limit: u64) -> Option<RelayEvent> {
        if self.writing_since matches Some(start) && now >= start + limit {
            Some(RelayEvent::WriteTimedOut)
        } else if now >= self.last_activity + limit {
            Some(RelayEvent::IdleTimedOut)
        } else {
            None
        }
    }
}

/// A session that relays datagrams between a client and a stream of capsules.
pub struct Relay {
    source: SocketAddr,
    decoder: Decoder,
    state: RelayState,
}

/// What was read off the stream.
pub struct ReadReport {
    /// The replies for the client, in order; each fits a datagram.
    pub replies: Vec<bytes::Bytes>,
    /// How many replies were too long for a datagram.
    pub oversized: u64,
}

/// The replies that fit a datagram of the client's address family.
pub open spec fn fitting(source: SocketAddr, replies: Seq<Seq<u8>>) -> Seq<Seq<u8>>
    decreases replies.len(),
{
    if replies.len() == 0 {
        Seq::empty()
    } else {
        let before = fitting(source, replies.drop_last());
        if fits(source, replies.last().len()) {
            before.push(replies.last())
        } else {
            before
        }
    }
}

impl Relay {
    /// Where the session stands.
    pub closed spec fn state(self) -> RelayState {
        self.state
    }

    /// The client.
    pub closed spec fn client(self) -> SocketAddr {
        self.source
    }

    /// The reader of the stream.
    pub closed spec fn reader(self) -> Decoder {
        self.decoder
    }

    /// What bytes of the stream make of the session, and what there is to report.
    pub open spec fn has_read(
        self,
        after: Self,
        chunk: Seq<u8>,
        now: u64,
        report: Option<ReadReport>,
    ) -> bool {
        let outcome = feed(self.reader().held(), self.reader().skip(), chunk);
        let fit = fitting(self.client(), outcome.datagrams);
        if chunk.len() == 0 {
            &&& report.is_none()
            &&& after.state() == self.state().after(RelayEvent::PeerClosed)
            &&& after.reader() == self.reader()
        } else if outcome.failed.is_some() {
            &&& report.is_none()
            &&& after.state() == (RelayState {
                ended: Some(EndReason::CapsuleDecodeError),
                ..self.state()
            })
        } else {
            &&& after.state() == (RelayState {
                last_activity: if outcome.datagrams.len() > 0 {
                    now
                } else {
                    self.state().last_activity
                },
                ..self.state()
            })
            &&& after.reader().held() == outcome.rest
            &&& after.reader().skip() == outcome.skip
            &&& report matches Some(report) && payloads(report.replies@) == fit
                && report.oversized == outcome.dropped + outcome.datagrams.len() - fit.len()
        }
    }

    /// The reader is in order and has nothing to report that was not reported.
    pub open spec fn wf(self) -> bool {
        self.reader().wf() && self.reader().dropped() == 0
    }

    /// A session that has relayed nothing yet.
    pub fn new(source: SocketAddr, now: u64) -> (r: Self)
        ensures
            r.wf(),
            r.client() == source,
            r.reader().held() == Seq::<u8>::empty(),
            r.reader().skip() == 0,
            r.state() == (RelayState {
                in_flight: 0,
                sent: DatagramTotals { packets: 0, bytes: 0 },
                received: DatagramTotals { packets: 0, bytes: 0 },
                last_activity: now,
                writing_since: None,
                ended: None,
            }),
    {
        Relay {
            source,
            decoder: Decoder::default(),
            state: RelayState {
                in_flight: 0,
                sent: DatagramTotals { packets: 0, bytes: 0 },
                received: DatagramTotals { packets: 0, bytes: 0 },
                last_activity: now,
                writing_since: None,
                ended: None,
            },
        }
    }

    /// Where the session stands.
    pub fn current(&self) -> (r: RelayState)
        ensures
            r == self.state(),
    {
        self.state
    }

    /// Takes note of an event.
    pub fn note(&mut self, event: RelayEvent)
        requires
            old(self).state().has_room_for(event),
        ensures
            final(self).state() == old(self).state().after(event),
            final(self).client() == old(self).client(),
            final(self).reader() == old(self).reader(),
    {
        if self.state.ended.is_some() {
            return;
        }
        match event {
            RelayEvent::Opened { now } => {
                self.state.last_activity = now;
            },
            RelayEvent::BatchStarted { datagrams, now } => {
                self.state.in_flight = datagrams;
                self.state.last_activity = now;
                self.state.writing_since = Some(now);
            },
            RelayEvent::BatchWritten { payload_bytes, now } => {
                self.state.sent = DatagramTotals {
                    packets: self.state.sent.packets + self.state.in_flight,
                    bytes: self.state.sent.bytes + payload_bytes,
                };
                self.state.in_flight = 0;
                self.state.last_activity = now;
                self.state.writing_since = None;
            },
            RelayEvent::ResponseStarted { now } => {
                self.state.last_activity = now;
            },
            RelayEvent::ResponseSent { bytes } => {
                self.state.received = DatagramTotals {
                    packets: self.state.received.packets + 1,
                    bytes: self.state.received.bytes + bytes,
                };
            },
            RelayEvent::EncodeFailed => {
                self.state.ended = Some(EndReason::CapsuleEncodeError);
            },
            RelayEvent::WriteTimedOut => {
                self.state.ended = Some(EndReason::HboneWriteTimeout);
            },
            RelayEvent::WriteFailed => {
                self.state.ended = Some(EndReason::HboneWriteError);
            },
            RelayEvent::ReadFailed => {
                self.state.ended = Some(EndReason::HboneReadError);
            },
            RelayEvent::PeerClosed => {
                self.state.ended = Some(EndReason::PeerClosed);
            },
            RelayEvent::ResponseFailed => {
                self.state.ended = Some(EndReason::ResponseSendError);
            },
            RelayEvent::IdleTimedOut => {
                self.state.ended = Some(EndReason::IdleTimeout);
            },
        }
    }

    /// Whether that many bytes can be taken in: the session has not ended, and memory
    /// can hold them together with those held back.
    pub fn can_read(&self, len: usize) -> (r: bool)
        ensures
            r == (self.state().ended.is_none() && self.reader().held().len() + len
                <= isize::MAX),
    {
        let held: usize = self.decoder.held_len();
        self.state.ended.is_none() && held <= isize::MAX as usize && len <= isize::MAX as usize
            - held
    }

    /// Takes in bytes that were read off the stream and returns the replies that
    /// they complete. No bytes at all mean that the peer closed the stream; bytes
    /// that are no capsules end the session; bytes that complete no reply are no
    /// activity.
    pub fn read(&mut self, chunk: &[u8], now: u64) -> (r: Option<ReadReport>)
        requires
            old(self).wf(),
            old(self).state().ended.is_none(),
            old(self).reader().held().len() + chunk@.len() <= isize::MAX,
        ensures
            final(self).wf(),
            final(self).client() == old(self).client(),
            old(self).has_read(*final(self), chunk@, now, r),
    {
        if chunk.len() == 0 {
            self.note(RelayEvent::PeerClosed);
            return None;
        }
        let ghost outcome = feed(self.decoder.held(), self.decoder.skip(), chunk@);
        proof {
            lemma_feed_bound(self.decoder.held(), self.decoder.skip(), chunk@);
        }
        let pushed: Result<Vec<bytes::Bytes>, CapsuleError> = self.decoder.push(chunk);
        let dropped: u64 = self.decoder.take_dropped_oversized();
        match pushed {
            Err(_) => {
                self.state.ended = Some(EndReason::CapsuleDecodeError);
                None
            },
            Ok(datagrams) => {
                let ghost all = payloads(datagrams@);
                assert(all.len() == datagrams@.len());
                if datagrams.len() > 0 {
                    self.state.last_activity = now;
                }
                let mut replies: Vec<bytes::Bytes> = Vec::new();
                let mut oversized: u64 = dropped;
                let mut i: usize = 0;
                assert(payloads(replies@) =~= fitting(self.source, all.take(0)));
                while i < datagrams.len()
                    invariant
                        i <= datagrams@.len(),
                        all == payloads(datagrams@),
                        payloads(replies@) == fitting(self.source, all.take(i as int)),
                        replies@.len() <= i,
                        oversized == dropped + i - replies@.len(),
                        dropped + all.len() <= u64::MAX,
                    decreases datagrams@.len() - i,
                {
                    proof {
                        assert(all.take(i + 1).drop_last() =~= all.take(i as int));
                        assert(all.take(i + 1).last() == frozen_bytes(datagrams@[i as int]));
                    }
                    if response_fits(&self.source, datagrams[i].len()) {
                        let ghost before = payloads(replies@);
                        let reply: bytes::Bytes = frozen_from(&datagrams[i], 0);
                        assert(frozen_bytes(reply) =~= frozen_bytes(datagrams@[i as int]));
                        replies.push(reply);
                        assert(payloads(replies@) =~= before.push(frozen_bytes(reply)));
                    } else {
                        oversized = oversized + 1;
                    }
                    i = i + 1;
                }
                assert(all.take(i as int) =~= all);
                assert(payloads(replies@).len() == replies@.len());
                Some(ReadReport { replies, oversized })
            },
        }
    }

    /// When the session ends unless something is relayed before.
    pub fn idle_deadline(&self, limit: u64) -> (r: u64)
        requires
            self.state().last_activity + limit <= u64::MAX,
        ensures
            r == self.state().last_activity + limit,
    {
        self.state.last_activity + limit
    }

    /// When the session ends unless the stream has taken the batch before that is
    /// being written.
    pub fn write_deadline(&self, limit: u64) -> (r: Option<u64>)
        requires
            self.state().writing_since matches Some(start) ==> start + limit <= u64::MAX,
        ensures
            r == (match self.state().writing_since {
                Some(start) => Some((start + limit) as u64),
                None => None,
            }),
    {
        match self.state.writing_since {
            Some(start) => Some(start + limit),
            None => None,
        }
    }

    /// How the session runs out of time, where it has.
    pub fn overdue(&self, now: u64, limit: u64) -> (r: Option<RelayEvent>)
        ensures
            r == self.state().overdue(now, limit),
    {
        if let Some(start) = self.state.writing_since {
            if now >= start && now - start >= limit {
                return Some(RelayEvent::WriteTimedOut);
            }
        }
        let last: u64 = self.state.last_activity;
        if now >= last && now - last >= limit {
            Some(RelayEvent::IdleTimedOut)
        } else {
            None
        }
    }

    /// The session's part of the access log, and how many datagrams were lost in a
    /// batch that was not written whole. A session that was cancelled before it ended
    /// keeps the reason that the log had, and counts no such loss.
    pub fn finish(&self, log: SessionLog) -> (r: (SessionLog, u64))
        ensures
            r == self.state().finished(log),
    {
        let mut out: SessionLog = log;
        out.sent = self.state.sent;
        out.received = self.state.received;
        match self.state.ended {
            Some(reason) => {
                out.end_reason = reason;
                (out, self.state.in_flight)
            },
            None => (out, 0),
        }
    }
}

/// What a decoder delivers and drops is no more than the bytes that it was given.
proof fn lemma_feed_bound(held: Seq<u8>, skip: nat, chunk: Seq<u8>)
    ensures
        feed(held, skip, chunk).dropped + feed(held, skip, chunk).datagrams.len() <= held.len()
            + chunk.len(),
{
    if skip <= chunk.len() {
        lemma_drain_bound(held + chunk.skip(skip as int));
    }
}

proof fn lemma_drain_bound(s: Seq<u8>)
    ensures
        crate::capsule::drain(s).dropped + crate::capsule::drain(s).datagrams.len() <= s.len(),
    decreases s.len(),
{
    reveal(crate::capsule::header);
    match crate::capsule::step(s) {
        crate::capsule::Step::Discard { header, body, .. } => {
            if s.len() >= header + body {
                lemma_drain_bound(s.skip((header + body) as int));
            }
        },
        crate::capsule::Step::Datagram { header, body } => {
            lemma_drain_bound(s.skip((header + body) as int));
        },
        _ => {},
    }
}

/// A session that has ended stays as it is.
pub proof fn law_ended_session_stays(state: RelayState, event: RelayEvent)
    requires
        state.ended.is_some(),
    ensures
        state.after(event) == state,
{
}

/// A batch counts as sent only once it was written whole: until then, and where
/// the session ends before that, the totals stay as they were.
pub proof fn law_partial_batch_does_not_count(state: RelayState, event: RelayEvent)
    ensures
        event !is BatchWritten ==> state.after(event).sent == state.sent,
        event !is ResponseSent ==> state.after(event).received == state.received,
{
}

/// What the peer sends does not help a batch that the stream does not take: only a
/// batch that begins or that was written moves the time by which it has to be.
pub proof fn law_replies_do_not_extend_a_write(state: RelayState, event: RelayEvent)
    requires
        event !is BatchStarted,
        event !is BatchWritten,
    ensures
        state.after(event).writing_since == state.writing_since,
{
}

/// A session is kept open as long as something is relayed: right after a batch began
/// or was written, or a reply came, it is not idle.
pub proof fn law_activity_keeps_a_session(state: RelayState, event: RelayEvent, now: u64, limit: u64)
    requires
        state.ended.is_none(),
        limit > 0,
        match event {
            RelayEvent::Opened { now: t } | RelayEvent::BatchStarted { now: t, .. }
            | RelayEvent::BatchWritten { now: t, .. } | RelayEvent::ResponseStarted { now: t } => t
                == now,
            _ => false,
        },
    ensures
        state.after(event).overdue(now, limit) != Some(RelayEvent::IdleTimedOut),
        now + limit <= u64::MAX && state.after(event).writing_since is None
            ==> state.after(event).overdue((now + limit) as u64, limit) == Some(
            RelayEvent::IdleTimedOut,
        ),
{
}

/// What is left to write after the stream took some bytes; nothing, where it took
/// none, which is an error.
pub fn after_write(rest: &bytes::Bytes, written: usize) -> (r: Option<bytes::Bytes>)
    requires
        written <= frozen_bytes(*rest).len(),
    ensures
        r.is_some() == (written > 0),
        r matches Some(left) ==> frozen_bytes(left) == frozen_bytes(*rest).skip(written as int),
{
    if written == 0 {
        None
    } else {
        Some(frozen_from(rest, written))
    }
}

/// The sockets and their users with one more user of the destination's.
pub open spec fn acquired(pool: Map<SocketAddr, usize>, destination: SocketAddr) -> Map<
    SocketAddr,
    usize,
> {
    pool.insert(
        destination,
        if pool.dom().contains(destination) {
            (pool[destination] + 1) as usize
        } else {
            1
        },
    )
}

/// The sockets and their users with one user less of the destination's, which goes with
/// the last of them.
pub open spec fn released(pool: Map<SocketAddr, usize>, destination: SocketAddr) -> Map<
    SocketAddr,
    usize,
> {
    if pool[destination] == 1 {
        pool.remove(destination)
    } else {
        pool.insert(destination, (pool[destination] - 1) as usize)
    }
}

/// How many sessions share the socket that answers for a destination. Sharing
/// avoids thousands of identical binds, which would make the kernel search a long
/// chain for every datagram.
pub struct ResponseSocketPool {
    users: Table<SocketAddr, usize>,
}

impl View for ResponseSocketPool {
    type V = Map<SocketAddr, usize>;

    closed spec fn view(&self) -> Map<SocketAddr, usize> {
        self.users@
    }
}

impl ResponseSocketPool {
    /// No socket is open without a user.
    pub open spec fn wf(self) -> bool {
        forall|d: SocketAddr| #[trigger] self@.dom().contains(d) ==> self@[d] > 0
    }

    /// A pool without sockets.
    pub fn new() -> (r: Self)
        ensures
            r.wf(),
            r@ == Map::<SocketAddr, usize>::empty(),
    {
        ResponseSocketPool { users: Table::new() }
    }

    /// Whether a socket is open for the destination; where none is, the next user
    /// has to open one first.
    pub fn is_open(&self, destination: &SocketAddr) -> (r: bool)
        ensures
            r == self@.dom().contains(*destination),
    {
        self.users.get(destination).is_some()
    }

    /// How many users the destination's socket has.
    pub fn users(&self, destination: &SocketAddr) -> (r: usize)
        ensures
            r == (if self@.dom().contains(*destination) {
                self@[*destination]
            } else {
                0
            }),
    {
        match self.users.get(destination) {
            Some(users) => *users,
            None => 0,
        }
    }

    /// How many sockets are open.
    pub fn len(&self) -> (r: usize)
        ensures
            r == self@.dom().len(),
    {
        self.users.len()
    }

    /// Notes one more user of the destination's socket.
    pub fn acquire(&mut self, destination: SocketAddr)
        requires
            old(self).wf(),
            old(self)@.dom().contains(destination) ==> old(self)@[destination] < usize::MAX,
        ensures
            final(self).wf(),
            final(self)@ == acquired(old(self)@, destination),
    {
        let users: usize = match self.users.get(&destination) {
            Some(users) => *users,
            None => 0,
        };
        let _previous: Option<usize> = self.users.insert(destination, users + 1);
    }

    /// Notes that a user has left; true, where it was the last one, with whom the
    /// socket goes.
    pub fn release(&mut self, destination: SocketAddr) -> (r: bool)
        requires
            old(self).wf(),
            old(self)@.dom().contains(destination),
        ensures
            final(self).wf(),
            r == (old(self)@[destination] == 1),
            final(self)@ == released(old(self)@, destination),
    {
        let users: usize = match self.users.get(&destination) {
            Some(users) => *users,
            None => 1,
        };
        if users == 1 {
            let _last: Option<usize> = self.users.remove(&destination);
            true
        } else {
            let _previous: Option<usize> = self.users.insert(destination, users - 1);
            false
        }
    }
}

/// A user that comes and leaves again leaves the pool as it was.
pub proof fn law_acquire_then_release(pool: Map<SocketAddr, usize>, destination: SocketAddr)
    requires
        forall|d: SocketAddr| #[trigger] pool.dom().contains(d) ==> pool[d] > 0,
        pool.dom().contains(destination) ==> pool[destination] < usize::MAX,
    ensures
        released(acquired(pool, destination), destination) == pool,
{
    assert(released(acquired(pool, destination), destination) =~= pool);
}

/// One more user of a destination's socket counts one more there, opens the socket where
/// it was the first, and touches no other; one that leaves counts one less and closes it
/// where it was the last.
pub proof fn law_users_are_counted(
    pool: Map<SocketAddr, usize>,
    destination: SocketAddr,
    other: SocketAddr,
)
    requires
        pool.dom().contains(destination) ==> 0 < pool[destination] < usize::MAX,
    ensures
        acquired(pool, destination).dom().contains(destination),
        pool.dom().contains(destination) ==> acquired(pool, destination)[destination]
            == pool[destination] + 1,
        !pool.dom().contains(destination) ==> acquired(pool, destination)[destination] == 1,
        pool.dom().contains(destination) ==> (released(pool, destination).dom().contains(
            destination,
        ) <==> pool[destination] > 1),
        pool.dom().contains(destination) && pool[destination] > 1 ==> released(
            pool,
            destination,
        )[destination] == pool[destination] - 1,
        other != destination ==> {
            &&& acquired(pool, destination).dom().contains(other) <==> pool.dom().contains(other)
            &&& acquired(pool, destination)[other] == pool[other]
            &&& pool.dom().contains(destination) ==> (released(pool, destination).dom().contains(
                other,
            ) <==> pool.dom().contains(other)) && released(pool, destination)[other] == pool[other]
        },
{
}

/// A reply of up to 65507 bytes fits a datagram over IPv4 and one of up to 65527 over
/// IPv6.
pub proof fn law_replies_that_fit(source: SocketAddr, len: nat)
    ensures
        source is V4 ==> (fits(source, len) <==> len <= 65_507),
        source is V6 ==> (fits(source, len) <==> len <= 65_527),
{
}

/// Of the replies those that fit are kept, in their order, and no others.
pub proof fn law_fitting_replies_keep_their_order(
    source: SocketAddr,
    a: Seq<Seq<u8>>,
    b: Seq<Seq<u8>>,
    one: Seq<u8>,
)
    ensures
        fitting(source, a + b) == fitting(source, a) + fitting(source, b),
        fits(source, one.len()) ==> fitting(source, seq![one]) == seq![one],
        !fits(source, one.len()) ==> fitting(source, seq![one]).len() == 0,
    decreases b.len(),
{
    assert(seq![one].drop_last() =~= Seq::empty());
    reveal_with_fuel(fitting, 2);
    assert(fits(source, one.len()) ==> fitting(source, seq![one]) =~= seq![one]);
    if b.len() == 0 {
        assert(a + b =~= a);
        assert(fitting(source, a) + fitting(source, b) =~= fitting(source, a));
    } else {
        law_fitting_replies_keep_their_order(source, a, b.drop_last(), one);
        assert((a + b).drop_last() =~= a + b.drop_last());
        assert(fitting(source, a + b) =~= fitting(source, a) + fitting(source, b));
    }
}

/// A failure to send passes exactly where the call was interrupted or would have had to
/// wait, or where the system says that the message is too long, which is number 90, or
/// that buffers are wanting, which is number 105.
pub proof fn law_failures_that_pass(raw_os_error: Option<i32>, kind: SendErrorKind)
    ensures
        is_fatal(raw_os_error, kind) <==> {
            &&& kind is Other
            &&& raw_os_error != Some(90i32)
            &&& raw_os_error != Some(105i32)
        },
{
}

/// A session that was not established ends by that name, late or failed, and its
/// datagrams are counted as lost while it was established.
pub proof fn law_ends_of_establishment(outcome: Establishment)
    ensures
        end_of_establishment(outcome) is None <==> outcome is Established,
        end_of_establishment(outcome) matches Some((end, lost)) ==> {
            &&& lost is SessionEstablishment
            &&& end is EstablishmentTimeout <==> outcome is TimedOut
            &&& end is EstablishmentError <==> outcome is Failed
        },
{
}

/// A batch that was begun and written whole counts with all of its datagrams and bytes,
/// and leaves nothing in flight.
pub proof fn law_whole_batch_counts(
    state: RelayState,
    datagrams: u64,
    begun: u64,
    payload_bytes: u64,
    written: u64,
)
    requires
        state.ended is None,
        state.sent.packets + datagrams <= u64::MAX,
        state.sent.bytes + payload_bytes <= u64::MAX,
    ensures
        ({
            let writing = state.after((RelayEvent::BatchStarted { datagrams, now: begun }));
            let after = writing.after((RelayEvent::BatchWritten { payload_bytes, now: written }));
            &&& writing.in_flight == datagrams && writing.writing_since == Some(begun)
                && writing.sent == state.sent && writing.last_activity == begun
            &&& after.sent.packets == state.sent.packets + datagrams
            &&& after.sent.bytes == state.sent.bytes + payload_bytes
            &&& after.in_flight == 0 && after.writing_since is None && after.last_activity
                == written
            &&& after.received == state.received && after.ended is None
        }),
{
}

/// A reply that was sent counts as one datagram with its bytes, and nothing else of the
/// session changes.
pub proof fn law_reply_counts(state: RelayState, bytes: u64)
    requires
        state.ended is None,
        state.received.packets < u64::MAX,
        state.received.bytes + bytes <= u64::MAX,
    ensures
        ({
            let after = state.after((RelayEvent::ResponseSent { bytes }));
            &&& after.received.packets == state.received.packets + 1
            &&& after.received.bytes == state.received.bytes + bytes
            &&& after.sent == state.sent && after.in_flight == state.in_flight
                && after.last_activity == state.last_activity && after.writing_since
                == state.writing_since && after.ended is None
        }),
{
}

/// What ends a session is told as what it was, and only that ends it. The batch that was
/// being written stays in flight.
pub proof fn law_ends_of_a_session(state: RelayState, event: RelayEvent)
    requires
        state.ended is None,
    ensures
        state.after(event).ended == (match event {
            RelayEvent::EncodeFailed => Some(EndReason::CapsuleEncodeError),
            RelayEvent::WriteTimedOut => Some(EndReason::HboneWriteTimeout),
            RelayEvent::WriteFailed => Some(EndReason::HboneWriteError),
            RelayEvent::ReadFailed => Some(EndReason::HboneReadError),
            RelayEvent::PeerClosed => Some(EndReason::PeerClosed),
            RelayEvent::ResponseFailed => Some(EndReason::ResponseSendError),
            RelayEvent::IdleTimedOut => Some(EndReason::IdleTimeout),
            _ => None,
        }),
        state.after(event).ended is Some ==> state.after(event).in_flight == state.in_flight
            && state.after(event).sent == state.sent && state.after(event).received
            == state.received,
{
}

/// A session runs out of time when a batch has been written for the limit, or nothing was
/// relayed for it; the write is told first.
pub proof fn law_when_a_session_is_overdue(state: RelayState, now: u64, limit: u64)
    ensures
        state.overdue(now, limit) == Some(RelayEvent::WriteTimedOut) <==> (
        state.writing_since matches Some(start) && now - start >= limit),
        state.overdue(now, limit) == Some(RelayEvent::IdleTimedOut) <==> !(
        state.writing_since matches Some(start) && now - start >= limit) && now
            - state.last_activity >= limit,
        state.overdue(now, limit) is None <==> !(state.writing_since matches Some(start) && now
            - start >= limit) && now - state.last_activity < limit,
{
}

/// The access log has the counts of the session, the reason of its end where it came to
/// one, and the batch that was in flight then as lost; one that was cancelled keeps the
/// reason that was noted and loses nothing. Whose session it was stays.
pub proof fn law_what_the_log_says(state: RelayState, log: SessionLog)
    ensures
        state.finished(log).0.sent == state.sent,
        state.finished(log).0.received == state.received,
        state.ended matches Some(reason) ==> state.finished(log).0.end_reason == reason
            && state.finished(log).1 == state.in_flight,
        state.ended is None ==> state.finished(log).0.end_reason == log.end_reason
            && state.finished(log).1 == 0,
        state.finished(log).0.key == log.key,
        state.finished(log).0.id == log.id,
        state.finished(log).0.gateway == log.gateway,
{
}

/// A session ends by reading exactly where the stream ends or cannot be read, and each
/// says which it was. While it goes on, every datagram on the stream becomes a reply or is
/// counted as too long, and a datagram, nothing less, shows that the gateway is there.
/// Nothing is counted as sent or received by reading.
pub proof fn law_what_reading_brings(
    before: Relay,
    after: Relay,
    chunk: Seq<u8>,
    now: u64,
    report: Option<ReadReport>,
)
    requires
        before.has_read(after, chunk, now, report),
        before.state().ended is None,
    ensures
        ({
            let outcome = feed(before.reader().held(), before.reader().skip(), chunk);
            &&& report is None <==> after.state().ended is Some
            &&& after.state().ended is Some <==> chunk.len() == 0 || outcome.failed is Some
            &&& after.state().ended == Some(EndReason::CapsuleDecodeError) <==> chunk.len() > 0
                && outcome.failed is Some
            &&& after.state().sent == before.state().sent
            &&& after.state().received == before.state().received
            &&& after.state().in_flight == before.state().in_flight
            &&& after.state().writing_since == before.state().writing_since
            &&& report matches Some(report) ==> {
                &&& report.replies@.len() + report.oversized == outcome.datagrams.len()
                    + outcome.dropped
                &&& outcome.datagrams.len() > 0 ==> after.state().last_activity == now
                &&& outcome.datagrams.len() == 0 ==> after.state().last_activity
                    == before.state().last_activity
                &&& after.reader().held() == outcome.rest
            }
        }),
{
    if let Some(report) = report {
        assert(payloads(report.replies@).len() == report.replies@.len());
    }
}

/// Every end of a session has a word of its own in the access log.
pub proof fn law_ends_in_words(reason: EndReason)
    ensures
        reason.word() == (match reason {
            EndReason::Cancelled => "cancelled"@,
            EndReason::SessionQueueFull => "session_queue_full"@,
            EndReason::ForceShutdown => "force_shutdown"@,
            EndReason::EstablishmentError => "establishment_error"@,
            EndReason::EstablishmentTimeout => "establishment_timeout"@,
            EndReason::ResponseSocketError => "response_socket_error"@,
            EndReason::CapsuleEncodeError => "capsule_encode_error"@,
            EndReason::HboneWriteTimeout => "hbone_write_timeout"@,
            EndReason::HboneWriteError => "hbone_write_error"@,
            EndReason::HboneReadError => "hbone_read_error"@,
            EndReason::PeerClosed => "peer_closed"@,
            EndReason::CapsuleDecodeError => "capsule_decode_error"@,
            EndReason::ResponseSendError => "response_send_error"@,
            EndReason::IdleTimeout => "idle_timeout"@,
        }),
{
}

} // verus!
