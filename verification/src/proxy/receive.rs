//! Reading redirected datagrams off a socket, many at a time: what the received
//! messages mean and when to stop.

use vstd::prelude::*;

use super::outbound_udp::{ReceivedDatagram, ReceivedDatagrams};
use crate::bytebuf::frozen_bytes;
use crate::capsule::be_value;
use crate::net::{
    law_bytes_write_an_address, lemma_be_value_bound, read_network_order, SocketAddr,
};

verus! {

/// How many datagrams one system call brings at most.
pub const DATAGRAMS_PER_SYSCALL: usize = 16;

/// After how many datagrams others get their turn.
pub const MAX_DATAGRAMS_PER_READY: usize = 256;

/// The size of the buffer for one datagram.
pub const MAX_RECEIVE_SIZE: usize = 65_536;

/// The size of an IPv4 socket address in memory.
pub const SOCKADDR_IN_SIZE: usize = 16;

/// The size of an IPv6 socket address in memory.
pub const SOCKADDR_IN6_SIZE: usize = 28;

/// A socket address as the kernel wrote it. Ports and addresses are bytes in
/// network order.
#[allow(inconsistent_fields)]
pub enum RawAddress {
    Inet { ip: [u8; 4], port: [u8; 2] },
    Inet6 { ip: [u8; 16], port: [u8; 2], flowinfo: u32, scope_id: u32 },
    Other,
}

/// The socket address in raw form, if the kernel wrote enough of it.
pub open spec fn address_of(raw: RawAddress, length: nat) -> Option<SocketAddr> {
    match raw {
        RawAddress::Inet { ip, port } => if length >= SOCKADDR_IN_SIZE {
            Some(
                SocketAddr::V4 {
                    ip: be_value(ip@) as u32,
                    port: be_value(port@) as u16,
                },
            )
        } else {
            None
        },
        RawAddress::Inet6 { ip, port, flowinfo, scope_id } => if length >= SOCKADDR_IN6_SIZE {
            Some(
                SocketAddr::V6 {
                    ip: be_value(ip@) as u128,
                    port: be_value(port@) as u16,
                    flowinfo,
                    scope_id,
                },
            )
        } else {
            None
        },
        RawAddress::Other => None,
    }
}

/// Reads a socket address, if the kernel wrote enough of it.
pub fn raw_socket_address(raw: &RawAddress, length: usize) -> (r: Option<SocketAddr>)
    ensures
        r == address_of(*raw, length as nat),
{
    match raw {
        RawAddress::Inet { ip, port } => {
            if length < SOCKADDR_IN_SIZE {
                return None;
            }
            proof {
                lemma_be_value_bound(ip@);
                lemma_be_value_bound(port@);
            }
            Some(
                SocketAddr::V4 {
                    ip: read_network_order(ip.as_slice()) as u32,
                    port: read_network_order(port.as_slice()) as u16,
                },
            )
        },
        RawAddress::Inet6 { ip, port, flowinfo, scope_id } => {
            if length < SOCKADDR_IN6_SIZE {
                return None;
            }
            proof {
                lemma_be_value_bound(ip@);
                lemma_be_value_bound(port@);
            }
            Some(
                SocketAddr::V6 {
                    ip: read_network_order(ip.as_slice()),
                    port: read_network_order(port.as_slice()) as u16,
                    flowinfo: *flowinfo,
                    scope_id: *scope_id,
                },
            )
        },
        RawAddress::Other => None,
    }
}

/// What the kernel says beside a datagram, with the length that it gives.
pub enum ControlMessage {
    /// Where an IPv4 datagram was sent before it was redirected.
    OriginalDestination4 { raw: RawAddress, length: usize },
    /// Where an IPv6 datagram was sent before it was redirected.
    OriginalDestination6 { raw: RawAddress, length: usize },
    /// How many datagrams the kernel has dropped so far.
    Overflow { counter: u32, length: usize },
    /// Anything else.
    Other,
}

/// The destination that a control message gives.
pub open spec fn destination_in(message: ControlMessage) -> Option<SocketAddr> {
    match message {
        ControlMessage::OriginalDestination4 { raw, length } => if raw is Inet {
            address_of(raw, length as nat)
        } else {
            None
        },
        ControlMessage::OriginalDestination6 { raw, length } => if raw is Inet6 {
            address_of(raw, length as nat)
        } else {
            None
        },
        _ => None,
    }
}

/// The drop counter that a control message gives.
pub open spec fn overflow_in(message: ControlMessage) -> Option<u32> {
    match message {
        ControlMessage::Overflow { counter, length } => if length >= 4 {
            Some(counter)
        } else {
            None
        },
        _ => None,
    }
}

/// What the control messages say together: the last word counts.
pub open spec fn said(messages: Seq<ControlMessage>) -> (Option<SocketAddr>, Option<u32>)
    decreases messages.len(),
{
    if messages.len() == 0 {
        (None, None)
    } else {
        let (destination, overflow) = said(messages.drop_last());
        (
            match destination_in(messages.last()) {
                Some(d) => Some(d),
                None => destination,
            },
            match overflow_in(messages.last()) {
                Some(o) => Some(o),
                None => overflow,
            },
        )
    }
}

/// Reads the original destination and the drop counter off the control messages.
pub fn control_messages(messages: &Vec<ControlMessage>) -> (r: (Option<SocketAddr>, Option<u32>))
    ensures
        r == said(messages@),
{
    let mut destination: Option<SocketAddr> = None;
    let mut overflow: Option<u32> = None;
    let mut i: usize = 0;
    while i < messages.len()
        invariant
            i <= messages@.len(),
            (destination, overflow) == said(messages@.take(i as int)),
        decreases messages@.len() - i,
    {
        assert(messages@.take(i + 1).drop_last() =~= messages@.take(i as int));
        match &messages[i] {
            ControlMessage::OriginalDestination4 { raw, length } => {
                if matches!(raw, RawAddress::Inet { .. }) {
                    match raw_socket_address(raw, *length) {
                        Some(address) => {
                            destination = Some(address);
                        },
                        None => {},
                    }
                }
            },
            ControlMessage::OriginalDestination6 { raw, length } => {
                if matches!(raw, RawAddress::Inet6 { .. }) {
                    match raw_socket_address(raw, *length) {
                        Some(address) => {
                            destination = Some(address);
                        },
                        None => {},
                    }
                }
            },
            ControlMessage::Overflow { counter, length } => {
                if *length >= 4 {
                    overflow = Some(*counter);
                }
            },
            ControlMessage::Other => {},
        }
        i = i + 1;
    }
    assert(messages@.take(i as int) =~= messages@);
    (destination, overflow)
}

/// A message as the kernel delivered it.
pub struct RawMessage {
    /// The kernel cut off payload or control messages.
    pub truncated: bool,
    /// How long the payload is.
    pub length: usize,
    /// Who sent it, with the length of the address.
    pub source: RawAddress,
    pub source_length: usize,
    pub control: Vec<ControlMessage>,
}

/// What a message is worth.
pub enum Decoded {
    /// It was cut off.
    Truncated,
    /// Its sender or its original destination is not known.
    Unknown,
    /// A datagram.
    Datagram { source: SocketAddr, destination: SocketAddr },
}

/// What a message is worth, given the size of the buffer that holds its payload.
pub open spec fn decoded(message: RawMessage, room: nat) -> Decoded {
    if message.truncated || message.length > room {
        Decoded::Truncated
    } else {
        match (
            address_of(message.source, message.source_length as nat),
            said(message.control@).0,
        ) {
            (Some(source), Some(destination)) => Decoded::Datagram { source, destination },
            _ => Decoded::Unknown,
        }
    }
}

/// The drop counter after a message: one with a known sender, not cut off, may
/// bring a new one.
pub open spec fn counter_after(counter: Option<u32>, message: RawMessage, room: nat) -> Option<u32> {
    if decoded(message, room) is Truncated || address_of(
        message.source,
        message.source_length as nat,
    ).is_none() {
        counter
    } else {
        match said(message.control@).1 {
            Some(new) => Some(new),
            None => counter,
        }
    }
}

/// Takes in a message, whose payload stands at the start of the buffer.
pub fn decode_message(received: &mut ReceivedDatagrams, message: &RawMessage, buffer: &[u8])
    requires
        old(received).truncated < u64::MAX,
        old(received).missing_original_destination < u64::MAX,
    ensures
        final(received).overflow_counter == counter_after(
            old(received).overflow_counter,
            *message,
            buffer@.len(),
        ),
        match decoded(*message, buffer@.len()) {
            Decoded::Truncated => {
                &&& final(received).truncated == old(received).truncated + 1
                &&& final(received).missing_original_destination == old(
                    received,
                ).missing_original_destination
                &&& final(received).datagrams@ == old(received).datagrams@
            },
            Decoded::Unknown => {
                &&& final(received).truncated == old(received).truncated
                &&& final(received).missing_original_destination == old(
                    received,
                ).missing_original_destination + 1
                &&& final(received).datagrams@ == old(received).datagrams@
            },
            Decoded::Datagram { source, destination } => {
                let all = final(received).datagrams@;
                &&& final(received).truncated == old(received).truncated
                &&& final(received).missing_original_destination == old(
                    received,
                ).missing_original_destination
                &&& all.len() == old(received).datagrams@.len() + 1
                &&& all.drop_last() == old(received).datagrams@
                &&& all.last().source == source
                &&& all.last().destination == destination
                &&& frozen_bytes(all.last().payload) == buffer@.take(message.length as int)
            },
        },
{
    if message.truncated || message.length > buffer.len() {
        received.truncated = received.truncated + 1;
        return;
    }
    let source: SocketAddr = match raw_socket_address(&message.source, message.source_length) {
        Some(source) => source,
        None => {
            received.missing_original_destination = received.missing_original_destination + 1;
            return;
        },
    };
    let (destination, overflow): (Option<SocketAddr>, Option<u32>) = control_messages(
        &message.control,
    );
    match overflow {
        Some(counter) => {
            received.overflow_counter = Some(counter);
        },
        None => {},
    }
    match destination {
        Some(destination) => {
            let ghost before = received.datagrams@;
            let payload: bytes::Bytes = bytes::Bytes::copy_from_slice(
                vstd::slice::slice_subrange(buffer, 0, message.length),
            );
            assert(buffer@.subrange(0, message.length as int) =~= buffer@.take(
                message.length as int,
            ));
            received.datagrams.push(ReceivedDatagram { payload, source, destination });
            assert(received.datagrams@.drop_last() =~= before);
        },
        None => {
            received.missing_original_destination = received.missing_original_destination + 1;
        },
    }
}

/// What a system call for more datagrams came to.
pub enum ReceiveOutcome {
    /// It brought this many.
    Count(usize),
    /// There is nothing to read at present.
    WouldBlock,
    /// It failed otherwise.
    Failed,
}

/// What to do after a system call for more datagrams.
#[derive(Clone, Copy, Debug, PartialEq, Eq, Structural)]
pub enum ReceiveStep {
    /// Take in what it brought and ask for more.
    DecodeAndContinue,
    /// Take in what it brought and return what there is.
    DecodeAndReturn,
    /// Return what there is.
    Return,
    /// There is nothing; wait until there is.
    WouldBlock,
    /// Report the failure.
    Fail,
}

/// Whether nothing came, not even anything to count.
pub open spec fn came_to_nothing(received: ReceivedDatagrams) -> bool {
    received.datagrams@.len() == 0 && received.truncated == 0
        && received.missing_original_destination == 0
}

/// What to do after a system call: go on until there is no more or others should
/// get their turn; report a failure only where there is nothing else to report.
pub open spec fn step_after(
    received: ReceivedDatagrams,
    processed: nat,
    outcome: ReceiveOutcome,
) -> ReceiveStep {
    match outcome {
        ReceiveOutcome::Count(count) => if count == 0 {
            if received.datagrams@.len() == 0 {
                ReceiveStep::WouldBlock
            } else {
                ReceiveStep::Return
            }
        } else if processed + count >= MAX_DATAGRAMS_PER_READY {
            ReceiveStep::DecodeAndReturn
        } else {
            ReceiveStep::DecodeAndContinue
        },
        ReceiveOutcome::WouldBlock => if came_to_nothing(received) {
            ReceiveStep::WouldBlock
        } else {
            ReceiveStep::Return
        },
        ReceiveOutcome::Failed => if came_to_nothing(received) {
            ReceiveStep::Fail
        } else {
            ReceiveStep::Return
        },
    }
}

/// Decides what to do after a system call, given how many messages were taken in
/// before it.
pub fn after_receive(received: &ReceivedDatagrams, processed: usize, outcome: &ReceiveOutcome) -> (r:
    ReceiveStep)
    ensures
        r == step_after(*received, processed as nat, *outcome),
{
    let nothing: bool = received.datagrams.len() == 0 && received.truncated == 0
        && received.missing_original_destination == 0;
    match outcome {
        ReceiveOutcome::Count(count) => {
            if *count == 0 {
                if received.datagrams.len() == 0 {
                    ReceiveStep::WouldBlock
                } else {
                    ReceiveStep::Return
                }
            } else if processed >= MAX_DATAGRAMS_PER_READY || *count >= MAX_DATAGRAMS_PER_READY
                - processed {
                ReceiveStep::DecodeAndReturn
            } else {
                ReceiveStep::DecodeAndContinue
            }
        },
        ReceiveOutcome::WouldBlock => {
            if nothing {
                ReceiveStep::WouldBlock
            } else {
                ReceiveStep::Return
            }
        },
        ReceiveOutcome::Failed => {
            if nothing {
                ReceiveStep::Fail
            } else {
                ReceiveStep::Return
            }
        },
    }
}

/// The kernel writes an IPv4 address in at least sixteen bytes and an IPv6 address in at
/// least twenty-eight; of anything else, or of less, nothing is read. Ports and IPv4
/// addresses are read from their highest byte on.
pub proof fn law_addresses_are_read(raw: RawAddress, length: nat)
    ensures
        address_of(raw, length) is Some <==> (raw is Inet && length >= 16) || (raw is Inet6
            && length >= 28),
        match (raw, address_of(raw, length)) {
            (RawAddress::Inet { ip, port }, Some(read)) => read matches SocketAddr::V4 {
                ip: number,
                port: n,
            } && number == ip@[0] * 0x100_0000 + ip@[1] * 0x1_0000 + ip@[2] * 0x100 + ip@[3] && n
                == port@[0] * 256 + port@[1],
            (RawAddress::Inet6 { ip, port, flowinfo, scope_id }, Some(read)) => read
                matches SocketAddr::V6 { ip: number, port: n, flowinfo: f, scope_id: s } && n
                == port@[0] * 256 + port@[1] && f == flowinfo && s == scope_id && number
                == be_value(ip@),
            (_, Some(_)) => false,
            _ => true,
        },
{
    match raw {
        RawAddress::Inet { ip, port } => {
            law_bytes_write_an_address(ip@);
            lemma_two_bytes(port@);
            lemma_be_value_bound(ip@);
            lemma_be_value_bound(port@);
            assert(be_value(ip@) as u32 == be_value(ip@));
        },
        RawAddress::Inet6 { ip, port, .. } => {
            lemma_two_bytes(port@);
            lemma_be_value_bound(ip@);
            lemma_be_value_bound(port@);
        },
        RawAddress::Other => {},
    }
}

proof fn lemma_two_bytes(s: Seq<u8>)
    requires
        s.len() == 2,
    ensures
        be_value(s) == s[0] * 256 + s[1],
{
    reveal_with_fuel(be_value, 3);
    assert(s.drop_last().last() == s[0]);
    assert(s.drop_last().drop_last().len() == 0);
}

/// A destination is one only in a message of its own family, and a drop counter only
/// where all of its four bytes are there.
pub proof fn law_control_messages_say_one_thing(message: ControlMessage)
    ensures
        destination_in(message) matches Some(address) ==> {
            ||| message is OriginalDestination4 && address is V4
            ||| message is OriginalDestination6 && address is V6
        },
        message matches ControlMessage::OriginalDestination4 { raw, length } ==> (raw is Inet
            && length >= 16 ==> destination_in(message) == address_of(raw, length as nat)),
        message matches ControlMessage::OriginalDestination6 { raw, length } ==> (raw is Inet6
            && length >= 28 ==> destination_in(message) == address_of(raw, length as nat)),
        overflow_in(message) is Some <==> (message matches ControlMessage::Overflow {
            length,
            ..
        } && length >= 4),
        message matches ControlMessage::Overflow { counter, length } ==> (length >= 4
            ==> overflow_in(message) == Some(counter)),
{
}

/// Of several messages that give a destination, or a drop counter, the last one counts;
/// the others do not take anything away from it.
pub proof fn law_last_message_counts(messages: Seq<ControlMessage>, i: int)
    requires
        0 <= i < messages.len(),
    ensures
        destination_in(messages[i]) is Some && (forall|k: int|
            i < k < messages.len() ==> destination_in(#[trigger] messages[k]) is None) ==> said(
            messages,
        ).0 == destination_in(messages[i]),
        overflow_in(messages[i]) is Some && (forall|k: int|
            i < k < messages.len() ==> overflow_in(#[trigger] messages[k]) is None) ==> said(
            messages,
        ).1 == overflow_in(messages[i]),
        (forall|k: int| 0 <= k < messages.len() ==> destination_in(#[trigger] messages[k]) is None)
            ==> said(messages).0 is None,
        (forall|k: int| 0 <= k < messages.len() ==> overflow_in(#[trigger] messages[k]) is None)
            ==> said(messages).1 is None,
    decreases messages.len(),
{
    let short = messages.drop_last();
    let n = messages.len() - 1;
    assert(messages.last() == messages[n]);
    assert(forall|k: int| 0 <= k < n ==> short[k] == messages[k]);
    if i < n {
        law_last_message_counts(short, i);
    } else if n > 0 {
        law_last_message_counts(short, 0);
    } else {
        assert(short =~= Seq::empty());
    }
}

/// A message is a datagram exactly where nothing of it was cut off, its payload is in
/// the buffer, and both its sender and its destination are known. What was cut off
/// counts as that, whatever else is known of it.
pub proof fn law_what_a_message_is_worth(message: RawMessage, room: nat)
    ensures
        decoded(message, room) is Truncated <==> message.truncated || message.length > room,
        decoded(message, room) is Datagram <==> {
            &&& !message.truncated
            &&& message.length <= room
            &&& address_of(message.source, message.source_length as nat) is Some
            &&& said(message.control@).0 is Some
        },
        decoded(message, room) matches Decoded::Datagram { source, destination } ==> Some(source)
            == address_of(message.source, message.source_length as nat) && Some(destination)
            == said(message.control@).0,
{
}

/// The drop counter is that of the message where the message gives one, is not cut off
/// and has a known sender, and stays otherwise.
pub proof fn law_counter_after_a_message(counter: Option<u32>, message: RawMessage, room: nat)
    ensures
        counter_after(counter, message, room) == (if !message.truncated && message.length <= room
            && address_of(message.source, message.source_length as nat) is Some && said(
            message.control@,
        ).1 is Some {
            said(message.control@).1
        } else {
            counter
        }),
{
}

/// What a call brought is taken in, and nothing else is. After 256 datagrams others get
/// their turn; before that more are asked for. A failure is reported, and nothing waited
/// for, only where there is nothing to return.
pub proof fn law_when_to_stop_reading(
    received: ReceivedDatagrams,
    processed: nat,
    outcome: ReceiveOutcome,
)
    ensures
        ({
            let step = step_after(received, processed, outcome);
            let count: nat = match outcome {
                ReceiveOutcome::Count(count) => count as nat,
                _ => 0,
            };
            let nothing = received.datagrams@.len() == 0 && received.truncated == 0
                && received.missing_original_destination == 0;
            &&& step is DecodeAndContinue <==> 0 < count && processed + count < 256
            &&& step is DecodeAndReturn <==> 0 < count && processed + count >= 256
            &&& step is Fail <==> outcome is Failed && nothing
            &&& step is WouldBlock <==> (outcome is WouldBlock && nothing) || (outcome is Count
                && count == 0 && received.datagrams@.len() == 0)
        }),
{
}

} // verus!
