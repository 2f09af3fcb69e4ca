use bytes::{Bytes, BytesMut};
use ztunnel::capsule::{encode_datagram, encode_datagram_into, Decoder};
use ztunnel::net::SocketAddr;
use ztunnel::proxy::outbound_udp::{
    is_illegal_call, kernel_overflow_delta, Dispatched, Dispatcher, ReceivedDatagram,
    ReceivedDatagrams, UdpDropReason,
};
use ztunnel::proxy::queue::{
    datagram_channel_with_limits, next_capsule_batch, DatagramTrySendError, MAX_CAPSULE_BATCH_BYTES,
};
use ztunnel::proxy::receive::{
    after_receive, control_messages, decode_message, raw_socket_address, ControlMessage, RawAddress,
    RawMessage, ReceiveOutcome, ReceiveStep, DATAGRAMS_PER_SYSCALL, MAX_DATAGRAMS_PER_READY,
    SOCKADDR_IN6_SIZE, SOCKADDR_IN_SIZE,
};
use ztunnel::proxy::relay::{
    after_establishment, after_write, response_fits, send_error_is_fatal, DatagramTotals, EndReason,
    Establishment, Relay, RelayEvent, ResponseSocketPool, SendErrorKind, SessionLog, EMSGSIZE,
    ENOBUFS,
};
use ztunnel::proxy::sessions::{FlowKey, SessionTable};

fn v4(a: u8, b: u8, c: u8, d: u8, port: u16) -> SocketAddr {
    SocketAddr::V4 { ip: u32::from_be_bytes([a, b, c, d]), port }
}

fn v6(ip: u128, port: u16) -> SocketAddr {
    SocketAddr::V6 { ip, port, flowinfo: 0, scope_id: 0 }
}

fn key(port: u16) -> FlowKey {
    FlowKey { source: v4(127, 0, 0, 1, port), destination: v4(127, 0, 0, 2, 9000) }
}

fn datagram(port: u16, payload: &'static [u8]) -> ReceivedDatagram {
    ReceivedDatagram {
        payload: Bytes::from_static(payload),
        source: key(port).source,
        destination: key(port).destination,
    }
}

#[test]
fn retries_partial_h2_writes_without_losing_bytes() {
    let mut output = BytesMut::new();
    let mut rest = Some(Bytes::from_static(b"0123456789"));
    while let Some(bytes) = rest {
        let written = bytes.len().min(3);
        output.extend_from_slice(&bytes[..written]);
        rest = after_write(&bytes, written);
    }
    assert_eq!(output.as_ref(), b"0123456789");
}

#[test]
fn coalesces_ready_datagrams_without_losing_capsule_boundaries() {
    let mut queue = datagram_channel_with_limits(4, 1_024);
    queue.try_send(Bytes::from_static(b"one")).unwrap();
    queue.try_send(Bytes::from_static(b"two")).unwrap();
    queue.try_send(Bytes::from_static(b"three")).unwrap();

    let batch = next_capsule_batch(&mut queue).unwrap().unwrap();
    let mut decoder = Decoder::default();

    assert_eq!(batch.datagrams, 3);
    assert_eq!(batch.payload_bytes, 11);
    assert_eq!(
        decoder.push(&batch.bytes).unwrap(),
        vec![
            Bytes::from_static(b"one"),
            Bytes::from_static(b"two"),
            Bytes::from_static(b"three"),
        ]
    );
    assert!(next_capsule_batch(&mut queue).unwrap().is_none());
}

#[test]
fn oversized_datagram_does_not_drain_the_next_batch() {
    let mut queue = datagram_channel_with_limits(2, 32_768);
    let oversized = Bytes::from(vec![0x5a; MAX_CAPSULE_BATCH_BYTES]);
    queue.try_send(oversized.clone()).unwrap();
    queue.try_send(Bytes::from_static(b"next")).unwrap();

    let batch = next_capsule_batch(&mut queue).unwrap().unwrap();
    let mut decoder = Decoder::default();

    assert_eq!(batch.datagrams, 1);
    assert_eq!(decoder.push(&batch.bytes).unwrap(), vec![oversized]);
    assert_eq!(queue.try_recv().unwrap().payload, Bytes::from_static(b"next"));
}

#[test]
fn byte_bounded_queue_accepts_small_bursts_beyond_eight_datagrams() {
    let mut queue = datagram_channel_with_limits(1_024, 16_384);

    for value in 0..32u8 {
        queue.try_send(Bytes::from(vec![value; 64])).unwrap();
    }

    for value in 0..32u8 {
        assert_eq!(queue.try_recv().unwrap().payload, Bytes::from(vec![value; 64]));
    }
}

#[test]
fn queue_absorbs_a_burst_up_to_the_byte_limit() {
    let mut queue = datagram_channel_with_limits(1_024, 16 * 1_024);

    for value in 0..16u8 {
        queue.try_send(Bytes::from(vec![value; 1_024])).unwrap();
    }
    assert!(matches!(
        queue.try_send(Bytes::from_static(b"over")),
        Err(DatagramTrySendError::Full)
    ));

    for value in 0..16u8 {
        assert_eq!(queue.try_recv().unwrap().payload, Bytes::from(vec![value; 1_024]));
    }
}

#[test]
fn byte_bounded_queue_releases_capacity_after_receive() {
    let mut queue = datagram_channel_with_limits(1_024, 100);
    queue.try_send(Bytes::from(vec![1; 60])).unwrap();

    let rejected = queue.try_send(Bytes::from(vec![2; 41])).unwrap_err();
    assert!(matches!(rejected, DatagramTrySendError::Full));

    let first = queue.try_recv().unwrap();
    assert_eq!(first.payload.len(), 60);
    assert!(matches!(
        queue.try_send(Bytes::from(vec![2; 41])),
        Err(DatagramTrySendError::Full)
    ));
    queue.release(first.permits);
    queue.try_send(Bytes::from(vec![2; 41])).unwrap();
}

#[test]
fn byte_bounded_queue_allows_one_oversized_datagram_when_empty() {
    let mut queue = datagram_channel_with_limits(1_024, 100);
    queue.try_send(Bytes::from(vec![1; 101])).unwrap();
    assert!(matches!(
        queue.try_send(Bytes::from_static(b"next")),
        Err(DatagramTrySendError::Full)
    ));

    let oversized = queue.try_recv().unwrap();
    assert_eq!(oversized.payload.len(), 101);
    queue.release(oversized.permits);
    queue.try_send(Bytes::from_static(b"next")).unwrap();
}

#[test]
fn receiver_drop_records_all_queued_datagrams() {
    let mut queue = datagram_channel_with_limits(8, 1_024);
    queue.try_send(Bytes::from_static(b"one")).unwrap();
    queue.try_send(Bytes::from_static(b"two")).unwrap();
    assert_eq!(queue.close(), 2);
    assert_eq!(UdpDropReason::SessionEnd.label(), "session_end");
    match queue.try_send(Bytes::from_static(b"late")) {
        Err(DatagramTrySendError::Closed(payload)) => assert_eq!(payload.as_ref(), b"late"),
        _ => panic!("expected the datagram back"),
    }
}

#[test]
fn kernel_overflow_delta_handles_counter_wraparound() {
    assert_eq!(kernel_overflow_delta(10, 15), 5);
    assert_eq!(kernel_overflow_delta(u32::MAX - 2, 1), 4);
}

#[test]
fn rejects_new_flow_when_session_limit_is_reached() {
    let mut sessions = SessionTable::new(1);

    assert!(sessions.insert(key(10001), datagram_channel_with_limits(1, 1)).is_some());
    assert!(sessions.insert(key(10002), datagram_channel_with_limits(1, 1)).is_none());
    assert_eq!(sessions.len(), 1);
}

#[test]
fn stale_completion_does_not_remove_replacement_session() {
    let key = key(10001);
    let mut sessions = SessionTable::new(1);
    let first_id = sessions.insert(key, datagram_channel_with_limits(1, 1)).unwrap();
    sessions.complete(key, first_id);

    let replacement_id = sessions.insert(key, datagram_channel_with_limits(1, 1)).unwrap();
    sessions.complete(key, first_id);
    assert_eq!(sessions.len(), 1);
    assert_eq!(sessions.get(&key), Some(replacement_id));

    sessions.complete(key, replacement_id);
    assert_eq!(sessions.len(), 0);
}

#[test]
fn rejects_only_the_listener_port_reached_over_loopback() {
    assert!(is_illegal_call(v4(127, 0, 0, 1, 15002), 15002));
    // Only 127.0.0.1/32 is left out where traffic is redirected, so that the rest of
    // 127.0.0.0/8 arrives.
    assert!(is_illegal_call(v4(127, 0, 0, 2, 15002), 15002));
    assert!(is_illegal_call(v6(1, 15002), 15002));

    // A remote host that happens to serve on the listener's port is still proxied.
    assert!(!is_illegal_call(v4(203, 0, 113, 7, 15002), 15002));
    assert!(!is_illegal_call(v4(10, 244, 0, 8, 15002), 15002));
    assert!(!is_illegal_call(v4(127, 0, 0, 1, 9000), 15002));
}

#[test]
fn response_socket_pool_shares_replies_and_releases_last_user() {
    let mut pool = ResponseSocketPool::new();
    let destination = v4(192, 0, 2, 1, 9000);
    assert!(!pool.is_open(&destination));
    pool.acquire(destination);
    assert!(pool.is_open(&destination));
    pool.acquire(destination);
    assert!(!pool.release(destination));
    assert_eq!(pool.len(), 1);
    assert!(pool.release(destination));
    assert_eq!(pool.len(), 0);
    pool.acquire(destination);
    assert!(pool.release(destination));
    assert_eq!(pool.len(), 0);
}

#[test]
fn response_socket_pool_isolates_destinations_and_factories() {
    let mut pool = ResponseSocketPool::new();
    let destinations = [
        v4(192, 0, 2, 1, 9000),
        v4(192, 0, 2, 1, 9001),
        v4(192, 0, 2, 2, 9000),
        v6(0x2001_0db8_0000_0000_0000_0000_0000_0001, 9000),
    ];
    for destination in destinations {
        assert!(!pool.is_open(&destination));
        pool.acquire(destination);
    }
    assert_eq!(pool.len(), 4);
    for destination in destinations {
        assert!(pool.release(destination));
    }
    assert_eq!(pool.len(), 0);
}

#[test]
fn access_log_counts_udp_payloads_and_emits_once_after_peer_close() {
    let source = v4(127, 0, 0, 1, 40000);
    let mut queue = datagram_channel_with_limits(8, 1024);
    // Two datagrams in one batch, one of them empty.
    queue.try_send(Bytes::from_static(b"hello")).unwrap();
    queue.try_send(Bytes::new()).unwrap();
    let mut relay = Relay::new(source, 0);
    let batch = next_capsule_batch(&mut queue).unwrap().unwrap();
    relay.note(RelayEvent::BatchStarted { datagrams: batch.datagrams, now: 1 });
    relay.note(RelayEvent::BatchWritten { payload_bytes: batch.payload_bytes, now: 2 });
    let uploaded = Decoder::default().push(&batch.bytes).unwrap();
    assert_eq!(uploaded, [Bytes::from_static(b"hello"), Bytes::new()]);

    let mut replies = BytesMut::new();
    encode_datagram_into(&vec![1; 65_527], &mut replies).unwrap();
    encode_datagram_into(b"reply", &mut replies).unwrap();
    encode_datagram_into(b"", &mut replies).unwrap();
    let report = relay.read(&replies, 3).unwrap();
    assert_eq!(report.replies, [Bytes::from_static(b"reply"), Bytes::new()]);
    assert_eq!(report.oversized, 1);
    for reply in &report.replies {
        relay.note(RelayEvent::ResponseSent { bytes: reply.len() as u64 });
    }
    relay.note(RelayEvent::PeerClosed);
    relay.note(RelayEvent::ResponseSent { bytes: 9 });

    let flow = FlowKey { source, destination: v4(192, 0, 2, 1, 9000) };
    let mut log = SessionLog::new(flow, 1);
    log.gateway = Some(v4(192, 0, 2, 2, 15008));
    let (log, unsent) = relay.finish(log);
    assert_eq!(log.gateway_text(), "192.0.2.2:15008");
    assert_eq!(log.sent, DatagramTotals { packets: 2, bytes: 5 });
    assert_eq!(log.received, DatagramTotals { packets: 2, bytes: 5 });
    assert_eq!(log.end_reason.text(), "peer_closed");
    assert_eq!(unsent, 0);
}

#[test]
fn cancelled_session_logs_once_without_counting_partial_upload() {
    let mut relay = Relay::new(v4(127, 0, 0, 1, 40000), 0);
    relay.note(RelayEvent::BatchStarted { datagrams: 1, now: 1 });
    let report = relay.read(&encode_datagram(b"reply").unwrap(), 3).unwrap();
    assert_eq!(report.replies.len(), 1);
    relay.note(RelayEvent::ResponseSent { bytes: 5 });
    let (log, unsent) = relay.finish(SessionLog::new(key(40000), 1));
    assert_eq!(log.end_reason.text(), "cancelled");
    assert_eq!(log.sent, DatagramTotals { packets: 0, bytes: 0 });
    assert_eq!(log.received, DatagramTotals { packets: 1, bytes: 5 });
    assert_eq!(unsent, 0);

    relay.note(RelayEvent::WriteFailed);
    let (log, unsent) = relay.finish(SessionLog::new(key(40000), 1));
    assert_eq!(log.end_reason.text(), "hbone_write_error");
    assert_eq!(unsent, 1);
}

#[test]
fn idle_session_logs_once_with_zero_counters() {
    let mut relay = Relay::new(v4(127, 0, 0, 1, 12345), 0);
    relay.note(RelayEvent::IdleTimedOut);
    let (log, _) = relay.finish(SessionLog::new(key(12345), 1));
    assert_eq!(log.end_reason.text(), "idle_timeout");
    assert_eq!(log.gateway_text(), "unknown");
    assert_eq!(log.sent, DatagramTotals { packets: 0, bytes: 0 });
    assert_eq!(log.received, DatagramTotals { packets: 0, bytes: 0 });
}

#[test]
fn sessions_end_for_a_reason() {
    for (event, reason) in [
        (RelayEvent::EncodeFailed, EndReason::CapsuleEncodeError),
        (RelayEvent::WriteTimedOut, EndReason::HboneWriteTimeout),
        (RelayEvent::WriteFailed, EndReason::HboneWriteError),
        (RelayEvent::ReadFailed, EndReason::HboneReadError),
        (RelayEvent::ResponseFailed, EndReason::ResponseSendError),
    ] {
        let mut relay = Relay::new(v4(127, 0, 0, 1, 1), 0);
        relay.note(event);
        relay.note(RelayEvent::PeerClosed);
        assert_eq!(relay.current().ended, Some(reason));
    }
    let mut relay = Relay::new(v4(127, 0, 0, 1, 1), 0);
    assert!(relay.read(&[0x00, 0x00], 3).is_none());
    assert_eq!(relay.current().ended, Some(EndReason::CapsuleDecodeError));
}

#[test]
fn establishment_decides() {
    assert_eq!(after_establishment(Establishment::Established), None);
    assert_eq!(
        after_establishment(Establishment::Failed).map(|(reason, _)| reason),
        Some(EndReason::EstablishmentError)
    );
    assert_eq!(
        after_establishment(Establishment::TimedOut).map(|(reason, _)| reason),
        Some(EndReason::EstablishmentTimeout)
    );
}

#[test]
fn replies_fit_the_address_family() {
    assert!(response_fits(&v4(10, 0, 0, 1, 1), 65_507));
    assert!(!response_fits(&v4(10, 0, 0, 1, 1), 65_508));
    assert!(response_fits(&v6(1, 1), 65_527));
    assert!(!response_fits(&v6(1, 1), 65_528));
    assert!(!send_error_is_fatal(Some(EMSGSIZE), SendErrorKind::Other));
    assert!(!send_error_is_fatal(Some(ENOBUFS), SendErrorKind::Other));
    assert!(!send_error_is_fatal(None, SendErrorKind::WouldBlock));
    assert!(!send_error_is_fatal(None, SendErrorKind::Interrupted));
    assert!(send_error_is_fatal(Some(1), SendErrorKind::Other));
}

#[test]
fn graceful_drain_dispatches_existing_flows_rejects_new_flows_and_obeys_deadline() {
    let mut dispatcher = Dispatcher::new(15002, 8, 16, 1_024);
    let existing = key(10001);
    let id = match dispatcher.dispatch(
        existing.source,
        existing.destination,
        Bytes::from_static(b"one"),
    ) {
        Dispatched::Opened { id } => id,
        other => panic!("unexpected {other:?}"),
    };
    dispatcher.drain();
    assert!(!dispatcher.is_finished());
    assert_eq!(
        dispatcher.dispatch(existing.source, existing.destination, Bytes::from_static(b"two")),
        Dispatched::Queued
    );
    let fresh = key(10002);
    assert_eq!(
        dispatcher.dispatch(fresh.source, fresh.destination, Bytes::from_static(b"x")),
        Dispatched::Dropped(UdpDropReason::Draining)
    );
    let batch = dispatcher.sessions_mut().next_batch(existing, id).unwrap().unwrap();
    assert_eq!(batch.datagrams, 2);
    dispatcher.complete(existing, id);
    assert!(dispatcher.is_finished());
}

#[test]
fn datagrams_are_reported() {
    let mut dispatcher = Dispatcher::new(15002, 1, 1, 1_024);
    let mut received = ReceivedDatagrams::empty(vec![
        datagram(10001, b"one"),
        datagram(10001, b"two"),
        datagram(10002, b"three"),
        ReceivedDatagram {
            payload: Bytes::from_static(b"self"),
            source: key(1).source,
            destination: v4(127, 0, 0, 1, 15002),
        },
    ]);
    received.overflow_counter = Some(7);
    received.truncated = 2;
    received.missing_original_destination = 1;
    let report = dispatcher.receive(received);
    assert_eq!(report.packets, 4);
    assert_eq!(report.bytes, 15);
    assert_eq!(
        report.drops,
        vec![
            UdpDropReason::SessionQueue,
            UdpDropReason::SessionLimit,
            UdpDropReason::SelfRedirect,
        ]
    );
    assert_eq!(report.opened.len(), 1);
    assert_eq!(report.opened[0].0, key(10001));
    for (reason, count) in [
        (UdpDropReason::KernelRxQueue, 7),
        (UdpDropReason::Truncated, 2),
        (UdpDropReason::MissingOriginalDestination, 1),
    ] {
        assert!(report.lost.contains(&(reason, count)));
    }
}

#[test]
fn raw_addresses_need_their_length() {
    let raw = RawAddress::Inet { ip: [10, 0, 0, 1], port: [0x1f, 0x90] };
    assert_eq!(raw_socket_address(&raw, SOCKADDR_IN_SIZE), Some(v4(10, 0, 0, 1, 8080)));
    assert_eq!(raw_socket_address(&raw, SOCKADDR_IN_SIZE - 1), None);
    let mut ip = [0u8; 16];
    ip[15] = 1;
    let raw = RawAddress::Inet6 { ip, port: [0, 53], flowinfo: 0, scope_id: 0 };
    assert_eq!(raw_socket_address(&raw, SOCKADDR_IN6_SIZE), Some(v6(1, 53)));
    assert_eq!(raw_socket_address(&raw, SOCKADDR_IN_SIZE), None);
    assert_eq!(raw_socket_address(&RawAddress::Other, 128), None);
}

#[test]
fn messages_are_decoded() {
    let destination = || RawAddress::Inet { ip: [10, 0, 0, 9], port: [0, 53] };
    let message = |truncated, control| RawMessage {
        truncated,
        length: 2,
        source: RawAddress::Inet { ip: [10, 0, 0, 1], port: [0x1f, 0x90] },
        source_length: SOCKADDR_IN_SIZE,
        control,
    };
    let full = |length| {
        vec![
            ControlMessage::OriginalDestination4 { raw: destination(), length },
            ControlMessage::Overflow { counter: 3, length: 4096 },
        ]
    };
    let (address, overflow) = control_messages(&full(4096));
    assert_eq!(address, Some(v4(10, 0, 0, 9, 53)));
    assert_eq!(overflow, Some(3));
    assert_eq!(control_messages(&full(1)).0, None);

    let mut received = ReceivedDatagrams::empty(vec![]);
    decode_message(&mut received, &message(false, full(4096)), b"hi there");
    assert_eq!(received.datagrams.len(), 1);
    assert_eq!(received.datagrams[0].payload.as_ref(), b"hi");
    assert_eq!(received.datagrams[0].source, v4(10, 0, 0, 1, 8080));
    assert_eq!(received.datagrams[0].destination, v4(10, 0, 0, 9, 53));
    assert_eq!(received.overflow_counter, Some(3));
    decode_message(&mut received, &message(true, full(4096)), b"hi there");
    assert_eq!(received.truncated, 1);
    decode_message(&mut received, &message(false, vec![ControlMessage::Other]), b"hi there");
    assert_eq!(received.missing_original_destination, 1);
    assert_eq!(received.datagrams.len(), 1);
}

#[test]
fn receiving_goes_on_until_others_should_get_their_turn() {
    let none = ReceivedDatagrams::empty(vec![]);
    let some = ReceivedDatagrams::empty(vec![datagram(1, b"x")]);
    let full = ReceiveOutcome::Count(DATAGRAMS_PER_SYSCALL);
    assert_eq!(after_receive(&none, 0, &full), ReceiveStep::DecodeAndContinue);
    assert_eq!(
        after_receive(&none, MAX_DATAGRAMS_PER_READY - DATAGRAMS_PER_SYSCALL, &full),
        ReceiveStep::DecodeAndReturn
    );
    assert_eq!(after_receive(&none, 0, &ReceiveOutcome::Count(1)), ReceiveStep::DecodeAndContinue);
    assert_eq!(after_receive(&none, 0, &ReceiveOutcome::Count(0)), ReceiveStep::WouldBlock);
    assert_eq!(after_receive(&some, 1, &ReceiveOutcome::Count(0)), ReceiveStep::Return);
    assert_eq!(after_receive(&none, 0, &ReceiveOutcome::WouldBlock), ReceiveStep::WouldBlock);
    assert_eq!(after_receive(&some, 1, &ReceiveOutcome::WouldBlock), ReceiveStep::Return);
    assert_eq!(after_receive(&none, 0, &ReceiveOutcome::Failed), ReceiveStep::Fail);
}

#[test]
fn a_session_runs_out_of_time() {
    let mut relay = Relay::new(v4(127, 0, 0, 1, 1), 0);
    relay.note(RelayEvent::Opened { now: 100 });
    assert_eq!(relay.idle_deadline(50), 150);
    assert_eq!(relay.write_deadline(50), None);
    assert_eq!(relay.overdue(149, 50), None);
    assert_eq!(relay.overdue(150, 50), Some(RelayEvent::IdleTimedOut));

    relay.note(RelayEvent::BatchStarted { datagrams: 1, now: 120 });
    assert_eq!(relay.write_deadline(50), Some(170));
    let mut stream = encode_datagram(b"reply").unwrap().to_vec();
    let second = stream.split_off(2);
    assert!(relay.read(&stream, 130).unwrap().replies.is_empty());
    assert_eq!(relay.idle_deadline(50), 170);
    assert_eq!(relay.read(&second, 160).unwrap().replies.len(), 1);
    relay.note(RelayEvent::ResponseStarted { now: 165 });
    assert_eq!(relay.idle_deadline(50), 215);
    assert_eq!(relay.write_deadline(50), Some(170));
    assert_eq!(relay.overdue(170, 50), Some(RelayEvent::WriteTimedOut));

    relay.note(RelayEvent::BatchWritten { payload_bytes: 4, now: 169 });
    assert_eq!(relay.write_deadline(50), None);
    assert_eq!(relay.overdue(218, 50), None);
    assert_eq!(relay.overdue(219, 50), Some(RelayEvent::IdleTimedOut));
}

#[test]
fn a_queue_ends_once_and_frees_what_waited() {
    let mut queue = datagram_channel_with_limits(2, 8);
    queue.try_send(Bytes::from_static(b"1234")).unwrap();
    queue.try_send(Bytes::from_static(b"5678")).unwrap();
    assert!(matches!(
        queue.try_send(Bytes::from_static(b"9")),
        Err(DatagramTrySendError::Full)
    ));
    assert_eq!(queue.close(), 2);
    assert_eq!(queue.len(), 0);
    assert_eq!(queue.close(), 0);
    assert!(queue.try_recv().is_none());
    match queue.try_send(Bytes::from_static(b"12345678")) {
        Err(DatagramTrySendError::Closed(payload)) => assert_eq!(payload.as_ref(), b"12345678"),
        _ => panic!("expected the datagram back"),
    }
}

#[test]
fn what_is_handed_out_stays_taken_when_a_queue_ends() {
    let mut queue = datagram_channel_with_limits(4, 8);
    queue.try_send(Bytes::from_static(b"12345678")).unwrap();
    let first = queue.try_recv().unwrap();
    assert_eq!(queue.close(), 0);
    assert!(matches!(
        queue.try_send(Bytes::from_static(b"1")),
        Err(DatagramTrySendError::Full)
    ));
    queue.release(first.permits);
    assert!(matches!(
        queue.try_send(Bytes::from_static(b"1")),
        Err(DatagramTrySendError::Closed(_))
    ));
}

#[test]
fn an_ended_session_makes_way() {
    let mut dispatcher = Dispatcher::new(15002, 1, 1, 4);
    let flow = key(10001);
    let send = |dispatcher: &mut Dispatcher, payload: &'static [u8]| {
        dispatcher.dispatch(flow.source, flow.destination, Bytes::from_static(payload))
    };
    assert_eq!(send(&mut dispatcher, b"1234"), Dispatched::Opened { id: 0 });
    assert_eq!(
        send(&mut dispatcher, b"5"),
        Dispatched::Dropped(UdpDropReason::SessionQueue)
    );
    assert_eq!(dispatcher.sessions_mut().close(flow, 0), 1);
    assert_eq!(dispatcher.sessions_mut().close(flow, 0), 0);
    assert_eq!(send(&mut dispatcher, b"5678"), Dispatched::Opened { id: 1 });
    assert_eq!(dispatcher.sessions_mut().close(flow, 0), 0);
    assert_eq!(dispatcher.sessions_mut().close(flow, 1), 1);

    // While the listener drains, the session goes and none takes its place.
    dispatcher.drain();
    assert_eq!(send(&mut dispatcher, b"9"), Dispatched::Dropped(UdpDropReason::Draining));
    assert!(dispatcher.is_finished());
}

#[test]
fn a_relay_says_what_it_can_take() {
    let mut relay = Relay::new(v4(127, 0, 0, 1, 10001), 0);
    let limit = isize::MAX as usize;
    assert!(relay.can_read(limit));
    assert!(!relay.can_read(limit + 1));
    let capsule = encode_datagram(b"reply").unwrap();
    let report = relay.read(&capsule[..4], 1).unwrap();
    assert!(report.replies.is_empty());
    assert!(relay.can_read(limit - 4));
    assert!(!relay.can_read(limit - 3));
    relay.note(RelayEvent::PeerClosed);
    assert!(!relay.can_read(1));
}

#[test]
fn users_of_a_socket_are_counted() {
    let mut pool = ResponseSocketPool::new();
    let destination = v4(10, 0, 0, 1, 53);
    assert_eq!(pool.users(&destination), 0);
    pool.acquire(destination);
    pool.acquire(destination);
    assert_eq!(pool.users(&destination), 2);
    assert!(!pool.release(destination));
    assert_eq!(pool.users(&destination), 1);
    assert!(pool.release(destination));
    assert_eq!(pool.users(&destination), 0);
}
