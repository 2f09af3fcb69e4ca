use bytes::{Bytes, BytesMut};
use ztunnel::capsule::{
    decode_varint, encode_datagram, encode_datagram_into, encode_varint, CapsuleError, Decoder,
    DATAGRAM_CAPSULE_TYPE, DEFAULT_CONTEXT_ID, MAX_VARINT,
};

#[test]
fn encodes_envoy_datagram_capsule() {
    let payload = [0xa1, 0xa2, 0xa3, 0xa4, 0xa5, 0xa6, 0xa7];
    let got = encode_datagram(&payload).unwrap();
    assert_eq!(got.as_ref(), &[0x00, 0x08, 0x00, 0xa1, 0xa2, 0xa3, 0xa4, 0xa5, 0xa6, 0xa7]);
}

#[test]
fn decodes_fragmented_and_coalesced_capsules() {
    let first = encode_datagram(b"one").unwrap();
    let second = encode_datagram(b"two").unwrap();
    let wire = [first.as_ref(), second.as_ref()].concat();
    let mut decoder = Decoder::default();

    assert!(decoder.push(&wire[..2]).unwrap().is_empty());
    assert_eq!(decoder.push(&wire[2..6]).unwrap(), vec![Bytes::from_static(b"one")]);
    assert_eq!(decoder.push(&wire[6..]).unwrap(), vec![Bytes::from_static(b"two")]);
}

#[test]
fn decodes_capsule_split_inside_multibyte_length() {
    let payload = vec![0x5a; 64];
    let wire = encode_datagram(&payload).unwrap();
    let mut decoder = Decoder::default();

    // The length of a value of 65 bytes takes two bytes; only the first comes at
    // once.
    assert!(decoder.push(&wire[..2]).unwrap().is_empty());
    assert_eq!(decoder.push(&wire[2..]).unwrap(), vec![Bytes::from(payload)]);
}

#[test]
fn accepts_maximum_ipv6_udp_payload() {
    let payload = vec![0x5a; 65_527];
    let wire = encode_datagram(&payload).unwrap();
    let mut decoder = Decoder::default();

    assert_eq!(decoder.push(&wire).unwrap(), vec![Bytes::from(payload)]);
}

#[test]
fn skips_oversized_datagram_and_decodes_following_capsule() {
    let oversized_payload = vec![0x5a; 65_528];
    let mut wire = BytesMut::new();
    encode_varint(DATAGRAM_CAPSULE_TYPE, &mut wire).unwrap();
    encode_varint((oversized_payload.len() + 1) as u64, &mut wire).unwrap();
    encode_varint(DEFAULT_CONTEXT_ID, &mut wire).unwrap();
    wire.extend_from_slice(&oversized_payload);
    wire.extend_from_slice(&encode_datagram(b"after-oversized").unwrap());
    let mut decoder = Decoder::default();

    assert_eq!(decoder.push(&wire).unwrap(), vec![Bytes::from_static(b"after-oversized")]);
    assert_eq!(decoder.take_dropped_oversized(), 1);
    assert_eq!(decoder.take_dropped_oversized(), 0);
}

#[test]
fn ignores_unknown_capsules_and_contexts() {
    let mut decoder = Decoder::default();
    let wire = [
        0x17, 0x02, 0x00, 0xff, // unknown capsule type
        0x00, 0x02, 0x01, 0xff, // datagram context other than zero
        0x00, 0x02, 0x00, 0x42, // accepted datagram
    ];
    assert_eq!(decoder.push(&wire).unwrap(), vec![Bytes::from_static(&[0x42])]);
}

#[test]
fn streams_past_oversized_unknown_capsule() {
    let mut header = BytesMut::new();
    encode_varint(0x17, &mut header).unwrap();
    encode_varint(70_000, &mut header).unwrap();
    header.extend_from_slice(&[0u8; 10]);

    let mut decoder = Decoder::default();
    assert!(decoder.push(&header).unwrap().is_empty());

    let accepted = encode_datagram(b"after-unknown").unwrap();
    let mut tail = vec![0u8; 69_990];
    tail.extend_from_slice(&accepted);
    assert_eq!(decoder.push(&tail).unwrap(), vec![Bytes::from_static(b"after-unknown")]);
}

#[test]
fn varints_round_trip_at_every_length() {
    for (value, length) in [
        (0, 1),
        (63, 1),
        (64, 2),
        (16_383, 2),
        (16_384, 4),
        (1_073_741_823, 4),
        (1_073_741_824, 8),
        (MAX_VARINT, 8),
    ] {
        let mut out = BytesMut::new();
        encode_varint(value, &mut out).unwrap();
        assert_eq!(out.len(), length);
        assert_eq!(decode_varint(&out), Some((value, length)));
        assert_eq!(decode_varint(&out[..length - 1]), None);
    }
    // An example of RFC 9000.
    assert_eq!(decode_varint(&[0x7b, 0xbd, 0xff]), Some((15_293, 2)));
}

#[test]
fn capsule_errors() {
    let mut out = BytesMut::new();
    assert_eq!(encode_varint(MAX_VARINT + 1, &mut out), Err(CapsuleError::ValueOutOfRange));
    assert_eq!(
        encode_datagram_into(&vec![0; 65_528], &mut out),
        Err(CapsuleError::DatagramTooLarge)
    );
    assert!(out.is_empty());
    let mut decoder = Decoder::default();
    assert_eq!(decoder.push(&[0x00, 0x00]).unwrap_err(), CapsuleError::MissingContextId);
    for error in [
        CapsuleError::DatagramTooLarge,
        CapsuleError::ValueOutOfRange,
        CapsuleError::LengthTooLarge,
        CapsuleError::MissingContextId,
    ] {
        assert!(!error.message().is_empty());
    }
}

#[test]
fn where_the_stream_is_cut_does_not_matter() {
    let mut wire = BytesMut::new();
    for payload in [&b"one"[..], &b""[..], &[7u8; 100][..]] {
        encode_datagram_into(payload, &mut wire).unwrap();
    }
    let whole = Decoder::default().push(&wire).unwrap();
    assert_eq!(whole.len(), 3);
    for cut in 0..=wire.len() {
        let mut decoder = Decoder::default();
        let mut got = decoder.push(&wire[..cut]).unwrap();
        got.extend(decoder.push(&wire[cut..]).unwrap());
        assert_eq!(got, whole);
    }
}
