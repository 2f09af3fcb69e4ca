//! The capsule protocol of CONNECT-UDP: datagrams framed on a byte stream.

use vstd::prelude::*;

use crate::bytebuf::{
    big_endian, buffer_advance, buffer_bytes, buffer_slice, frozen_bytes, frozen_from, frozen_slice,
    put_u16, put_u32, put_u64, put_u8,
};

verus! {

/// Capsule type that carries a UDP datagram.
pub const DATAGRAM_CAPSULE_TYPE: u64 = 0;

/// Context of plain UDP payloads.
pub const DEFAULT_CONTEXT_ID: u64 = 0;

/// The largest UDP payload: IPv6 permits 65,527 bytes. IPv4 is limited to 65,507
/// bytes, but the socket family enforces that smaller wire limit.
pub const MAX_DATAGRAM_SIZE: usize = 65_527;

/// The largest number that a variable-length integer can hold.
pub const MAX_VARINT: u64 = 4_611_686_018_427_387_903;

/// Why a capsule cannot be written or read.
#[derive(Clone, Copy, Debug, PartialEq, Eq, Structural)]
pub enum CapsuleError {
    /// The payload to send is longer than any UDP datagram.
    DatagramTooLarge,
    /// The number to write does not fit a variable-length integer.
    ValueOutOfRange,
    /// A datagram announces a length that this machine cannot address.
    LengthTooLarge,
    /// A datagram capsule ends before its context.
    MissingContextId,
}

impl CapsuleError {
    /// The text to report.
    pub fn message(self) -> (r: String)
        ensures
            r@ == (match self {
                CapsuleError::DatagramTooLarge => "UDP datagram exceeds the maximum payload size"@,
                CapsuleError::ValueOutOfRange => "value exceeds QUIC variable-length integer range"@,
                CapsuleError::LengthTooLarge => "capsule length does not fit usize"@,
                CapsuleError::MissingContextId => "DATAGRAM capsule is missing a context ID"@,
            }),
    {
        match self {
            CapsuleError::DatagramTooLarge => {
                "UDP datagram exceeds the maximum payload size".to_owned()
            },
            CapsuleError::ValueOutOfRange => {
                "value exceeds QUIC variable-length integer range".to_owned()
            },
            CapsuleError::LengthTooLarge => "capsule length does not fit usize".to_owned(),
            CapsuleError::MissingContextId => {
                "DATAGRAM capsule is missing a context ID".to_owned()
            },
        }
    }
}

/// The number that the bytes write, the highest byte first.
pub open spec fn be_value(s: Seq<u8>) -> nat
    decreases s.len(),
{
    if s.len() == 0 {
        0
    } else {
        be_value(s.drop_last()) * 256 + s.last() as nat
    }
}

/// How many bytes a variable-length integer takes, by its first byte.
pub open spec fn varint_len(first: u8) -> nat {
    if first < 64 {
        1
    } else if first < 128 {
        2
    } else if first < 192 {
        4
    } else {
        8
    }
}

/// The variable-length integer at the start of the bytes and its length, unless
/// the bytes end before it does.
pub open spec fn varint(s: Seq<u8>) -> Option<(nat, nat)> {
    if s.len() == 0 || s.len() < varint_len(s[0]) {
        None
    } else {
        let len = varint_len(s[0]);
        Some((be_value(seq![(s[0] % 64) as u8] + s.subrange(1, len as int)), len))
    }
}

/// The shortest variable-length integer that writes the number: the two top bits
/// tell the length, the others the number.
pub open spec fn varint_bytes(value: nat) -> Seq<u8> {
    if value <= 63 {
        big_endian(value, 1)
    } else if value <= 16_383 {
        big_endian(0x4000 + value, 2)
    } else if value <= 1_073_741_823 {
        big_endian(0x8000_0000 + value, 4)
    } else {
        big_endian(0xc000_0000_0000_0000 + value, 8)
    }
}

/// A payload as a datagram capsule: type, length of what follows, context,
/// payload.
pub open spec fn datagram_capsule(payload: Seq<u8>) -> Seq<u8> {
    varint_bytes(DATAGRAM_CAPSULE_TYPE as nat) + varint_bytes(payload.len() + 1) + varint_bytes(
        DEFAULT_CONTEXT_ID as nat,
    ) + payload
}

/// Appends a variable-length integer.
pub fn encode_varint(value: u64, out: &mut bytes::BytesMut) -> (r: Result<(), CapsuleError>)
    requires
        buffer_bytes(*old(out)).len() + 8 <= isize::MAX,
    ensures
        value <= MAX_VARINT ==> r == Ok::<(), CapsuleError>(()) && buffer_bytes(*final(out))
            == buffer_bytes(*old(out)) + varint_bytes(value as nat),
        value > MAX_VARINT ==> r == Err::<(), CapsuleError>(CapsuleError::ValueOutOfRange)
            && *final(out) == *old(out),
{
    if value <= 63 {
        proof {
            reveal_with_fuel(big_endian, 2);
            assert(buffer_bytes(*out).push(value as u8) =~= buffer_bytes(*out) + varint_bytes(
                value as nat,
            ));
        }
        put_u8(out, value as u8);
    } else if value <= 16_383 {
        let low: u16 = value as u16;
        assert(low | 0x4000 == low + 0x4000) by (bit_vector)
            requires
                low <= 16_383,
        ;
        put_u16(out, low | 0x4000);
    } else if value <= 1_073_741_823 {
        let low: u32 = value as u32;
        assert(low | 0x8000_0000 == low + 0x8000_0000) by (bit_vector)
            requires
                low <= 1_073_741_823,
        ;
        put_u32(out, low | 0x8000_0000);
    } else if value <= MAX_VARINT {
        assert(value | 0xc000_0000_0000_0000 == value + 0xc000_0000_0000_0000) by (bit_vector)
            requires
                value <= 4_611_686_018_427_387_903,
        ;
        put_u64(out, value | 0xc000_0000_0000_0000);
    } else {
        return Err(CapsuleError::ValueOutOfRange);
    }
    Ok(())
}

/// The bytes of a variable-length integer grow its value by less than the factor
/// that they add.
proof fn lemma_be_value_bound(s: Seq<u8>)
    requires
        1 <= s.len() <= 8,
        s[0] < 64,
    ensures
        be_value(s) <= MAX_VARINT,
        s.len() == 1 ==> be_value(s) < 64,
        s.len() == 2 ==> be_value(s) < 0x4000,
        s.len() == 3 ==> be_value(s) < 0x40_0000,
        s.len() == 4 ==> be_value(s) < 0x4000_0000,
        s.len() == 5 ==> be_value(s) < 0x40_0000_0000,
        s.len() == 6 ==> be_value(s) < 0x4000_0000_0000,
        s.len() == 7 ==> be_value(s) < 0x40_0000_0000_0000,
    decreases s.len(),
{
    if s.len() == 1 {
        reveal_with_fuel(be_value, 2);
    } else {
        lemma_be_value_bound(s.drop_last());
    }
}

/// Reads the variable-length integer at the start of the bytes.
pub fn decode_varint(input: &[u8]) -> (r: Option<(u64, usize)>)
    ensures
        r.is_some() == varint(input@).is_some(),
        r matches Some((value, len)) ==> varint(input@) == Some((value as nat, len as nat)) && value
            <= MAX_VARINT && 1 <= len <= 8 && len <= input@.len(),
{
    if input.len() == 0 {
        return None;
    }
    let first: u8 = input[0];
    let len: usize = if first < 64 {
        1
    } else if first < 128 {
        2
    } else if first < 192 {
        4
    } else {
        8
    };
    if input.len() < len {
        return None;
    }
    let ghost whole = seq![(first % 64) as u8] + input@.subrange(1, len as int);
    let mut value: u64 = (first % 64) as u64;
    let mut i: usize = 1;
    proof {
        reveal_with_fuel(be_value, 2);
    }
    while i < len
        invariant
            1 <= i <= len <= 8,
            len <= input@.len(),
            whole == seq![(first % 64) as u8] + input@.subrange(1, len as int),
            whole[0] < 64,
            value as nat == be_value(whole.take(i as int)),
        decreases len - i,
    {
        proof {
            lemma_be_value_bound(whole.take(i as int));
            assert(whole.take(i + 1).drop_last() =~= whole.take(i as int));
            lemma_be_value_bound(whole.take(i + 1));
        }
        value = value * 256 + input[i] as u64;
        i = i + 1;
    }
    proof {
        assert(whole.take(len as int) =~= whole);
        lemma_be_value_bound(whole);
    }
    Some((value, len))
}

/// A variable-length integer is one, two, four or eight bytes long.
pub proof fn lemma_varint_bytes_len(value: nat)
    ensures
        varint_bytes(value).len() == (if value <= 63 {
            1nat
        } else if value <= 16_383 {
            2
        } else if value <= 1_073_741_823 {
            4
        } else {
            8
        }),
{
    reveal_with_fuel(big_endian, 9);
}

/// A number that was written is read back, whatever follows it.
pub proof fn law_varint_round_trip(value: nat, rest: Seq<u8>)
    requires
        value <= MAX_VARINT,
    ensures
        varint(varint_bytes(value) + rest) == Some((value, varint_bytes(value).len())),
{
    let s = varint_bytes(value) + rest;
    lemma_varint_bytes_len(value);
    let len = varint_bytes(value).len();
    assert(s[0] == varint_bytes(value)[0]);
    assert(s.subrange(1, len as int) =~= varint_bytes(value).subrange(1, len as int));
    reveal_with_fuel(pow256, 9);
    if value <= 63 {
        lemma_tagged(0, value, 1, 1);
    } else if value <= 16_383 {
        lemma_tagged(64, value, 2, 0x100);
    } else if value <= 1_073_741_823 {
        lemma_tagged(128, value, 4, 0x100_0000);
    } else {
        lemma_tagged(192, value, 8, 0x100_0000_0000_0000);
    }
}

/// The numbers that `count` bytes can write lie below this.
spec fn pow256(count: nat) -> nat
    decreases count,
{
    if count == 0 {
        1
    } else {
        pow256((count - 1) as nat) * 256
    }
}

proof fn lemma_be_value_below(s: Seq<u8>)
    ensures
        be_value(s) < pow256(s.len()),
    decreases s.len(),
{
    if s.len() > 0 {
        lemma_be_value_below(s.drop_last());
    }
}

proof fn lemma_be_value_head(x: u8, s: Seq<u8>)
    ensures
        be_value(seq![x] + s) == x * pow256(s.len()) + be_value(s),
    decreases s.len(),
{
    let t = seq![x] + s;
    if s.len() == 0 {
        reveal_with_fuel(be_value, 2);
        assert(t.drop_last() =~= Seq::<u8>::empty());
        assert(x * pow256(0) == x) by {
            assert(pow256(0) == 1);
        }
    } else {
        lemma_be_value_head(x, s.drop_last());
        assert(t.drop_last() =~= seq![x] + s.drop_last());
        let p = pow256((s.len() - 1) as nat);
        assert(x * p * 256 == x * (p * 256)) by (nonlinear_arith);
    }
}

proof fn lemma_big_endian_value(n: nat, count: nat)
    requires
        n < pow256(count),
    ensures
        big_endian(n, count).len() == count,
        be_value(big_endian(n, count)) == n,
    decreases count,
{
    if count > 0 {
        lemma_big_endian_value(n / 256, (count - 1) as nat);
        assert(big_endian(n, count).drop_last() =~= big_endian(n / 256, (count - 1) as nat));
    }
}

/// Reading `count` bytes whose first is `base` and more, below the next multiple
/// of 64, gives what they write beyond `base`.
proof fn lemma_tagged(base: nat, value: nat, count: nat, unit: nat)
    requires
        base == 0 || base == 64 || base == 128 || base == 192,
        count >= 1,
        unit == pow256((count - 1) as nat),
        value < 64 * unit,
    ensures
        ({
            let s = big_endian(base * unit + value, count);
            &&& s.len() == count
            &&& base <= s[0] < base + 64
            &&& be_value(seq![(s[0] % 64) as u8] + s.subrange(1, count as int)) == value
        }),
{
    let n = base * unit + value;
    assert(n < pow256(count)) by {
        assert(base * unit <= 192 * unit) by (nonlinear_arith)
            requires
                base <= 192,
        ;
    }
    lemma_big_endian_value(n, count);
    let s = big_endian(n, count);
    let r = s.subrange(1, count as int);
    assert(s =~= seq![s[0]] + r);
    lemma_be_value_head(s[0], r);
    lemma_be_value_head((s[0] % 64) as u8, r);
    lemma_be_value_below(r);
    let (head, low) = (s[0] as nat, be_value(r));
    assert(base <= head < base + 64) by (nonlinear_arith)
        requires
            head * unit + low == base * unit + value,
            low < unit,
            value < 64 * unit,
    ;
    assert((head - base) * unit == head * unit - base * unit) by (nonlinear_arith);
    assert(head % 64 == head - base);
}

/// Appends a payload as a datagram capsule.
pub fn encode_datagram_into(payload: &[u8], out: &mut bytes::BytesMut) -> (r: Result<
    (),
    CapsuleError,
>)
    requires
        payload@.len() <= MAX_DATAGRAM_SIZE ==> buffer_bytes(*old(out)).len() + payload@.len() + 24
            <= isize::MAX,
    ensures
        payload@.len() <= MAX_DATAGRAM_SIZE ==> r == Ok::<(), CapsuleError>(()) && buffer_bytes(
            *final(out),
        ) == buffer_bytes(*old(out)) + datagram_capsule(payload@),
        payload@.len() > MAX_DATAGRAM_SIZE ==> r == Err::<(), CapsuleError>(
            CapsuleError::DatagramTooLarge,
        ) && *final(out) == *old(out),
{
    if payload.len() > MAX_DATAGRAM_SIZE {
        return Err(CapsuleError::DatagramTooLarge);
    }
    proof {
        lemma_varint_bytes_len(DATAGRAM_CAPSULE_TYPE as nat);
        lemma_varint_bytes_len((payload@.len() + 1) as nat);
        lemma_varint_bytes_len(DEFAULT_CONTEXT_ID as nat);
    }
    let ghost before = buffer_bytes(*out);
    match encode_varint(DATAGRAM_CAPSULE_TYPE, out) {
        Ok(()) => {},
        Err(e) => return Err(e),
    }
    match encode_varint((payload.len() + 1) as u64, out) {
        Ok(()) => {},
        Err(e) => return Err(e),
    }
    match encode_varint(DEFAULT_CONTEXT_ID, out) {
        Ok(()) => {},
        Err(e) => return Err(e),
    }
    out.extend_from_slice(payload);
    assert(buffer_bytes(*out) =~= before + datagram_capsule(payload@));
    Ok(())
}

/// A payload as one datagram capsule.
pub fn encode_datagram(payload: &[u8]) -> (r: Result<bytes::Bytes, CapsuleError>)
    ensures
        r.is_ok() == (payload@.len() <= MAX_DATAGRAM_SIZE),
        r matches Ok(out) ==> frozen_bytes(out) == datagram_capsule(payload@),
        r matches Err(e) ==> e == CapsuleError::DatagramTooLarge,
{
    let mut out: bytes::BytesMut = bytes::BytesMut::new();
    match encode_datagram_into(payload, &mut out) {
        Ok(()) => {
            assert(Seq::<u8>::empty() + datagram_capsule(payload@) =~= datagram_capsule(payload@));
            Ok(out.freeze())
        },
        Err(e) => Err(e),
    }
}

/// What stands at the start of the bytes of a stream.
pub enum Step {
    /// A capsule that the bytes do not hold whole.
    Incomplete,
    /// A datagram whose length no buffer of this machine could hold.
    Unaddressable,
    /// A capsule to pass over: `header` bytes, then `body` bytes that need not be
    /// there yet. Datagrams too long to deliver are counted.
    Discard { header: nat, body: nat, counted: bool },
    /// A whole datagram capsule: `header` bytes, then `body` bytes.
    Datagram { header: nat, body: nat },
}

/// The type of the capsule at the start of the bytes, the length of its body
/// and the length of these two numbers, unless the bytes end before them.
#[verifier::opaque]
pub open spec fn header(s: Seq<u8>) -> Option<(nat, nat, nat)> {
    match varint(s) {
        None => None,
        Some((capsule_type, type_len)) => match varint(s.skip(type_len as int)) {
            None => None,
            Some((body, length_len)) => Some((capsule_type, body, type_len + length_len)),
        },
    }
}

/// The capsule at the start of the bytes.
pub open spec fn step(s: Seq<u8>) -> Step {
    match header(s) {
        None => Step::Incomplete,
        Some((capsule_type, body, header)) => if capsule_type != DATAGRAM_CAPSULE_TYPE {
            Step::Discard { header, body, counted: false }
        } else if body > usize::MAX {
            Step::Unaddressable
        } else if body > MAX_DATAGRAM_SIZE + 8 {
            Step::Discard { header, body, counted: true }
        } else if s.len() < header + body {
            Step::Incomplete
        } else {
            Step::Datagram { header, body }
        },
    }
}

/// What a datagram capsule's body is: a context, then a payload.
pub enum Body {
    /// It ends before its context does.
    Malformed,
    /// It belongs to a context that carries no plain payload.
    Foreign,
    /// Its payload is longer than any UDP datagram.
    Oversized,
    /// It delivers this payload.
    Payload(Seq<u8>),
}

/// How the body of a datagram capsule reads.
pub open spec fn body_of(s: Seq<u8>) -> Body {
    match varint(s) {
        None => Body::Malformed,
        Some((context, context_len)) => if context != DEFAULT_CONTEXT_ID {
            Body::Foreign
        } else if s.len() - context_len > MAX_DATAGRAM_SIZE {
            Body::Oversized
        } else {
            Body::Payload(s.skip(context_len as int))
        },
    }
}

/// What reading capsules off the start of some bytes comes to.
#[verifier::ext_equal]
pub struct Drained {
    /// The payloads delivered, in order.
    pub datagrams: Seq<Seq<u8>>,
    /// How many datagrams were too long to deliver.
    pub dropped: nat,
    /// The bytes that wait for more.
    pub rest: Seq<u8>,
    /// How many bytes still to come belong to a capsule that is passed over.
    pub skip: nat,
    /// Why reading stopped, where it was not for want of bytes.
    pub failed: Option<CapsuleError>,
}

impl Drained {
    /// The same, after a datagram and a number of drops that came before.
    pub open spec fn after(self, datagrams: Seq<Seq<u8>>, dropped: nat) -> Drained {
        Drained { datagrams: datagrams + self.datagrams, dropped: dropped + self.dropped, ..self }
    }
}

/// Reading stops with these bytes left.
pub open spec fn stopped(rest: Seq<u8>, skip: nat, failed: Option<CapsuleError>) -> Drained {
    Drained { datagrams: Seq::empty(), dropped: 0, rest, skip, failed }
}

/// Reads capsules off the start of the bytes until one is not whole.
pub open spec fn drain(s: Seq<u8>) -> Drained
    decreases s.len(),
{
    proof {
        reveal(header);
    }
    match step(s) {
        Step::Incomplete => stopped(s, 0, None),
        Step::Unaddressable => stopped(s, 0, Some(CapsuleError::LengthTooLarge)),
        Step::Discard { header, body, counted } => {
            let count = if counted {
                1nat
            } else {
                0
            };
            if s.len() < header + body {
                stopped(Seq::empty(), (header + body - s.len()) as nat, None).after(
                    Seq::empty(),
                    count,
                )
            } else {
                drain(s.skip((header + body) as int)).after(Seq::empty(), count)
            }
        },
        Step::Datagram { header, body } => {
            let tail = s.skip((header + body) as int);
            match body_of(s.subrange(header as int, (header + body) as int)) {
                Body::Malformed => stopped(tail, 0, Some(CapsuleError::MissingContextId)),
                Body::Foreign => drain(tail),
                Body::Oversized => drain(tail).after(Seq::empty(), 1),
                Body::Payload(payload) => drain(tail).after(seq![payload], 0),
            }
        },
    }
}

/// What a decoder makes of the next bytes of the stream, given the bytes that it
/// holds back and the number of bytes that it still passes over.
pub open spec fn feed(held: Seq<u8>, skip: nat, chunk: Seq<u8>) -> Drained {
    if skip > chunk.len() {
        stopped(held, (skip - chunk.len()) as nat, None)
    } else {
        drain(held + chunk.skip(skip as int))
    }
}

/// Reads datagrams off a stream of capsules that arrives in pieces.
pub struct Decoder {
    buffer: bytes::BytesMut,
    skip_remaining: u64,
    dropped_oversized: u64,
}

impl Decoder {
    /// The bytes held back until their capsule is whole.
    pub closed spec fn held(self) -> Seq<u8> {
        buffer_bytes(self.buffer)
    }

    /// How many bytes still to come are passed over.
    pub closed spec fn skip(self) -> nat {
        self.skip_remaining as nat
    }

    /// How many datagrams were too long to deliver, since this was last asked.
    pub closed spec fn dropped(self) -> nat {
        self.dropped_oversized as nat
    }

    /// Nothing is held back while bytes are passed over.
    pub open spec fn wf(self) -> bool {
        self.skip() > 0 ==> self.held().len() == 0
    }

    /// How many bytes are held back.
    pub fn held_len(&self) -> (r: usize)
        ensures
            r == self.held().len(),
    {
        self.buffer.len()
    }

    /// How many datagrams were too long to deliver, since this was last asked.
    pub fn take_dropped_oversized(&mut self) -> (r: u64)
        ensures
            r == old(self).dropped(),
            final(self).dropped() == 0,
            final(self).held() == old(self).held(),
            final(self).skip() == old(self).skip(),
    {
        let count: u64 = self.dropped_oversized;
        self.dropped_oversized = 0;
        count
    }
}

impl Default for Decoder {
    fn default() -> (r: Self)
        ensures
            r.wf(),
            r.held() == Seq::<u8>::empty(),
            r.skip() == 0,
            r.dropped() == 0,
    {
        Decoder { buffer: bytes::BytesMut::new(), skip_remaining: 0, dropped_oversized: 0 }
    }
}

/// The payloads, each as its bytes.
pub open spec fn payloads(v: Seq<bytes::Bytes>) -> Seq<Seq<u8>> {
    v.map_values(|b: bytes::Bytes| frozen_bytes(b))
}

/// How far one capsule has brought the decoder.
enum Progress {
    /// The capsule is not whole yet.
    Waiting,
    /// The capsule delivers nothing.
    Passed,
    /// The capsule delivers a payload.
    Delivered(bytes::Bytes),
}

/// What the body of a datagram capsule holds.
enum Content {
    /// It ends before its context does.
    Malformed,
    /// It belongs to a context that carries no plain payload.
    Foreign,
    /// Its payload is longer than any UDP datagram.
    Oversized,
    /// It delivers this payload.
    Payload(bytes::Bytes),
}

/// Reads the type and the length at the start of a capsule.
fn decode_header(input: &[u8]) -> (r: Option<(u64, u64, usize)>)
    ensures
        r.is_some() == header(input@).is_some(),
        r matches Some((capsule_type, body, len)) ==> header(input@) == Some(
            (capsule_type as nat, body as nat, len as nat),
        ) && 2 <= len <= 16 && len <= input@.len(),
{
    proof {
        reveal(header);
    }
    let (capsule_type, type_len): (u64, usize) = match decode_varint(input) {
        Some(v) => v,
        None => return None,
    };
    let after_type: &[u8] = vstd::slice::slice_subrange(input, type_len, input.len());
    assert(after_type@ =~= input@.skip(type_len as int));
    match decode_varint(after_type) {
        Some((body, length_len)) => Some((capsule_type, body, type_len + length_len)),
        None => None,
    }
}

/// Reads the body of a datagram capsule.
fn read_body(body: &bytes::Bytes) -> (r: Content)
    ensures
        match r {
            Content::Malformed => body_of(frozen_bytes(*body)) == Body::Malformed,
            Content::Foreign => body_of(frozen_bytes(*body)) == Body::Foreign,
            Content::Oversized => body_of(frozen_bytes(*body)) == Body::Oversized,
            Content::Payload(payload) => body_of(frozen_bytes(*body)) == Body::Payload(
                frozen_bytes(payload),
            ),
        },
{
    let (context_id, context_len): (u64, usize) = match decode_varint(frozen_slice(body)) {
        Some(v) => v,
        None => return Content::Malformed,
    };
    if context_id != DEFAULT_CONTEXT_ID {
        Content::Foreign
    } else if body.len() - context_len > MAX_DATAGRAM_SIZE {
        Content::Oversized
    } else {
        Content::Payload(frozen_from(body, context_len))
    }
}

impl Decoder {
    /// Takes in the next bytes of the stream and returns the payloads that they
    /// complete, in order. Capsules of other types and datagrams of other
    /// contexts are passed over; datagrams too long to deliver are counted.
    pub fn push(&mut self, chunk: &[u8]) -> (r: Result<Vec<bytes::Bytes>, CapsuleError>)
        requires
            old(self).wf(),
            old(self).held().len() + chunk@.len() <= isize::MAX,
            old(self).dropped() + old(self).held().len() + chunk@.len() <= u64::MAX,
        ensures
            final(self).wf(),
            ({
                let outcome = feed(old(self).held(), old(self).skip(), chunk@);
                &&& final(self).held() == outcome.rest
                &&& final(self).skip() == outcome.skip
                &&& final(self).dropped() == old(self).dropped() + outcome.dropped
                &&& match r {
                    Ok(datagrams) => outcome.failed.is_none() && payloads(datagrams@)
                        == outcome.datagrams,
                    Err(e) => outcome.failed == Some(e),
                }
            }),
    {
        let skipped: usize = if self.skip_remaining < chunk.len() as u64 {
            self.skip_remaining as usize
        } else {
            chunk.len()
        };
        self.skip_remaining = self.skip_remaining - skipped as u64;
        if self.skip_remaining > 0 {
            let none: Vec<bytes::Bytes> = Vec::new();
            assert(payloads(none@) =~= Seq::<Seq<u8>>::empty());
            return Ok(none);
        }
        let fresh: &[u8] = vstd::slice::slice_subrange(chunk, skipped, chunk.len());
        assert(fresh@ =~= chunk@.skip(skipped as int));
        self.buffer.extend_from_slice(fresh);
        let ghost all = buffer_bytes(self.buffer);
        let ghost dropped = self.dropped_oversized;
        let mut datagrams: Vec<bytes::Bytes> = Vec::new();
        assert(drain(all) =~= drain(all).after(payloads(datagrams@), 0));
        let mut reading: bool = true;
        while reading
            invariant
                all == old(self).held() + chunk@.skip(skipped as int),
                skipped == old(self).skip(),
                skipped <= chunk@.len(),
                dropped == old(self).dropped(),
                dropped + all.len() <= u64::MAX,
                dropped <= self.dropped_oversized,
                self.dropped_oversized + buffer_bytes(self.buffer).len() <= dropped + all.len(),
                self.wf(),
                reading ==> self.skip_remaining == 0,
                reading ==> drain(all) == drain(buffer_bytes(self.buffer)).after(
                    payloads(datagrams@),
                    (self.dropped_oversized - dropped) as nat,
                ),
                !reading ==> drain(all) == (Drained {
                    datagrams: payloads(datagrams@),
                    dropped: (self.dropped_oversized - dropped) as nat,
                    rest: buffer_bytes(self.buffer),
                    skip: self.skip_remaining as nat,
                    failed: None,
                }),
            decreases
                    if reading {
                        1int
                    } else {
                        0int
                    },
                    buffer_bytes(self.buffer).len(),
        {
            let ghost earlier = payloads(datagrams@);
            let ghost lost = self.dropped_oversized;
            match self.read_capsule() {
                Err(e) => return Err(e),
                Ok(Progress::Waiting) => {
                    reading = false;
                    assert(earlier + Seq::<Seq<u8>>::empty() =~= earlier);
                },
                Ok(Progress::Passed) => {
                    assert(earlier + Seq::<Seq<u8>>::empty() =~= earlier);
                    assert(drain(buffer_bytes(self.buffer)).after(
                        Seq::empty(),
                        (self.dropped_oversized - lost) as nat,
                    ).after(earlier, (lost - dropped) as nat) =~= drain(
                        buffer_bytes(self.buffer),
                    ).after(earlier, (self.dropped_oversized - dropped) as nat));
                },
                Ok(Progress::Delivered(payload)) => {
                    let ghost bytes = frozen_bytes(payload);
                    datagrams.push(payload);
                    assert(payloads(datagrams@) =~= earlier + seq![bytes]);
                    assert(drain(buffer_bytes(self.buffer)).after(seq![bytes], 0).after(
                        earlier,
                        (lost - dropped) as nat,
                    ) =~= drain(buffer_bytes(self.buffer)).after(
                        payloads(datagrams@),
                        (self.dropped_oversized - dropped) as nat,
                    ));
                },
            }
        }
        Ok(datagrams)
    }

    /// Reads the capsule at the start of the buffer.
    fn read_capsule(&mut self) -> (r: Result<Progress, CapsuleError>)
        requires
            old(self).skip_remaining == 0,
            old(self).dropped_oversized + buffer_bytes(old(self).buffer).len() <= u64::MAX,
        ensures
            final(self).wf(),
            old(self).dropped_oversized <= final(self).dropped_oversized,
            final(self).dropped_oversized + buffer_bytes(final(self).buffer).len()
                <= old(self).dropped_oversized + buffer_bytes(old(self).buffer).len(),
            ({
                let had = buffer_bytes(old(self).buffer);
                let left = buffer_bytes(final(self).buffer);
                let lost = (final(self).dropped_oversized - old(self).dropped_oversized) as nat;
                match r {
                    Err(e) => lost == 0 && drain(had) == stopped(
                        left,
                        final(self).skip_remaining as nat,
                        Some(e),
                    ),
                    Ok(Progress::Waiting) => drain(had) == stopped(
                        left,
                        final(self).skip_remaining as nat,
                        None,
                    ).after(Seq::empty(), lost),
                    Ok(Progress::Passed) => final(self).skip_remaining == 0 && left.len()
                        < had.len() && drain(had) == drain(left).after(Seq::empty(), lost),
                    Ok(Progress::Delivered(payload)) => final(self).skip_remaining == 0 && lost == 0
                        && left.len() < had.len() && drain(had) == drain(left).after(
                        seq![frozen_bytes(payload)],
                        0,
                    ),
                }
            }),
    {
        let ghost had = buffer_bytes(self.buffer);
        proof {
            assert(stopped(had, 0, None).after(Seq::empty(), 0) =~= stopped(had, 0, None));
        }
        let (capsule_type, capsule_len, header_len): (u64, u64, usize) = match decode_header(
            buffer_slice(&self.buffer),
        ) {
            Some(v) => v,
            None => return Ok(Progress::Waiting),
        };
        let counted: bool = capsule_type == DATAGRAM_CAPSULE_TYPE;
        if counted && capsule_len > usize::MAX as u64 {
            return Err(CapsuleError::LengthTooLarge);
        }
        if !counted || capsule_len > MAX_DATAGRAM_SIZE as u64 + 8 {
            if counted {
                self.dropped_oversized = self.dropped_oversized + 1;
            }
            buffer_advance(&mut self.buffer, header_len);
            self.pass_over(capsule_len);
            proof {
                if had.len() >= header_len + capsule_len {
                    assert(had.skip(header_len as int).skip(capsule_len as int) =~= had.skip(
                        header_len + capsule_len,
                    ));
                }
            }
            return Ok(
                if self.skip_remaining > 0 {
                    Progress::Waiting
                } else {
                    Progress::Passed
                },
            );
        }
        let frame_len: usize = header_len + capsule_len as usize;
        if self.buffer.len() < frame_len {
            return Ok(Progress::Waiting);
        }
        let frame: bytes::Bytes = self.buffer.split_to(frame_len).freeze();
        let body: bytes::Bytes = frozen_from(&frame, header_len);
        assert(frozen_bytes(body) =~= had.subrange(header_len as int, frame_len as int));
        let ghost left = buffer_bytes(self.buffer);
        proof {
            assert(drain(left).after(Seq::empty(), 0) =~= drain(left));
        }
        match read_body(&body) {
            Content::Malformed => Err(CapsuleError::MissingContextId),
            Content::Foreign => Ok(Progress::Passed),
            Content::Oversized => {
                self.dropped_oversized = self.dropped_oversized + 1;
                Ok(Progress::Passed)
            },
            Content::Payload(payload) => Ok(Progress::Delivered(payload)),
        }
    }

    /// Drops the body of a capsule, as far as it has arrived, and notes how much
    /// of it is still to come.
    fn pass_over(&mut self, body: u64)
        ensures
            final(self).dropped_oversized == old(self).dropped_oversized,
            ({
                let had = buffer_bytes(old(self).buffer);
                if had.len() < body {
                    &&& buffer_bytes(final(self).buffer) == Seq::<u8>::empty()
                    &&& final(self).skip_remaining == body - had.len()
                } else {
                    &&& buffer_bytes(final(self).buffer) == had.skip(body as int)
                    &&& final(self).skip_remaining == 0
                }
            }),
    {
        let len: usize = self.buffer.len();
        let available: usize = if (len as u64) < body {
            len
        } else {
            body as usize
        };
        buffer_advance(&mut self.buffer, available);
        assert(buffer_bytes(old(self).buffer).skip(len as int) =~= Seq::<u8>::empty());
        self.skip_remaining = body - available as u64;
    }
}

/// A payload that was written is delivered, and reading goes on behind it.
pub proof fn law_datagram_round_trip(payload: Seq<u8>, rest: Seq<u8>)
    requires
        payload.len() <= MAX_DATAGRAM_SIZE,
    ensures
        drain(datagram_capsule(payload) + rest) == drain(rest).after(seq![payload], 0),
{
    let kind = varint_bytes(DATAGRAM_CAPSULE_TYPE as nat);
    let length = varint_bytes(payload.len() + 1);
    let context = varint_bytes(DEFAULT_CONTEXT_ID as nat);
    let s = datagram_capsule(payload) + rest;
    lemma_varint_bytes_len(DATAGRAM_CAPSULE_TYPE as nat);
    lemma_varint_bytes_len(payload.len() + 1);
    lemma_varint_bytes_len(DEFAULT_CONTEXT_ID as nat);
    law_varint_round_trip(DATAGRAM_CAPSULE_TYPE as nat, length + context + payload + rest);
    assert(s =~= kind + (length + context + payload + rest));
    law_varint_round_trip(payload.len() + 1, context + payload + rest);
    assert(s.skip(kind.len() as int) =~= length + (context + payload + rest));
    let header = kind.len() + length.len();
    let body = payload.len() + 1;
    reveal(self::header);
    assert(step(s) == (Step::Datagram { header, body }));
    assert(s.subrange(header as int, (header + body) as int) =~= context + payload);
    law_varint_round_trip(DEFAULT_CONTEXT_ID as nat, payload);
    assert((context + payload).skip(context.len() as int) =~= payload);
    assert(s.skip((header + body) as int) =~= rest);
}

/// The stream that carries the payloads, in order.
pub open spec fn datagram_stream(payloads: Seq<Seq<u8>>) -> Seq<u8>
    decreases payloads.len(),
{
    if payloads.len() == 0 {
        Seq::empty()
    } else {
        datagram_capsule(payloads[0]) + datagram_stream(payloads.drop_first())
    }
}

/// What was written as a stream of datagrams is read back whole and in order.
pub proof fn law_stream_round_trip(payloads: Seq<Seq<u8>>)
    requires
        forall|i: int| 0 <= i < payloads.len() ==> (#[trigger] payloads[i]).len() <= MAX_DATAGRAM_SIZE,
    ensures
        drain(datagram_stream(payloads)) == (Drained {
            datagrams: payloads,
            dropped: 0,
            rest: Seq::empty(),
            skip: 0,
            failed: None,
        }),
    decreases payloads.len(),
{
    if payloads.len() == 0 {
        reveal(header);
        assert(drain(Seq::empty()).datagrams =~= payloads);
    } else {
        law_stream_round_trip(payloads.drop_first());
        law_datagram_round_trip(payloads[0], datagram_stream(payloads.drop_first()));
        assert(seq![payloads[0]] + payloads.drop_first() =~= payloads);
    }
}

/// A number that is there stays there when more bytes follow.
proof fn lemma_varint_more(s: Seq<u8>, t: Seq<u8>)
    requires
        varint(s).is_some(),
    ensures
        varint(s + t) == varint(s),
        1 <= varint(s).unwrap().1 <= s.len(),
{
    let len = varint_len(s[0]);
    assert((s + t).subrange(1, len as int) =~= s.subrange(1, len as int));
}

/// A header that is there stays there when more bytes follow.
proof fn lemma_header_more(s: Seq<u8>, t: Seq<u8>)
    requires
        header(s).is_some(),
    ensures
        header(s + t) == header(s),
        2 <= header(s).unwrap().2 <= s.len(),
{
    reveal(header);
    lemma_varint_more(s, t);
    let type_len = varint(s).unwrap().1;
    lemma_varint_more(s.skip(type_len as int), t);
    assert((s + t).skip(type_len as int) =~= s.skip(type_len as int) + t);
}

/// A capsule that is there stays there when more bytes follow.
proof fn lemma_step_more(s: Seq<u8>, t: Seq<u8>)
    requires
        step(s) !is Incomplete,
    ensures
        step(s + t) == step(s),
        step(s) matches Step::Discard { header, body, .. } ==> 2 <= header <= s.len(),
        step(s) matches Step::Datagram { header, body } ==> 2 <= header && header + body <= s.len()
            && (s + t).subrange(header as int, (header + body) as int) == s.subrange(
            header as int,
            (header + body) as int,
        ) && (s + t).skip((header + body) as int) == s.skip((header + body) as int) + t,
{
    lemma_header_more(s, t);
    match step(s) {
        Step::Datagram { header, body } => {
            let whole = (header + body) as int;
            assert((s + t).skip(whole) =~= s.skip(whole) + t);
            assert((s + t).subrange(header as int, whole) =~= s.subrange(header as int, whole));
        },
        _ => {},
    }
}

/// Whether reading goes on where it stopped when more bytes follow.
spec fn goes_on(s: Seq<u8>, t: Seq<u8>) -> bool {
    let first = drain(s);
    drain(s + t) == feed(first.rest, first.skip, t).after(first.datagrams, first.dropped)
}

proof fn lemma_more_incomplete(s: Seq<u8>, t: Seq<u8>)
    requires
        step(s) is Incomplete,
    ensures
        goes_on(s, t),
{
    assert(drain(s) == stopped(s, 0, None));
    assert(t.skip(0) =~= t);
    assert(drain(s + t).after(Seq::empty(), 0) =~= drain(s + t));
}

proof fn lemma_more_pending(s: Seq<u8>, t: Seq<u8>, header: nat, body: nat, counted: bool)
    requires
        step(s) == (Step::Discard { header, body, counted }),
        step(s + t) == step(s),
        s.len() < header + body,
    ensures
        goes_on(s, t),
{
    let count = if counted {
        1nat
    } else {
        0
    };
    let missing = (header + body - s.len()) as nat;
    let empty = Seq::<u8>::empty();
    let none = Seq::<Seq<u8>>::empty();
    assert(none + none =~= none);
    assert(drain(s) == stopped(empty, missing, None).after(none, count));
    if t.len() < missing {
        assert(drain(s + t) == stopped(empty, (missing - t.len()) as nat, None).after(none, count));
    } else {
        assert((s + t).skip((header + body) as int) =~= empty + t.skip(missing as int));
        assert(drain(s + t) == drain(empty + t.skip(missing as int)).after(none, count));
    }
}

proof fn lemma_more_passed(s: Seq<u8>, t: Seq<u8>, tail: Seq<u8>, header: nat, body: nat, counted: bool)
    requires
        step(s) == (Step::Discard { header, body, counted }),
        step(s + t) == step(s),
        s.len() >= header + body,
        tail == s.skip((header + body) as int),
        goes_on(tail, t),
    ensures
        goes_on(s, t),
{
    let count = if counted {
        1nat
    } else {
        0
    };
    assert((s + t).skip((header + body) as int) =~= tail + t);
    assert(drain(s) == drain(tail).after(Seq::empty(), count));
    assert(drain(s + t) == drain(tail + t).after(Seq::empty(), count));
    lemma_after_after(
        feed(drain(tail).rest, drain(tail).skip, t),
        drain(tail).datagrams,
        drain(tail).dropped,
        Seq::empty(),
        count,
    );
}

proof fn lemma_more_datagram(s: Seq<u8>, t: Seq<u8>, tail: Seq<u8>, header: nat, body: nat)
    requires
        step(s) == (Step::Datagram { header, body }),
        step(s + t) == step(s),
        tail == s.skip((header + body) as int),
        (s + t).skip((header + body) as int) == tail + t,
        (s + t).subrange(header as int, (header + body) as int) == s.subrange(
            header as int,
            (header + body) as int,
        ),
        goes_on(tail, t),
        drain(s).failed.is_none(),
    ensures
        goes_on(s, t),
{
    let later = feed(drain(tail).rest, drain(tail).skip, t);
    match body_of(s.subrange(header as int, (header + body) as int)) {
        Body::Malformed => {},
        Body::Foreign => {
            assert(drain(s) == drain(tail));
            assert(drain(s + t) == drain(tail + t));
        },
        Body::Oversized => {
            assert(drain(s) == drain(tail).after(Seq::empty(), 1));
            assert(drain(s + t) == drain(tail + t).after(Seq::empty(), 1));
            lemma_after_after(later, drain(tail).datagrams, drain(tail).dropped, Seq::empty(), 1);
        },
        Body::Payload(payload) => {
            assert(drain(s) == drain(tail).after(seq![payload], 0));
            assert(drain(s + t) == drain(tail + t).after(seq![payload], 0));
            lemma_after_after(later, drain(tail).datagrams, drain(tail).dropped, seq![payload], 0);
        },
    }
}

/// Reading goes on where it stopped when more bytes follow.
proof fn lemma_drain_more(s: Seq<u8>, t: Seq<u8>)
    requires
        drain(s).failed.is_none(),
    ensures
        goes_on(s, t),
    decreases s.len(),
{
    match step(s) {
        Step::Incomplete => {
            lemma_more_incomplete(s, t);
        },
        Step::Unaddressable => {},
        Step::Discard { header, body, counted } => {
            lemma_step_more(s, t);
            if s.len() < header + body {
                lemma_more_pending(s, t, header, body, counted);
            } else {
                let tail = s.skip((header + body) as int);
                lemma_drain_more(tail, t);
                lemma_more_passed(s, t, tail, header, body, counted);
            }
        },
        Step::Datagram { header, body } => {
            lemma_step_more(s, t);
            let tail = s.skip((header + body) as int);
            lemma_drain_more(tail, t);
            lemma_more_datagram(s, t, tail, header, body);
        },
    }
}

proof fn lemma_after_after(
    d: Drained,
    datagrams: Seq<Seq<u8>>,
    dropped: nat,
    earlier: Seq<Seq<u8>>,
    lost: nat,
)
    ensures
        d.after(datagrams, dropped).after(earlier, lost) == d.after(
            earlier + datagrams,
            lost + dropped,
        ),
{
    assert(earlier + (datagrams + d.datagrams) =~= (earlier + datagrams) + d.datagrams);
}

/// How a stream is cut into pieces does not matter: two pieces, one after the
/// other, deliver, drop and hold back what both at once do.
pub proof fn law_fragmentation(held: Seq<u8>, skip: nat, a: Seq<u8>, b: Seq<u8>)
    requires
        skip > 0 ==> held.len() == 0,
        feed(held, skip, a).failed.is_none(),
    ensures
        ({
            let first = feed(held, skip, a);
            feed(held, skip, a + b) == feed(first.rest, first.skip, b).after(
                first.datagrams,
                first.dropped,
            )
        }),
{
    let first = feed(held, skip, a);
    if skip > a.len() {
        assert(feed(first.rest, first.skip, b).after(Seq::empty(), 0) =~= feed(
            first.rest,
            first.skip,
            b,
        ));
        if skip <= a.len() + b.len() {
            assert((a + b).skip(skip as int) =~= b.skip((skip - a.len()) as int));
        }
    } else {
        lemma_drain_more(held + a.skip(skip as int), b);
        assert(held + (a + b).skip(skip as int) =~= held + a.skip(skip as int) + b);
    }
}

/// Bytes that cannot be read stay so when more follow.
proof fn lemma_failure_stays(s: Seq<u8>, t: Seq<u8>)
    requires
        drain(s).failed.is_some(),
    ensures
        drain(s + t).failed.is_some(),
    decreases s.len(),
{
    if step(s) !is Incomplete {
        lemma_step_more(s, t);
    }
    match step(s) {
        Step::Discard { header, body, .. } => {
            if s.len() >= header + body {
                let tail = s.skip((header + body) as int);
                lemma_failure_stays(tail, t);
                assert((s + t).skip((header + body) as int) =~= tail + t);
            }
        },
        Step::Datagram { header, body } => {
            let tail = s.skip((header + body) as int);
            match body_of(s.subrange(header as int, (header + body) as int)) {
                Body::Malformed => {},
                _ => {
                    lemma_failure_stays(tail, t);
                },
            }
        },
        _ => {},
    }
}

/// What is held back has no whole capsule.
proof fn lemma_rest_is_at_rest(s: Seq<u8>)
    requires
        drain(s).failed.is_none(),
    ensures
        drain(drain(s).rest) == stopped(drain(s).rest, 0, None),
    decreases s.len(),
{
    reveal(header);
    match step(s) {
        Step::Discard { header, body, .. } => {
            if s.len() >= header + body {
                lemma_rest_is_at_rest(s.skip((header + body) as int));
            } else {
                assert(step(Seq::<u8>::empty()) is Incomplete);
            }
        },
        Step::Datagram { header, body } => {
            match body_of(s.subrange(header as int, (header + body) as int)) {
                Body::Malformed => {},
                _ => {
                    lemma_rest_is_at_rest(s.skip((header + body) as int));
                },
            }
        },
        _ => {},
    }
}

/// What a decoder makes of pieces of a stream, one after the other.
pub open spec fn feed_all(held: Seq<u8>, skip: nat, pieces: Seq<Seq<u8>>) -> Drained
    decreases pieces.len(),
{
    if pieces.len() == 0 {
        stopped(held, skip, None)
    } else {
        let first = feed(held, skip, pieces[0]);
        if first.failed.is_some() {
            first
        } else {
            feed_all(first.rest, first.skip, pieces.drop_first()).after(
                first.datagrams,
                first.dropped,
            )
        }
    }
}

/// Into how many pieces a stream is cut, and where, does not matter: as long as the
/// whole can be read, its pieces deliver, drop and hold back what the whole does.
pub proof fn law_any_cut(held: Seq<u8>, skip: nat, pieces: Seq<Seq<u8>>)
    requires
        skip > 0 ==> held.len() == 0,
        drain(held) == stopped(held, 0, None),
        feed(held, skip, pieces.flatten()).failed.is_none(),
    ensures
        feed_all(held, skip, pieces) == feed(held, skip, pieces.flatten()),
    decreases pieces.len(),
{
    if pieces.len() == 0 {
        assert(pieces.flatten() =~= Seq::empty());
        assert(held + Seq::<u8>::empty().skip(0) =~= held);
    } else {
        let a = pieces[0];
        let b = pieces.drop_first().flatten();
        let first = feed(held, skip, a);
        assert(pieces.flatten() == a + b);
        if first.failed.is_some() {
            lemma_failure_stays(held + a.skip(skip as int), b);
            assert(held + (a + b).skip(skip as int) =~= held + a.skip(skip as int) + b);
        }
        law_fragmentation(held, skip, a, b);
        if skip <= a.len() {
            lemma_rest_is_at_rest(held + a.skip(skip as int));
            law_held_back_is_bounded(held + a.skip(skip as int));
        }
        law_any_cut(first.rest, first.skip, pieces.drop_first());
    }
}

/// Datagrams that were written to a stream come out of it again, each once and in
/// order, however the stream is cut up on its way.
pub proof fn law_cut_stream_round_trip(payloads: Seq<Seq<u8>>, pieces: Seq<Seq<u8>>)
    requires
        forall|i: int| 0 <= i < payloads.len() ==> (#[trigger] payloads[i]).len() <= MAX_DATAGRAM_SIZE,
        pieces.flatten() == datagram_stream(payloads),
    ensures
        feed_all(Seq::empty(), 0, pieces) == (Drained {
            datagrams: payloads,
            dropped: 0,
            rest: Seq::empty(),
            skip: 0,
            failed: None,
        }),
{
    let none = Seq::<u8>::empty();
    law_stream_round_trip(payloads);
    assert(none + datagram_stream(payloads).skip(0) =~= datagram_stream(payloads));
    assert(drain(none) == stopped(none, 0, None)) by {
        reveal(header);
    }
    law_any_cut(none, 0, pieces);
}

/// A decoder never holds back more than one capsule that it could deliver.
pub proof fn law_held_back_is_bounded(s: Seq<u8>)
    requires
        drain(s).failed.is_none(),
    ensures
        drain(s).rest.len() < MAX_DATAGRAM_SIZE + 8 + 16,
        drain(s).skip > 0 ==> drain(s).rest.len() == 0,
    decreases s.len(),
{
    reveal(header);
    match step(s) {
        Step::Incomplete => {},
        Step::Unaddressable => {},
        Step::Discard { header, body, counted } => {
            if s.len() >= header + body {
                law_held_back_is_bounded(s.skip((header + body) as int));
            }
        },
        Step::Datagram { header, body } => {
            law_held_back_is_bounded(s.skip((header + body) as int));
        },
    }
}

/// The bytes of a capsule: its type, the length of its body, and the body.
pub open spec fn capsule_of(kind: nat, body: Seq<u8>) -> Seq<u8> {
    varint_bytes(kind) + varint_bytes(body.len()) + body
}

/// A number below 64 is its own byte. One below 16384 takes two bytes, the first with 64
/// added to it; the others take four bytes, and the largest eight.
pub proof fn law_bytes_of_a_number(value: nat)
    requires
        value <= MAX_VARINT,
    ensures
        value < 64 ==> varint_bytes(value) == seq![value as u8],
        64 <= value < 16384 ==> varint_bytes(value) == seq![
            (64 + value / 256) as u8,
            (value % 256) as u8,
        ],
        16384 <= value < 0x4000_0000 ==> varint_bytes(value).len() == 4,
        0x4000_0000 <= value ==> varint_bytes(value).len() == 8,
{
    reveal_with_fuel(big_endian, 9);
    if value < 64 {
        assert(varint_bytes(value) =~= seq![value as u8]);
    } else if value < 16384 {
        assert((0x4000 + value) / 256 == 64 + value / 256);
        assert((0x4000 + value) % 256 == value % 256);
        assert(varint_bytes(value) =~= seq![(64 + value / 256) as u8, (value % 256) as u8]);
    }
}

/// A datagram of at most 62 bytes is a zero, its length and one, a zero, and itself; one
/// of at most 16382 has two bytes for its length.
pub proof fn law_bytes_of_a_datagram(payload: Seq<u8>)
    ensures
        payload.len() <= 62 ==> datagram_capsule(payload) == seq![
            0u8,
            (payload.len() + 1) as u8,
            0u8,
        ] + payload,
        63 <= payload.len() <= 16382 ==> datagram_capsule(payload) == seq![
            0u8,
            (64 + (payload.len() + 1) / 256) as u8,
            ((payload.len() + 1) % 256) as u8,
            0u8,
        ] + payload,
{
    law_bytes_of_a_number(0);
    if payload.len() <= 16382 {
        law_bytes_of_a_number(payload.len() + 1);
    }
    if payload.len() <= 62 {
        assert(datagram_capsule(payload) =~= seq![0u8, (payload.len() + 1) as u8, 0u8] + payload);
    } else if payload.len() <= 16382 {
        assert(datagram_capsule(payload) =~= seq![
            0u8,
            (64 + (payload.len() + 1) / 256) as u8,
            ((payload.len() + 1) % 256) as u8,
            0u8,
        ] + payload);
    }
}

proof fn lemma_capsule_header(kind: nat, body: Seq<u8>, rest: Seq<u8>)
    requires
        kind <= MAX_VARINT,
        body.len() <= MAX_VARINT,
    ensures
        ({
            let s = capsule_of(kind, body) + rest;
            let len = varint_bytes(kind).len() + varint_bytes(body.len()).len();
            &&& header(s) == Some((kind, body.len(), len))
            &&& s.len() >= len + body.len()
            &&& s.subrange(len as int, (len + body.len()) as int) == body
            &&& s.skip((len + body.len()) as int) == rest
        }),
{
    let first = varint_bytes(kind);
    let second = varint_bytes(body.len());
    let s = capsule_of(kind, body) + rest;
    law_varint_round_trip(kind, second + body + rest);
    assert(s =~= first + (second + body + rest));
    law_varint_round_trip(body.len(), body + rest);
    assert(s.skip(first.len() as int) =~= second + (body + rest));
    reveal(header);
    let len = first.len() + second.len();
    assert(s.subrange(len as int, (len + body.len()) as int) =~= body);
    assert(s.skip((len + body.len()) as int) =~= rest);
}

/// A capsule of another type than that of datagrams is passed over, whatever it holds.
pub proof fn law_other_capsules_are_passed_over(kind: nat, body: Seq<u8>, rest: Seq<u8>)
    requires
        0 < kind <= MAX_VARINT,
        body.len() <= MAX_VARINT,
    ensures
        drain(capsule_of(kind, body) + rest) == drain(rest),
{
    lemma_capsule_header(kind, body, rest);
    assert(drain(rest).after(Seq::empty(), 0) =~= drain(rest));
}

/// A datagram of another context than that of plain payloads is passed over.
pub proof fn law_other_contexts_are_passed_over(context: nat, payload: Seq<u8>, rest: Seq<u8>)
    requires
        0 < context <= MAX_VARINT,
        varint_bytes(context).len() + payload.len() <= 65_535,
    ensures
        drain(capsule_of(0, varint_bytes(context) + payload) + rest) == drain(rest),
{
    let body = varint_bytes(context) + payload;
    lemma_capsule_header(0, body, rest);
    law_varint_round_trip(context, payload);
}

/// A datagram that is longer than any that UDP can carry is counted and passed over.
pub proof fn law_long_datagrams_are_counted(payload: Seq<u8>, rest: Seq<u8>)
    requires
        65_527 < payload.len() < u32::MAX,
    ensures
        drain(datagram_capsule(payload) + rest) == drain(rest).after(Seq::empty(), 1),
{
    let body = varint_bytes(0) + payload;
    lemma_varint_bytes_len(0);
    assert(datagram_capsule(payload) =~= capsule_of(0, body));
    lemma_capsule_header(0, body, rest);
    law_varint_round_trip(0, payload);
    assert(drain(rest).after(Seq::empty(), 1) =~= drain(rest).after(Seq::empty(), 1));
}

/// A datagram without a context ends the reading.
pub proof fn law_datagram_needs_a_context(rest: Seq<u8>)
    ensures
        drain(capsule_of(0, Seq::empty()) + rest).failed == Some(CapsuleError::MissingContextId),
        drain(capsule_of(0, Seq::empty()) + rest).datagrams.len() == 0,
{
    lemma_capsule_header(0, Seq::empty(), rest);
}

} // verus!
