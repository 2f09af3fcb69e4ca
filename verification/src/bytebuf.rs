//! What the library relies on of the `bytes` crate: growable and frozen byte
//! buffers, seen as sequences of bytes.

use vstd::prelude::*;

verus! {

/// The growable buffer of the `bytes` crate.
#[verifier::external_type_specification]
#[verifier::external_body]
pub struct ExBytesMut(bytes::BytesMut);

/// The frozen, cheaply cloned buffer of the `bytes` crate.
#[verifier::external_type_specification]
#[verifier::external_body]
pub struct ExBytes(bytes::Bytes);

/// The bytes that a growable buffer holds.
pub uninterp spec fn buffer_bytes(buffer: bytes::BytesMut) -> Seq<u8>;

/// The bytes that a frozen buffer holds.
pub uninterp spec fn frozen_bytes(frozen: bytes::Bytes) -> Seq<u8>;

/// `BytesMut::new`: an empty buffer.
pub assume_specification[ bytes::BytesMut::new ]() -> (r: bytes::BytesMut)
    ensures
        buffer_bytes(r) == Seq::<u8>::empty(),
;

/// `BytesMut::len`: how many bytes the buffer holds; an allocation never
/// exceeds `isize::MAX` bytes.
pub assume_specification[ bytes::BytesMut::len ](this: &bytes::BytesMut) -> (r: usize)
    ensures
        r == buffer_bytes(*this).len(),
        r <= isize::MAX,
;

/// `BytesMut::extend_from_slice`: appends the bytes. It panics where the result
/// would exceed the largest allocation.
pub assume_specification[ bytes::BytesMut::extend_from_slice ](
    this: &mut bytes::BytesMut,
    extend: &[u8],
)
    requires
        buffer_bytes(*old(this)).len() + extend@.len() <= isize::MAX,
    ensures
        buffer_bytes(*final(this)) == buffer_bytes(*old(this)) + extend@,
;

/// `BytesMut::split_to`: hands out the first `at` bytes and keeps the others.
/// It panics where there are fewer.
pub assume_specification[ bytes::BytesMut::split_to ](
    this: &mut bytes::BytesMut,
    at: usize,
) -> (r: bytes::BytesMut)
    requires
        at <= buffer_bytes(*old(this)).len(),
    ensures
        buffer_bytes(r) == buffer_bytes(*old(this)).subrange(0, at as int),
        buffer_bytes(*final(this)) == buffer_bytes(*old(this)).skip(at as int),
;

/// `BytesMut::freeze`: the same bytes, frozen.
pub assume_specification[ bytes::BytesMut::freeze ](this: bytes::BytesMut) -> (r: bytes::Bytes)
    ensures
        frozen_bytes(r) == buffer_bytes(this),
;

/// `Bytes::len`: how many bytes the frozen buffer holds.
pub assume_specification[ bytes::Bytes::len ](this: &bytes::Bytes) -> (r: usize)
    ensures
        r == frozen_bytes(*this).len(),
;

/// `Bytes::copy_from_slice`: a frozen copy of the bytes.
pub assume_specification[ bytes::Bytes::copy_from_slice ](data: &[u8]) -> (r: bytes::Bytes)
    ensures
        frozen_bytes(r) == data@,
;

/// `<BytesMut as Deref>::deref`: the bytes of the buffer as a slice.
#[verifier::external_body]
pub(crate) fn buffer_slice(buffer: &bytes::BytesMut) -> (r: &[u8])
    ensures
        r@ == buffer_bytes(*buffer),
{
    &buffer[..]
}

/// `<Bytes as Deref>::deref`: the bytes of the frozen buffer as a slice.
#[verifier::external_body]
pub(crate) fn frozen_slice(frozen: &bytes::Bytes) -> (r: &[u8])
    ensures
        r@ == frozen_bytes(*frozen),
{
    &frozen[..]
}

/// `<BytesMut as Buf>::advance`: drops the first `count` bytes. It panics where
/// there are fewer.
#[verifier::external_body]
pub(crate) fn buffer_advance(buffer: &mut bytes::BytesMut, count: usize)
    requires
        count <= buffer_bytes(*old(buffer)).len(),
    ensures
        buffer_bytes(*final(buffer)) == buffer_bytes(*old(buffer)).skip(count as int),
{
    bytes::Buf::advance(buffer, count);
}

/// `Bytes::slice` with a range that is open above: the bytes from `from` on. It
/// panics where `from` lies behind the end.
#[verifier::external_body]
pub(crate) fn frozen_from(frozen: &bytes::Bytes, from: usize) -> (r: bytes::Bytes)
    requires
        from <= frozen_bytes(*frozen).len(),
    ensures
        frozen_bytes(r) == frozen_bytes(*frozen).skip(from as int),
{
    frozen.slice(from..)
}

/// `<BytesMut as BufMut>::put_u8`: appends one byte. It panics where the result
/// would exceed the largest allocation.
#[verifier::external_body]
pub(crate) fn put_u8(buffer: &mut bytes::BytesMut, n: u8)
    requires
        buffer_bytes(*old(buffer)).len() + 1 <= isize::MAX,
    ensures
        buffer_bytes(*final(buffer)) == buffer_bytes(*old(buffer)).push(n),
{
    bytes::BufMut::put_u8(buffer, n);
}

/// The `count` lowest bytes of `n`, the highest first.
pub open spec fn big_endian(n: nat, count: nat) -> Seq<u8>
    decreases count,
{
    if count == 0 {
        Seq::empty()
    } else {
        big_endian(n / 256, (count - 1) as nat).push((n % 256) as u8)
    }
}

/// `<BytesMut as BufMut>::put_u16`: appends the number, its high byte first. It
/// panics where the result would exceed the largest allocation.
#[verifier::external_body]
pub(crate) fn put_u16(buffer: &mut bytes::BytesMut, n: u16)
    requires
        buffer_bytes(*old(buffer)).len() + 2 <= isize::MAX,
    ensures
        buffer_bytes(*final(buffer)) == buffer_bytes(*old(buffer)) + big_endian(n as nat, 2),
{
    bytes::BufMut::put_u16(buffer, n);
}

/// `<BytesMut as BufMut>::put_u32`: appends the number, its high byte first. It
/// panics where the result would exceed the largest allocation.
#[verifier::external_body]
pub(crate) fn put_u32(buffer: &mut bytes::BytesMut, n: u32)
    requires
        buffer_bytes(*old(buffer)).len() + 4 <= isize::MAX,
    ensures
        buffer_bytes(*final(buffer)) == buffer_bytes(*old(buffer)) + big_endian(n as nat, 4),
{
    bytes::BufMut::put_u32(buffer, n);
}

/// `<BytesMut as BufMut>::put_u64`: appends the number, its high byte first. It
/// panics where the result would exceed the largest allocation.
#[verifier::external_body]
pub(crate) fn put_u64(buffer: &mut bytes::BytesMut, n: u64)
    requires
        buffer_bytes(*old(buffer)).len() + 8 <= isize::MAX,
    ensures
        buffer_bytes(*final(buffer)) == buffer_bytes(*old(buffer)) + big_endian(n as nat, 8),
{
    bytes::BufMut::put_u64(buffer, n);
}

} // verus!
