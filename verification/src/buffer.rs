//! The byte buffers of the `bytes` crate, as far as the codec uses them.
//!
//! Nothing in this module is proved. Each function hands one call to the
//! outside crate and states what that call does to the buffer's contents,
//! which [`buf_bytes`] names. Growing a buffer can fail only where the
//! allocator does, which, as for `Vec`, is outside what is modelled here.

use crate::endian::{be_bytes, be_value};
use vstd::prelude::*;

verus! {

/// `bytes::BytesMut`, a growable buffer of bytes. Nothing inside it is seen
/// here; [`buf_bytes`] names what it holds.
#[verifier::external_type_specification]
#[verifier::external_body]
pub struct ExBytesMut(bytes::BytesMut);

/// `std::io::Error`, which the readers of byteorder hand back. It is only
/// ever told apart from success.
#[verifier::external_type_specification]
#[verifier::external_body]
pub struct ExIoError(std::io::Error);

/// `bytes::Bytes`, a buffer of bytes that no longer change. Nothing inside
/// it is seen here; [`frozen_bytes`] names what it holds.
#[verifier::external_type_specification]
#[verifier::external_body]
pub struct ExBytes(bytes::Bytes);

/// The bytes that a `BytesMut` holds, first to last.
pub uninterp spec fn buf_bytes(b: bytes::BytesMut) -> Seq<u8>;

/// The bytes that a `Bytes` holds, first to last.
pub uninterp spec fn frozen_bytes(b: bytes::Bytes) -> Seq<u8>;

/// `From<Vec<u8>>` for `Bytes`: a buffer that holds the bytes of the vector.
#[verifier::external_body]
pub(crate) fn bytes_from_vec(v: Vec<u8>) -> (b: bytes::Bytes)
    ensures
        frozen_bytes(b) == v@,
{
    bytes::Bytes::from(v)
}

/// `Bytes`'s `AsRef<[u8]>`: the bytes held, as a slice.
#[verifier::external_body]
pub(crate) fn bytes_as_slice(b: &bytes::Bytes) -> (s: &[u8])
    ensures
        s@ == frozen_bytes(*b),
{
    b.as_ref()
}

/// `Clone` for `Bytes`: a buffer that holds the same bytes.
pub assume_specification[ <bytes::Bytes as Clone>::clone ](b: &bytes::Bytes) -> (r: bytes::Bytes)
    ensures
        frozen_bytes(r) == frozen_bytes(*b),
;

/// `BytesMut::new`: a buffer of length 0.
#[verifier::external_body]
pub(crate) fn buf_new() -> (b: bytes::BytesMut)
    ensures
        buf_bytes(b) == Seq::<u8>::empty(),
{
    bytes::BytesMut::new()
}

/// `Clone` for `BytesMut`: a buffer of its own that holds the same bytes.
pub assume_specification[ <bytes::BytesMut as Clone>::clone ](b: &bytes::BytesMut) -> (r:
    bytes::BytesMut)
    ensures
        buf_bytes(r) == buf_bytes(*b),
;

/// `BytesMut::len`: the number of bytes held.
#[verifier::external_body]
pub(crate) fn buf_len(b: &bytes::BytesMut) -> (n: usize)
    ensures
        n == buf_bytes(*b).len(),
{
    b.len()
}

/// `BytesMut`'s `AsRef<[u8]>`: the bytes held, as a slice.
#[verifier::external_body]
pub(crate) fn buf_as_slice(b: &bytes::BytesMut) -> (s: &[u8])
    ensures
        s@ == buf_bytes(*b),
{
    b.as_ref()
}

/// `BytesMut::truncate`: keeps the first `len` bytes; no effect where the
/// buffer holds no more than that.
#[verifier::external_body]
pub(crate) fn buf_truncate(b: &mut bytes::BytesMut, len: usize)
    ensures
        buf_bytes(*final(b)) == if len <= buf_bytes(*old(b)).len() {
            buf_bytes(*old(b)).take(len as int)
        } else {
            buf_bytes(*old(b))
        },
{
    b.truncate(len)
}

/// `Buf::advance` on a `BytesMut`: drops the first `cnt` bytes.
#[verifier::external_body]
pub(crate) fn buf_advance(b: &mut bytes::BytesMut, cnt: usize)
    requires
        cnt <= buf_bytes(*old(b)).len(),
    ensures
        buf_bytes(*final(b)) == buf_bytes(*old(b)).skip(cnt as int),
{
    bytes::Buf::advance(b, cnt)
}

/// `BytesMut::split_to`: hands out the first `at` bytes and keeps the rest.
#[verifier::external_body]
pub(crate) fn buf_split_to(b: &mut bytes::BytesMut, at: usize) -> (head: bytes::BytesMut)
    requires
        at <= buf_bytes(*old(b)).len(),
    ensures
        buf_bytes(head) == buf_bytes(*old(b)).take(at as int),
        buf_bytes(*final(b)) == buf_bytes(*old(b)).skip(at as int),
{
    b.split_to(at)
}

/// `BytesMut::split`: hands out all the bytes and keeps none.
#[verifier::external_body]
pub(crate) fn buf_split(b: &mut bytes::BytesMut) -> (all: bytes::BytesMut)
    ensures
        buf_bytes(all) == buf_bytes(*old(b)),
        buf_bytes(*final(b)) == Seq::<u8>::empty(),
{
    b.split()
}

/// `BytesMut::unsplit`: appends the bytes of `other`.
#[verifier::external_body]
pub(crate) fn buf_unsplit(b: &mut bytes::BytesMut, other: bytes::BytesMut)
    ensures
        buf_bytes(*final(b)) == buf_bytes(*old(b)) + buf_bytes(other),
{
    b.unsplit(other)
}

/// `BytesMut::extend_from_slice`: appends the bytes of `extend`.
#[verifier::external_body]
pub(crate) fn buf_extend_from_slice(b: &mut bytes::BytesMut, extend: &[u8])
    ensures
        buf_bytes(*final(b)) == buf_bytes(*old(b)) + extend@,
{
    b.extend_from_slice(extend)
}

/// `BufMut::put_bytes` on a `BytesMut`: appends `cnt` bytes of value `val`.
#[verifier::external_body]
pub(crate) fn buf_put_bytes(b: &mut bytes::BytesMut, val: u8, cnt: usize)
    ensures
        buf_bytes(*final(b)) == buf_bytes(*old(b)) + Seq::new(cnt as nat, |i: int| val),
{
    bytes::BufMut::put_bytes(b, val, cnt)
}

/// `copy_within` on the bytes of a `BytesMut`: the bytes from `from` up to
/// `to` are copied to `dest` and onward, as if through a buffer of their
/// own; every other byte stays.
#[verifier::external_body]
pub(crate) fn buf_copy_within(b: &mut bytes::BytesMut, from: usize, to: usize, dest: usize)
    requires
        from <= to <= buf_bytes(*old(b)).len(),
        dest + (to - from) <= buf_bytes(*old(b)).len(),
    ensures
        buf_bytes(*final(b)) == buf_bytes(*old(b)).take(dest as int) + buf_bytes(
            *old(b),
        ).subrange(from as int, to as int) + buf_bytes(*old(b)).skip(dest + (to - from)),
{
    b.copy_within(from..to, dest)
}

/// `IndexMut` on the bytes of a `BytesMut`: the byte at `at` becomes `val`;
/// every other byte stays.
#[verifier::external_body]
pub(crate) fn buf_set(b: &mut bytes::BytesMut, at: usize, val: u8)
    requires
        at < buf_bytes(*old(b)).len(),
    ensures
        buf_bytes(*final(b)) == buf_bytes(*old(b)).update(at as int, val),
{
    b[at] = val
}

/// `BufMut::put_u8` on a `BytesMut`: appends one byte.
#[verifier::external_body]
pub(crate) fn put_u8(wtr: &mut bytes::BytesMut, n: u8)
    ensures
        buf_bytes(*final(wtr)) == buf_bytes(*old(wtr)).push(n),
{
    bytes::BufMut::put_u8(wtr, n)
}

/// `BufMut::put_slice` on a `BytesMut`: appends the bytes of `src`.
#[verifier::external_body]
pub(crate) fn put_slice(wtr: &mut bytes::BytesMut, src: &[u8])
    ensures
        buf_bytes(*final(wtr)) == buf_bytes(*old(wtr)) + src@,
{
    bytes::BufMut::put_slice(wtr, src)
}

/// `BufMut::put_u16` on a `BytesMut`: appends the 2 bytes of `n`, most
/// significant first.
#[verifier::external_body]
pub(crate) fn put_u16(wtr: &mut bytes::BytesMut, n: u16)
    ensures
        buf_bytes(*final(wtr)) == buf_bytes(*old(wtr)) + be_bytes(n as nat, 2),
{
    bytes::BufMut::put_u16(wtr, n)
}

/// `BufMut::put_u32` on a `BytesMut`: appends the 4 bytes of `n`, most
/// significant first.
#[verifier::external_body]
pub(crate) fn put_u32(wtr: &mut bytes::BytesMut, n: u32)
    ensures
        buf_bytes(*final(wtr)) == buf_bytes(*old(wtr)) + be_bytes(n as nat, 4),
{
    bytes::BufMut::put_u32(wtr, n)
}

/// `BufMut::put_u64` on a `BytesMut`: appends the 8 bytes of `n`, most
/// significant first.
#[verifier::external_body]
pub(crate) fn put_u64(wtr: &mut bytes::BytesMut, n: u64)
    ensures
        buf_bytes(*final(wtr)) == buf_bytes(*old(wtr)) + be_bytes(n as nat, 8),
{
    bytes::BufMut::put_u64(wtr, n)
}

/// `BufMut::put_u128` on a `BytesMut`: appends the 16 bytes of `n`, most
/// significant first.
#[verifier::external_body]
pub(crate) fn put_u128(wtr: &mut bytes::BytesMut, n: u128)
    ensures
        buf_bytes(*final(wtr)) == buf_bytes(*old(wtr)) + be_bytes(n as nat, 16),
{
    bytes::BufMut::put_u128(wtr, n)
}

/// `Buf::get_u8` on a byte slice: takes the first byte off the slice.
#[verifier::external_body]
pub(crate) fn get_u8(rdr: &mut &[u8]) -> (v: u8)
    requires
        old(rdr)@.len() >= 1,
    ensures
        v == old(rdr)@[0],
        final(rdr)@ == old(rdr)@.skip(1),
{
    bytes::Buf::get_u8(rdr)
}

/// `Buf::get_u16` on a byte slice: takes the first 2 bytes off the slice
/// and reads them as one number, most significant byte first.
#[verifier::external_body]
pub(crate) fn get_u16(rdr: &mut &[u8]) -> (v: u16)
    requires
        old(rdr)@.len() >= 2,
    ensures
        v as nat == be_value(old(rdr)@.take(2)),
        final(rdr)@ == old(rdr)@.skip(2),
{
    bytes::Buf::get_u16(rdr)
}

/// `Buf::get_u32` on a byte slice: takes the first 4 bytes off the slice
/// and reads them as one number, most significant byte first.
#[verifier::external_body]
pub(crate) fn get_u32(rdr: &mut &[u8]) -> (v: u32)
    requires
        old(rdr)@.len() >= 4,
    ensures
        v as nat == be_value(old(rdr)@.take(4)),
        final(rdr)@ == old(rdr)@.skip(4),
{
    bytes::Buf::get_u32(rdr)
}

/// `Buf::get_u64` on a byte slice: takes the first 8 bytes off the slice
/// and reads them as one number, most significant byte first.
#[verifier::external_body]
pub(crate) fn get_u64(rdr: &mut &[u8]) -> (v: u64)
    requires
        old(rdr)@.len() >= 8,
    ensures
        v as nat == be_value(old(rdr)@.take(8)),
        final(rdr)@ == old(rdr)@.skip(8),
{
    bytes::Buf::get_u64(rdr)
}

/// `Buf::get_u128` on a byte slice: takes the first 16 bytes off the slice
/// and reads them as one number, most significant byte first.
#[verifier::external_body]
pub(crate) fn get_u128(rdr: &mut &[u8]) -> (v: u128)
    requires
        old(rdr)@.len() >= 16,
    ensures
        v as nat == be_value(old(rdr)@.take(16)),
        final(rdr)@ == old(rdr)@.skip(16),
{
    bytes::Buf::get_u128(rdr)
}

/// `ReadBytesExt::read_u8` of byteorder on a byte slice: takes the first
/// byte off the slice; fails, taking nothing, exactly where the slice is
/// empty.
#[verifier::external_body]
pub(crate) fn read_u8(rdr: &mut &[u8]) -> (r: Result<u8, std::io::Error>)
    ensures
        old(rdr)@.len() > 0 ==> r is Ok && r.unwrap() == old(rdr)@[0] && final(rdr)@ == old(
            rdr,
        )@.skip(1),
        old(rdr)@.len() == 0 ==> r is Err && final(rdr)@ == old(rdr)@,
{
    byteorder::ReadBytesExt::read_u8(rdr)
}

} // verus!
