//! The byte buffers of the `bytes` crate, as the library uses them.
//!
//! `Bytes` and `BytesMut` are opaque to the verifier; what they hold is named by
//! `bytes_seq` and `bytes_mut_seq`, and each method the library calls has a
//! wrapper whose contract states, over those names, what the crate's source and
//! documentation show the method does.
use vstd::prelude::*;
use bytes::{Buf, BufMut, Bytes, BytesMut};

verus! {

#[verifier::external_type_specification]
#[verifier::external_body]
pub struct ExBytes(bytes::Bytes);

#[verifier::external_type_specification]
#[verifier::external_body]
pub struct ExBytesMut(bytes::BytesMut);

/// The bytes a `Bytes` holds, in order.
pub uninterp spec fn bytes_seq(b: Bytes) -> Seq<u8>;

/// The bytes a `BytesMut` holds, in order.
pub uninterp spec fn bytes_mut_seq(b: BytesMut) -> Seq<u8>;

/// The eight big-endian bytes of `n`.
pub open spec fn be_bytes(n: u64) -> Seq<u8> {
    seq![
        (n >> 56u64) as u8,
        (n >> 48u64) as u8,
        (n >> 40u64) as u8,
        (n >> 32u64) as u8,
        (n >> 24u64) as u8,
        (n >> 16u64) as u8,
        (n >> 8u64) as u8,
        n as u8,
    ]
}

/// The `u64` whose big-endian bytes are the first eight of `b`.
pub open spec fn from_be(b: Seq<u8>) -> u64 {
    ((b[0] as u64) << 56u64) | ((b[1] as u64) << 48u64) | ((b[2] as u64) << 40u64) | ((b[3] as u64) << 32u64)
        | ((b[4] as u64) << 24u64) | ((b[5] as u64) << 16u64) | ((b[6] as u64) << 8u64) | (b[7] as u64)
}

/// Reading back the big-endian bytes of `n` gives `n`.
pub proof fn lemma_be_roundtrip(n: u64)
    ensures
        from_be(be_bytes(n)) == n,
        be_bytes(n).len() == 8,
{
    let b = be_bytes(n);
    let b0 = b[0];
    let b1 = b[1];
    let b2 = b[2];
    let b3 = b[3];
    let b4 = b[4];
    let b5 = b[5];
    let b6 = b[6];
    let b7 = b[7];
    assert(((b0 as u64) << 56u64) | ((b1 as u64) << 48u64) | ((b2 as u64) << 40u64) | ((b3 as u64) << 32u64)
        | ((b4 as u64) << 24u64) | ((b5 as u64) << 16u64) | ((b6 as u64) << 8u64) | (b7 as u64) == n) by (bit_vector)
        requires
            b0 == (n >> 56u64) as u8,
            b1 == (n >> 48u64) as u8,
            b2 == (n >> 40u64) as u8,
            b3 == (n >> 32u64) as u8,
            b4 == (n >> 24u64) as u8,
            b5 == (n >> 16u64) as u8,
            b6 == (n >> 8u64) as u8,
            b7 == n as u8,
    ;
}

/// `Bytes::len`: the number of bytes held.
#[verifier::external_body]
pub(crate) fn bytes_len(b: &Bytes) -> (r: usize)
    ensures
        r == bytes_seq(*b).len(),
{
    b.len()
}

/// Indexing through `Bytes`' `Deref<Target = [u8]>`: the byte at `i`.
#[verifier::external_body]
pub(crate) fn bytes_at(b: &Bytes, i: usize) -> (r: u8)
    requires
        i < bytes_seq(*b).len(),
    ensures
        r == bytes_seq(*b)[i as int],
{
    b[i]
}

/// `Bytes::from(Vec<u8>)`: a buffer that holds the vector's bytes.
#[verifier::external_body]
pub(crate) fn bytes_from_vec(v: Vec<u8>) -> (r: Bytes)
    ensures
        bytes_seq(r) == v@,
{
    Bytes::from(v)
}

/// `Bytes::clone`: another handle on the same bytes.
#[verifier::external_body]
pub(crate) fn bytes_clone(b: &Bytes) -> (r: Bytes)
    ensures
        bytes_seq(r) == bytes_seq(*b),
{
    b.clone()
}

/// `Buf::get_u64` on `Bytes`: reads the first eight bytes as a big-endian `u64`
/// and drops them (it panics with fewer than eight bytes).
#[verifier::external_body]
pub(crate) fn bytes_get_u64(b: &mut Bytes) -> (r: u64)
    requires
        bytes_seq(*old(b)).len() >= 8,
    ensures
        r == from_be(bytes_seq(*old(b)).take(8)),
        bytes_seq(*final(b)) == bytes_seq(*old(b)).skip(8),
{
    b.get_u64()
}

/// `Bytes::slice(..end)`: the first `end` bytes (it panics when `end` exceeds the length).
#[verifier::external_body]
pub(crate) fn bytes_slice_to(b: &Bytes, end: usize) -> (r: Bytes)
    requires
        end <= bytes_seq(*b).len(),
    ensures
        bytes_seq(r) == bytes_seq(*b).take(end as int),
{
    b.slice(..end)
}

/// `Buf::advance` on `Bytes`: drops the first `cnt` bytes (it panics when `cnt`
/// exceeds the length).
#[verifier::external_body]
pub(crate) fn bytes_advance(b: &mut Bytes, cnt: usize)
    requires
        cnt <= bytes_seq(*old(b)).len(),
    ensures
        bytes_seq(*final(b)) == bytes_seq(*old(b)).skip(cnt as int),
{
    b.advance(cnt)
}

/// `BytesMut::with_capacity`: an empty buffer (the capacity is not tracked; it
/// must not exceed `isize::MAX`, beyond which the allocation panics).
#[verifier::external_body]
pub(crate) fn bytes_mut_with_capacity(capacity: usize) -> (r: BytesMut)
    requires
        capacity <= isize::MAX,
    ensures
        bytes_mut_seq(r) == Seq::<u8>::empty(),
{
    BytesMut::with_capacity(capacity)
}

/// `BufMut::put_u64` on `BytesMut`: appends the eight big-endian bytes of `n`
/// (the buffer grows; growing past `isize::MAX` bytes panics).
#[verifier::external_body]
pub(crate) fn bytes_mut_put_u64(buf: &mut BytesMut, n: u64)
    requires
        bytes_mut_seq(*old(buf)).len() + 8 <= isize::MAX,
    ensures
        bytes_mut_seq(*final(buf)) == bytes_mut_seq(*old(buf)) + be_bytes(n),
{
    buf.put_u64(n)
}

/// `BufMut::put` of a `Bytes` into a `BytesMut`: appends the bytes of `src`.
#[verifier::external_body]
pub(crate) fn bytes_mut_put_bytes(buf: &mut BytesMut, src: Bytes)
    requires
        bytes_mut_seq(*old(buf)).len() + bytes_seq(src).len() <= isize::MAX,
    ensures
        bytes_mut_seq(*final(buf)) == bytes_mut_seq(*old(buf)) + bytes_seq(src),
{
    buf.put(src)
}

/// `BytesMut::freeze`: the same bytes as an immutable `Bytes`.
#[verifier::external_body]
pub(crate) fn bytes_mut_freeze(buf: BytesMut) -> (r: Bytes)
    ensures
        bytes_seq(r) == bytes_mut_seq(buf),
{
    buf.freeze()
}

} // verus!
