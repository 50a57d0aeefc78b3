//! Byte buffers: the growable buffer of the `bytes` crate, seen as a sequence of bytes.

use bytes::BufMut;
use bytes::BytesMut;
use vstd::prelude::*;

verus! {

/// `bytes::BytesMut`, taken as it is: nothing inside it is visible here, and what it
/// holds is spoken of through `contents` alone.
#[verifier::external_type_specification]
#[verifier::external_body]
pub struct ExBytesMut(bytes::BytesMut);

/// The bytes that a buffer holds, first to last: what `BytesMut` hands out as a slice.
/// Each function below says what the `bytes` method it calls does to them.
pub uninterp spec fn contents(buf: BytesMut) -> Seq<u8>;

/// The `width` low-order bytes of `n`, most significant first.
pub open spec fn be_bytes(n: nat, width: nat) -> Seq<u8>
    decreases width,
{
    if width == 0 {
        Seq::empty()
    } else {
        be_bytes(n / 256, (width - 1) as nat).push((n % 256) as u8)
    }
}

/// The two bytes of a sixteen-bit value, most significant first.
pub proof fn lemma_be_bytes_u16(n: u16)
    ensures
        be_bytes(n as nat, 2) == seq![(n / 256) as u8, (n % 256) as u8],
{
    reveal_with_fuel(be_bytes, 3);
    assert(be_bytes(n as nat, 2) =~= seq![(n / 256) as u8, (n % 256) as u8]);
}

/// The four bytes of a thirty-two-bit value, most significant first.
pub proof fn lemma_be_bytes_u32(n: u32)
    ensures
        be_bytes(n as nat, 4) == seq![
            (n / 0x100_0000) as u8,
            ((n / 0x1_0000) % 256) as u8,
            ((n / 0x100) % 256) as u8,
            (n % 256) as u8,
        ],
{
    reveal_with_fuel(be_bytes, 5);
    assert(be_bytes(n as nat, 4) =~= seq![
        (n / 0x100_0000) as u8,
        ((n / 0x1_0000) % 256) as u8,
        ((n / 0x100) % 256) as u8,
        (n % 256) as u8,
    ]);
}

/// A value written on `width` bytes takes `width` bytes.
pub proof fn lemma_be_bytes_len(n: nat, width: nat)
    ensures
        be_bytes(n, width).len() == width,
    decreases width,
{
    if width > 0 {
        lemma_be_bytes_len(n / 256, (width - 1) as nat);
    }
}

/// `BytesMut::new`: a buffer that holds no bytes.
#[verifier::external_body]
pub(crate) fn empty_buffer() -> (buf: BytesMut)
    ensures
        contents(buf) == Seq::<u8>::empty(),
{
    BytesMut::new()
}

/// `BytesMut::with_capacity`: a buffer that holds no bytes, whatever room was asked for.
#[verifier::external_body]
pub(crate) fn buffer_with_capacity(capacity: usize) -> (buf: BytesMut)
    requires
        capacity <= isize::MAX,
    ensures
        contents(buf) == Seq::<u8>::empty(),
{
    BytesMut::with_capacity(capacity)
}

/// `Deref::deref` of `BytesMut`: the held bytes as a slice.
#[verifier::external_body]
pub(crate) fn as_slice(buf: &BytesMut) -> (bytes: &[u8])
    ensures
        bytes@ == contents(*buf),
{
    buf
}

/// `BufMut::put_u16` on `BytesMut`: appends the two bytes of `n`, most significant first.
#[verifier::external_body]
pub(crate) fn put_u16(buf: &mut BytesMut, n: u16)
    requires
        contents(*old(buf)).len() + 2 <= isize::MAX,
    ensures
        contents(*final(buf)) == contents(*old(buf)) + be_bytes(n as nat, 2),
{
    buf.put_u16(n)
}

/// `BufMut::put_u32` on `BytesMut`: appends the four bytes of `n`, most significant first.
#[verifier::external_body]
pub(crate) fn put_u32(buf: &mut BytesMut, n: u32)
    requires
        contents(*old(buf)).len() + 4 <= isize::MAX,
    ensures
        contents(*final(buf)) == contents(*old(buf)) + be_bytes(n as nat, 4),
{
    buf.put_u32(n)
}

/// `BufMut::put_u128` on `BytesMut`: appends the sixteen bytes of `n`, most significant first.
#[verifier::external_body]
pub(crate) fn put_u128(buf: &mut BytesMut, n: u128)
    requires
        contents(*old(buf)).len() + 16 <= isize::MAX,
    ensures
        contents(*final(buf)) == contents(*old(buf)) + be_bytes(n as nat, 16),
{
    buf.put_u128(n)
}

/// `BufMut::put_slice` on `BytesMut`: appends the bytes of `src` in order.
#[verifier::external_body]
pub(crate) fn put_slice(buf: &mut BytesMut, src: &[u8])
    requires
        contents(*old(buf)).len() + src@.len() <= isize::MAX,
    ensures
        contents(*final(buf)) == contents(*old(buf)) + src@,
{
    buf.put_slice(src)
}

/// `BytesMut::extend_from_slice`: appends the bytes of `extend` in order.
#[verifier::external_body]
pub(crate) fn extend_from_slice(buf: &mut BytesMut, extend: &[u8])
    requires
        contents(*old(buf)).len() + extend@.len() <= isize::MAX,
    ensures
        contents(*final(buf)) == contents(*old(buf)) + extend@,
{
    buf.extend_from_slice(extend)
}

} // verus!
