//! The growable byte buffer that libraries and packages are assembled in:
//! `bytes::BytesMut`, held behind a few trusted calls.

use vstd::prelude::*;
use bytes::BufMut;

verus! {

#[verifier::external_type_specification]
#[verifier::external_body]
pub struct ExBytesMut(bytes::BytesMut);

/// The bytes a `bytes::BytesMut` holds, in order.
pub uninterp spec fn bytes_contents(b: bytes::BytesMut) -> Seq<u8>;

/// `bytes::BytesMut::new`: an empty buffer.
#[verifier::external_body]
pub fn bytes_new() -> (r: bytes::BytesMut)
    ensures
        bytes_contents(r) == Seq::<u8>::empty(),
{
    bytes::BytesMut::new()
}

/// `bytes::BytesMut::len`: the number of bytes held.
#[verifier::external_body]
pub fn bytes_len(b: &bytes::BytesMut) -> (r: usize)
    ensures
        r == bytes_contents(*b).len(),
{
    b.len()
}

/// `BufMut::put_u8` on a `bytes::BytesMut`: appends one byte. It reserves room first,
/// which panics where the capacity would overflow.
#[verifier::external_body]
pub fn bytes_put_u8(b: &mut bytes::BytesMut, v: u8)
    requires
        bytes_contents(*old(b)).len() < isize::MAX,
    ensures
        bytes_contents(*final(b)) == bytes_contents(*old(b)).push(v),
{
    b.put_u8(v)
}

/// `BufMut::put_slice` on a `bytes::BytesMut`: appends the bytes of `s`.
#[verifier::external_body]
pub fn bytes_put_slice(b: &mut bytes::BytesMut, s: &[u8])
    requires
        bytes_contents(*old(b)).len() + s@.len() <= isize::MAX,
    ensures
        bytes_contents(*final(b)) == bytes_contents(*old(b)) + s@,
{
    b.put_slice(s)
}

/// `BufMut::put_u16_le` on a `bytes::BytesMut`: appends `v`, low byte first.
#[verifier::external_body]
pub fn bytes_put_u16_le(b: &mut bytes::BytesMut, v: u16)
    requires
        bytes_contents(*old(b)).len() + 2 <= isize::MAX,
    ensures
        bytes_contents(*final(b)) == bytes_contents(*old(b)) + seq![(v % 256) as u8, (v / 256) as u8],
{
    b.put_u16_le(v)
}

/// The bytes of a `bytes::BytesMut` (through `Deref` to a slice) copied into a
/// vector.
#[verifier::external_body]
pub fn bytes_to_vec(b: &bytes::BytesMut) -> (r: Vec<u8>)
    ensures
        r@ == bytes_contents(*b),
{
    b.to_vec()
}

} // verus!
