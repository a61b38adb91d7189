//! The byte buffers of the tunnel are `bytes::BytesMut`; this module states
//! what the library relies on of them.
use vstd::prelude::*;

use bytes::{Buf, BytesMut};

verus! {

#[verifier::external_type_specification]
#[verifier::external_body]
pub struct ExBytesMut(BytesMut);

/// The bytes that a buffer holds, front first.
pub uninterp spec fn bytes_of(b: BytesMut) -> Seq<u8>;

/// Relies on `BytesMut::new`: a new buffer holds nothing.
pub assume_specification[ BytesMut::new ]() -> (r: BytesMut)
    ensures
        bytes_of(r) == Seq::<u8>::empty(),
;

/// Relies on `BytesMut::len`: the number of bytes held.
pub assume_specification[ BytesMut::len ](b: &BytesMut) -> (r: usize)
    ensures
        r == bytes_of(*b).len(),
;

/// Relies on `BytesMut::extend_from_slice`: the bytes are appended at the
/// back. It panics when the new length overflows `usize`, and no allocation
/// passes `isize::MAX` bytes.
pub assume_specification[ BytesMut::extend_from_slice ](b: &mut BytesMut, extend: &[u8])
    requires
        bytes_of(*old(b)).len() + extend@.len() <= isize::MAX,
    ensures
        bytes_of(*final(b)) == bytes_of(*old(b)) + extend@,
;

/// Relies on `<BytesMut as Buf>::advance`: drops `cnt` bytes from the front.
/// It panics when fewer are held.
#[verifier::external_body]
pub(crate) fn advance(b: &mut BytesMut, cnt: usize)
    requires
        cnt <= bytes_of(*old(b)).len(),
    ensures
        bytes_of(*final(b)) == bytes_of(*old(b)).subrange(cnt as int, bytes_of(*old(b)).len() as int),
{
    b.advance(cnt)
}

/// Relies on `<BytesMut as AsRef<[u8]>>::as_ref`: the bytes held, as a slice.
#[verifier::external_body]
pub(crate) fn as_slice(b: &BytesMut) -> (r: &[u8])
    ensures
        r@ == bytes_of(*b),
{
    b.as_ref()
}

} // verus!
