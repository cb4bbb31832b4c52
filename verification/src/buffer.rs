//! Byte buffers filled from a socket.
use bytes::BytesMut;
use vstd::prelude::*;

verus! {

/// `bytes::BytesMut`, a growable buffer whose front can be split off.
#[verifier::external_type_specification]
#[verifier::external_body]
pub struct ExBytesMut(BytesMut);

/// The bytes that a `BytesMut` holds, in order.
pub uninterp spec fn held(buffer: BytesMut) -> Seq<u8>;

/// `BytesMut::with_capacity` returns a buffer that holds no bytes.
pub assume_specification[ BytesMut::with_capacity ](capacity: usize) -> (storage: BytesMut)
    requires
        capacity <= 0x7fff_ffff,
    ensures
        held(storage) == Seq::<u8>::empty(),
;

/// `BytesMut::extend_from_slice` appends the bytes of the slice. It grows its
/// allocation by doubling, and panics where that would exceed the largest one.
pub assume_specification[ BytesMut::extend_from_slice ](storage: &mut BytesMut, extend: &[u8])
    requires
        held(*old(storage)).len() + extend@.len() <= isize::MAX / 4,
    ensures
        held(*final(storage)) == held(*old(storage)) + extend@,
;

/// `BytesMut::split_to` returns the first `at` bytes and leaves the rest in the
/// buffer. It panics where the buffer holds fewer.
pub assume_specification[ BytesMut::split_to ](storage: &mut BytesMut, at: usize) -> (front:
    BytesMut)
    requires
        at <= held(*old(storage)).len(),
    ensures
        held(front) == held(*old(storage)).take(at as int),
        held(*final(storage)) == held(*old(storage)).skip(at as int),
;

/// `BytesMut` dereferences to the slice of the bytes that it holds.
#[verifier::external_body]
pub(crate) fn contents(buffer: &BytesMut) -> (bytes: &[u8])
    ensures
        bytes@ == held(*buffer),
{
    buffer.as_ref()
}

/// Bytes kept exactly as they were received.
#[derive(Debug)]
pub struct RawBytes(BytesMut);

impl View for RawBytes {
    type V = Seq<u8>;

    closed spec fn view(&self) -> Seq<u8> {
        held(self.0)
    }
}

impl RawBytes {
    /// The bytes, in order.
    pub fn bytes(&self) -> (bytes: &[u8])
        ensures
            bytes@ == self@,
    {
        contents(&self.0)
    }

    /// Whether there are no bytes.
    pub fn is_empty(&self) -> (empty: bool)
        ensures
            empty == (self@.len() == 0),
    {
        contents(&self.0).len() == 0
    }
}

impl From<BytesMut> for RawBytes {
    /// Keep what `buffer` holds.
    fn from(buffer: BytesMut) -> (raw: RawBytes)
        ensures
            raw@ == held(buffer),
    {
        RawBytes(buffer)
    }
}

impl vstd::std_specs::convert::FromSpecImpl<BytesMut> for RawBytes {
    closed spec fn obeys_from_spec() -> bool {
        true
    }

    closed spec fn from_spec(buffer: BytesMut) -> RawBytes {
        RawBytes(buffer)
    }
}

} // verus!
