//! The read buffer of the crate bytes, as far as the engine fills it.

use vstd::prelude::*;

verus! {

/// `BytesMut` of the crate bytes, of which nothing is known but what the functions below say.
#[verifier::external_type_specification]
#[verifier::external_body]
pub struct ExBytesMut(bytes::BytesMut);

/// The bytes that a buffer holds, in order.
pub uninterp spec fn spec_buffer_bytes(buffer: bytes::BytesMut) -> Seq<u8>;

/// The most bytes that a buffer can hold.
pub open spec fn spec_buffer_limit() -> int {
    isize::MAX as int
}

/// `BytesMut::len` of the crate bytes: the number of bytes that the buffer holds.
#[verifier::external_body]
pub(crate) fn buffer_len(buffer: &bytes::BytesMut) -> (r: usize)
    ensures
        r == spec_buffer_bytes(*buffer).len(),
{
    buffer.len()
}

/// `BytesMut::extend_from_slice` of the crate bytes: the buffer holds what it held, and then
/// the bytes given. It panics where the new length cannot be allocated, which `requires` leaves
/// out.
#[verifier::external_body]
pub(crate) fn buffer_extend(buffer: &mut bytes::BytesMut, data: &[u8])
    requires
        spec_buffer_bytes(*old(buffer)).len() + data@.len() <= spec_buffer_limit(),
    ensures
        spec_buffer_bytes(*final(buffer)) == spec_buffer_bytes(*old(buffer)) + data@,
{
    buffer.extend_from_slice(data)
}

/// Whether a buffer has room for so many more bytes.
pub fn buffer_has_room(buffer: &bytes::BytesMut, more: usize) -> (r: bool)
    ensures
        r == (spec_buffer_bytes(*buffer).len() + more <= spec_buffer_limit()),
{
    let limit: usize = isize::MAX as usize;
    let held: usize = buffer_len(buffer);
    more <= limit && held <= limit - more
}

/// Appends bytes to a buffer if it has room for them, and says whether it had.
pub fn buffer_try_extend(buffer: &mut bytes::BytesMut, data: &[u8]) -> (r: bool)
    ensures
        r == (spec_buffer_bytes(*old(buffer)).len() + data@.len() <= spec_buffer_limit()),
        r ==> spec_buffer_bytes(*final(buffer)) == spec_buffer_bytes(*old(buffer)) + data@,
        !r ==> spec_buffer_bytes(*final(buffer)) == spec_buffer_bytes(*old(buffer)),
{
    let limit: usize = isize::MAX as usize;
    let held: usize = buffer_len(buffer);
    if data.len() > limit || held > limit - data.len() {
        return false;
    }
    buffer_extend(buffer, data);
    true
}

} // verus!
