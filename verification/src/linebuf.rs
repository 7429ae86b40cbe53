//! The bounded line buffer: a fixed-capacity byte vector from the
//! `heapless` crate, seen through a small trusted surface.  The buffer
//! accumulates one read cycle's bytes; its capacity bounds every line.

use vstd::prelude::*;

verus! {

#[verifier::external_type_specification]
#[verifier::external_body]
#[verifier::reject_recursive_types(T)]
pub struct ExHeaplessVec<T, const N: usize>(heapless::Vec<T, N>);

/// The bytes a line buffer holds, oldest first.
pub uninterp spec fn buf_bytes(v: heapless::Vec<u8, 1024>) -> Seq<u8>;

/// Relies on heapless::Vec::new: a fresh vector is empty.
#[verifier::external_body]
pub(crate) fn line_buf_new() -> (r: heapless::Vec<u8, 1024>)
    ensures
        buf_bytes(r) == Seq::<u8>::empty(),
{
    heapless::Vec::new()
}

/// Relies on heapless::Vec::push: appends while below the capacity, and
/// hands the item back unchanged once the vector is full.
#[verifier::external_body]
pub(crate) fn line_buf_push(v: &mut heapless::Vec<u8, 1024>, b: u8) -> (r: Result<(), u8>)
    ensures
        r is Ok ==> buf_bytes(*final(v)) == buf_bytes(*old(v)).push(b) && buf_bytes(*old(v)).len() < 1024,
        r is Err ==> buf_bytes(*final(v)) == buf_bytes(*old(v)) && buf_bytes(*old(v)).len() == 1024,
{
    v.push(b)
}

/// Relies on heapless::Vec::as_slice: exposes the stored bytes in order.
#[verifier::external_body]
pub(crate) fn line_buf_slice(v: &heapless::Vec<u8, 1024>) -> (r: &[u8])
    ensures
        r@ == buf_bytes(*v),
{
    v.as_slice()
}

} // verus!
