//! The fixed-capacity byte buffer that carries a frame's payload, a
//! `tinyvec::ArrayVec<[u8; 256]>`, and what the library relies on of it.
use vstd::prelude::*;
use tinyvec::ArrayVec;

verus! {

#[verifier::external_type_specification]
#[verifier::external_body]
#[verifier::reject_recursive_types(A)]
pub struct ExArrayVec<A>(ArrayVec<A>);

/// The bytes that a payload buffer holds, in order.
pub uninterp spec fn payload_contents(v: ArrayVec<[u8; 256]>) -> Seq<u8>;

/// `ArrayVec::new`: the tinyvec source makes a buffer of length zero, so it
/// holds no bytes.
#[verifier::external_body]
pub(crate) fn payload_new() -> (v: ArrayVec<[u8; 256]>)
    ensures
        payload_contents(v) == Seq::<u8>::empty(),
{
    ArrayVec::new()
}

/// `ArrayVec::extend_from_slice`: the tinyvec source clones the slice into
/// the slots after the current length and adds its length to the length. It
/// panics when the new length would pass the capacity of 256, which
/// `requires` rules out.
#[verifier::external_body]
pub(crate) fn payload_extend(v: &mut ArrayVec<[u8; 256]>, sli: &[u8])
    requires
        payload_contents(*old(v)).len() + sli@.len() <= 256,
    ensures
        payload_contents(*final(v)) == payload_contents(*old(v)) + sli@,
{
    v.extend_from_slice(sli)
}

/// `ArrayVec::as_slice`: the tinyvec source returns the first `len` slots,
/// which are the bytes the buffer holds.
#[verifier::external_body]
pub(crate) fn payload_as_slice(v: &ArrayVec<[u8; 256]>) -> (s: &[u8])
    ensures
        s@ == payload_contents(*v),
{
    v.as_slice()
}

} // verus!
