//! The thin vector of squares that a board hands out.
use thincollections::thin_v64::V64;
use vstd::prelude::*;

verus! {

/// `thincollections::thin_v64::V64`: a vector behind a single 64-bit word.
/// Nothing is known of what is inside but through `v64_items`.
#[verifier::external_type_specification]
#[verifier::external_body]
#[verifier::reject_recursive_types(T)]
pub struct ExV64<T>(V64<T>);

/// The squares that a thin vector holds, first to last.
pub uninterp spec fn v64_items(v: V64<u8>) -> Seq<u8>;

/// `V64::new`: a fresh vector holds nothing.
#[verifier::external_body]
pub(crate) fn v64_new() -> (v: V64<u8>)
    ensures
        v64_items(v) == Seq::<u8>::empty(),
{
    V64::new()
}

/// `V64::push`: the value is appended behind what the vector held. The
/// vector doubles its heap block when it is full, so the doubled length with
/// its header, rounded up to the block's alignment, must still be a valid
/// allocation size.
#[verifier::external_body]
pub(crate) fn v64_push(v: &mut V64<u8>, val: u8)
    requires
        2 * v64_items(*old(v)).len() + 32 <= isize::MAX,
    ensures
        v64_items(*final(v)) == v64_items(*old(v)).push(val),
{
    v.push(val)
}

/// `V64::as_slice`: the slice shows the vector's items in their order.
#[verifier::external_body]
pub(crate) fn v64_as_slice(v: &V64<u8>) -> (s: &[u8])
    ensures
        s@ == v64_items(*v),
{
    v.as_slice()
}

} // verus!
