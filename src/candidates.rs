use smallvec::SmallVec;
use vstd::prelude::*;

verus! {

/// A short list of candidate memory types, kept inline in a `SmallVec`.
#[verifier::external_body]
pub struct Candidates {
    items: SmallVec<[(usize, u32); 64]>,
}

/// The items of a list of candidate memory types: pairs of a type index and
/// its fitness, in the order they were pushed.
pub uninterp spec fn candidate_items(v: Candidates) -> Seq<(usize, u32)>;

/// Relies on `SmallVec::new`: an empty vector.
#[verifier::external_body]
pub(crate) fn candidates_new() -> (r: Candidates)
    ensures
        candidate_items(r) == Seq::<(usize, u32)>::empty(),
{
    Candidates { items: SmallVec::new() }
}

/// Relies on `SmallVec::push`: appends one item at the end. Below the inline
/// capacity it neither allocates nor panics.
#[verifier::external_body]
pub(crate) fn candidates_push(v: &mut Candidates, item: (usize, u32))
    requires
        candidate_items(*old(v)).len() < 64,
    ensures
        candidate_items(*final(v)) == candidate_items(*old(v)).push(item),
{
    v.items.push(item)
}

/// Relies on `SmallVec::as_slice`: the items, in order.
#[verifier::external_body]
pub(crate) fn candidates_as_slice(v: &Candidates) -> (r: &[(usize, u32)])
    ensures
        r@ == candidate_items(*v),
{
    v.items.as_slice()
}

} // verus!
