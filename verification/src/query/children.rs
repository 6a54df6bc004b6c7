use vstd::prelude::*;

use smallvec::SmallVec;

verus! {

/// The positions of the archetypes holding the children of one entity. Most entities have
/// children in few archetypes, so the list seldom leaves the inline storage of its `SmallVec`.
/// The proofs see it only through [`child_positions`].
#[verifier::external_body]
#[derive(Debug)]
pub struct Children {
    items: SmallVec<[usize; 8]>,
}

/// The positions a list holds, in order.
pub uninterp spec fn child_positions(v: Children) -> Seq<usize>;

/// The largest length a list may have for one more push to succeed on any platform: growing
/// the heap storage of a `SmallVec` doubles its capacity, and the storage must stay within
/// `isize::MAX` bytes.
pub open spec fn children_limit() -> int {
    isize::MAX as int / 16
}

/// `SmallVec::new`: an empty list. Its check on the layout of the inline array holds for
/// `[usize; 8]`.
#[verifier::external_body]
pub(crate) fn children_new() -> (r: Children)
    ensures
        child_positions(r) == Seq::<usize>::empty(),
{
    Children { items: SmallVec::new() }
}

/// `SmallVec::push`: appends a position. It panics with "capacity overflow" only where the
/// doubled capacity would not fit in `isize::MAX` bytes, which `requires` leaves out.
#[verifier::external_body]
pub(crate) fn children_push(v: &mut Children, position: usize)
    requires
        child_positions(*old(v)).len() < children_limit(),
    ensures
        child_positions(*final(v)) == child_positions(*old(v)).push(position),
{
    v.items.push(position)
}

/// `SmallVec::as_slice`: the slice of all items of the list, in order.
#[verifier::external_body]
pub(crate) fn children_slice(v: &Children) -> (r: &[usize])
    ensures
        r@ == child_positions(*v),
{
    v.items.as_slice()
}

} // verus!
