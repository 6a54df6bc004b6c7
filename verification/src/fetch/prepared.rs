use vstd::prelude::*;

use crate::slice::{Slice, Slot};

verus! {

/// Borrowed state of a fetch for one archetype.
///
/// A prepared fetch narrows the slots a query visits (`filter_slots`) and hands out the item of a
/// slot (`fetch_shared`).
pub trait PreparedFetch<'w>: Sized {
    /// The item yielded for each slot.
    type Item;

    /// Whether filtering `slots` from this state completes.
    spec fn spec_filter_ok(&self, slots: Slice) -> bool;

    /// The slice `filter_slots` returns for `slots`, and the state it leaves behind.
    spec fn spec_filter(&self, slots: Slice) -> (Slice, Self);

    /// Whether the item of `slot` can be fetched.
    spec fn spec_fetch_ok(&self, slot: int) -> bool;

    /// The item of `slot`.
    spec fn spec_fetch(&self, slot: int) -> Self::Item;

    /// Narrows `slots` to the subslice which should be visited next.
    fn filter_slots(&mut self, slots: Slice) -> (r: Slice)
        requires
            slots.wf(),
            old(self).spec_filter_ok(slots),
        ensures
            (r, *final(self)) == old(self).spec_filter(slots),
            slots.contains_slice(r),
    ;

    /// Fetches the item of `slot`.
    fn fetch_shared(&self, slot: Slot) -> (r: Self::Item)
        requires
            self.spec_fetch_ok(slot as int),
        ensures
            r == self.spec_fetch(slot as int),
    ;
}

/// Filters the slots by the union of the constituent filters.
pub trait UnionFilter<'w>: Sized {
    /// Whether the union filtering of `slots` completes.
    spec fn spec_union_ok(&self, slots: Slice) -> bool;

    /// The slice `filter_union` returns for `slots` and the state it leaves behind.
    spec fn spec_union(&self, slots: Slice) -> (Slice, Self);

    /// Filters `slots` by the union of the constituent filters.
    fn filter_union(&mut self, slots: Slice) -> (r: Slice)
        requires
            slots.wf(),
            old(self).spec_union_ok(slots),
        ensures
            (r, *final(self)) == old(self).spec_union(slots),
            slots.contains_slice(r),
    ;
}

/// The empty slice at the end of `slots`, which filters return when nothing matches.
pub open spec fn end_of(slots: Slice) -> Slice {
    Slice { start: slots.end, end: slots.end }
}

impl<'w> PreparedFetch<'w> for () {
    type Item = ();

    open spec fn spec_filter_ok(&self, slots: Slice) -> bool {
        true
    }

    open spec fn spec_filter(&self, slots: Slice) -> (Slice, ()) {
        (slots, ())
    }

    open spec fn spec_fetch_ok(&self, slot: int) -> bool {
        true
    }

    open spec fn spec_fetch(&self, slot: int) -> () {
        ()
    }

    fn filter_slots(&mut self, slots: Slice) -> (r: Slice) {
        slots
    }

    fn fetch_shared(&self, slot: Slot) -> (r: ()) {
    }
}

impl<'w> UnionFilter<'w> for () {
    open spec fn spec_union_ok(&self, slots: Slice) -> bool {
        true
    }

    open spec fn spec_union(&self, slots: Slice) -> (Slice, ()) {
        (slots, ())
    }

    fn filter_union(&mut self, slots: Slice) -> (r: Slice) {
        slots
    }
}

/// A slice used as a filter keeps the slots it shares with the visited slots.
impl<'w> PreparedFetch<'w> for Slice {
    type Item = ();

    open spec fn spec_filter_ok(&self, slots: Slice) -> bool {
        true
    }

    open spec fn spec_filter(&self, slots: Slice) -> (Slice, Slice) {
        (
            match self.spec_intersect(slots) {
                Some(i) => i,
                None => end_of(slots),
            },
            *self,
        )
    }

    open spec fn spec_fetch_ok(&self, slot: int) -> bool {
        true
    }

    open spec fn spec_fetch(&self, slot: int) -> () {
        ()
    }

    fn filter_slots(&mut self, slots: Slice) -> (r: Slice) {
        match self.intersect(&slots) {
            Some(i) => i,
            None => Slice::new(slots.end, slots.end),
        }
    }

    fn fetch_shared(&self, slot: Slot) -> (r: ()) {
    }
}

/// A boolean used as a fetch yields itself for every slot.
impl<'w> PreparedFetch<'w> for bool {
    type Item = bool;

    open spec fn spec_filter_ok(&self, slots: Slice) -> bool {
        true
    }

    open spec fn spec_filter(&self, slots: Slice) -> (Slice, bool) {
        (slots, *self)
    }

    open spec fn spec_fetch_ok(&self, slot: int) -> bool {
        true
    }

    open spec fn spec_fetch(&self, slot: int) -> bool {
        *self
    }

    fn filter_slots(&mut self, slots: Slice) -> (r: Slice) {
        slots
    }

    fn fetch_shared(&self, slot: Slot) -> (r: bool) {
        *self
    }
}

impl<'w, A: PreparedFetch<'w>, B: PreparedFetch<'w>> PreparedFetch<'w> for (A, B) {
    type Item = (A::Item, B::Item);

    open spec fn spec_filter_ok(&self, slots: Slice) -> bool {
        &&& self.0.spec_filter_ok(slots)
        &&& self.1.spec_filter_ok(self.0.spec_filter(slots).0)
    }

    open spec fn spec_filter(&self, slots: Slice) -> (Slice, (A, B)) {
        let (a, a2) = self.0.spec_filter(slots);
        let (b, b2) = self.1.spec_filter(a);
        (b, (a2, b2))
    }

    open spec fn spec_fetch_ok(&self, slot: int) -> bool {
        self.0.spec_fetch_ok(slot) && self.1.spec_fetch_ok(slot)
    }

    open spec fn spec_fetch(&self, slot: int) -> (A::Item, B::Item) {
        (self.0.spec_fetch(slot), self.1.spec_fetch(slot))
    }

    fn filter_slots(&mut self, slots: Slice) -> (r: Slice) {
        let a = self.0.filter_slots(slots);
        self.1.filter_slots(a)
    }

    fn fetch_shared(&self, slot: Slot) -> (r: (A::Item, B::Item)) {
        (self.0.fetch_shared(slot), self.1.fetch_shared(slot))
    }
}

impl<'w, A: PreparedFetch<'w>, B: PreparedFetch<'w>, C: PreparedFetch<'w>> PreparedFetch<'w> for (
    A,
    B,
    C,
) {
    type Item = (A::Item, B::Item, C::Item);

    open spec fn spec_filter_ok(&self, slots: Slice) -> bool {
        &&& self.0.spec_filter_ok(slots)
        &&& self.1.spec_filter_ok(self.0.spec_filter(slots).0)
        &&& self.2.spec_filter_ok(self.1.spec_filter(self.0.spec_filter(slots).0).0)
    }

    open spec fn spec_filter(&self, slots: Slice) -> (Slice, (A, B, C)) {
        let (a, a2) = self.0.spec_filter(slots);
        let (b, b2) = self.1.spec_filter(a);
        let (c, c2) = self.2.spec_filter(b);
        (c, (a2, b2, c2))
    }

    open spec fn spec_fetch_ok(&self, slot: int) -> bool {
        self.0.spec_fetch_ok(slot) && self.1.spec_fetch_ok(slot) && self.2.spec_fetch_ok(slot)
    }

    open spec fn spec_fetch(&self, slot: int) -> (A::Item, B::Item, C::Item) {
        (self.0.spec_fetch(slot), self.1.spec_fetch(slot), self.2.spec_fetch(slot))
    }

    fn filter_slots(&mut self, slots: Slice) -> (r: Slice) {
        let a = self.0.filter_slots(slots);
        let b = self.1.filter_slots(a);
        self.2.filter_slots(b)
    }

    fn fetch_shared(&self, slot: Slot) -> (r: (A::Item, B::Item, C::Item)) {
        (self.0.fetch_shared(slot), self.1.fetch_shared(slot), self.2.fetch_shared(slot))
    }
}

impl<'w, A: PreparedFetch<'w>, B: PreparedFetch<'w>, C: PreparedFetch<'w>, D: PreparedFetch<'w>> PreparedFetch<'w> for (A, B, C, D) {
    type Item = (A::Item, B::Item, C::Item, D::Item);

    open spec fn spec_filter_ok(&self, slots: Slice) -> bool {
        &&& self.0.spec_filter_ok(slots)
        &&& self.1.spec_filter_ok(self.0.spec_filter(slots).0)
        &&& self.2.spec_filter_ok(self.1.spec_filter(self.0.spec_filter(slots).0).0)
        &&& self.3.spec_filter_ok(self.2.spec_filter(self.1.spec_filter(self.0.spec_filter(slots).0).0).0)
    }

    open spec fn spec_filter(&self, slots: Slice) -> (Slice, (A, B, C, D)) {
        let (a, a2) = self.0.spec_filter(slots);
        let (b, b2) = self.1.spec_filter(a);
        let (c, c2) = self.2.spec_filter(b);
        let (d, d2) = self.3.spec_filter(c);
        (d, (a2, b2, c2, d2))
    }

    open spec fn spec_fetch_ok(&self, slot: int) -> bool {
        self.0.spec_fetch_ok(slot) && self.1.spec_fetch_ok(slot) && self.2.spec_fetch_ok(slot) && self.3.spec_fetch_ok(slot)
    }

    open spec fn spec_fetch(&self, slot: int) -> (A::Item, B::Item, C::Item, D::Item) {
        (self.0.spec_fetch(slot), self.1.spec_fetch(slot), self.2.spec_fetch(slot), self.3.spec_fetch(slot))
    }

    fn filter_slots(&mut self, slots: Slice) -> (r: Slice) {
        let a = self.0.filter_slots(slots);
        let b = self.1.filter_slots(a);
        let c = self.2.filter_slots(b);
        self.3.filter_slots(c)
    }

    fn fetch_shared(&self, slot: Slot) -> (r: (A::Item, B::Item, C::Item, D::Item)) {
        (self.0.fetch_shared(slot), self.1.fetch_shared(slot), self.2.fetch_shared(slot), self.3.fetch_shared(slot))
    }
}

/// The smaller of two slices in their order, the first on a tie.
pub open spec fn spec_min(a: Slice, b: Slice) -> Slice {
    if crate::slice::slice_lt(b, a) {
        b
    } else {
        a
    }
}

impl<'w, A: PreparedFetch<'w>, B: PreparedFetch<'w>> UnionFilter<'w> for (A, B) {
    open spec fn spec_union_ok(&self, slots: Slice) -> bool {
        self.0.spec_filter_ok(slots) && self.1.spec_filter_ok(slots)
    }

    open spec fn spec_union(&self, slots: Slice) -> (Slice, (A, B)) {
        let (a, a2) = self.0.spec_filter(slots);
        let (b, b2) = self.1.spec_filter(slots);
        (spec_min(a, b), (a2, b2))
    }

    fn filter_union(&mut self, slots: Slice) -> (r: Slice) {
        let a = self.0.filter_slots(slots);
        let b = self.1.filter_slots(slots);
        crate::slice::min_slice(a, b)
    }
}

impl<'w, A: PreparedFetch<'w>, B: PreparedFetch<'w>, C: PreparedFetch<'w>> UnionFilter<'w> for (
    A,
    B,
    C,
) {
    open spec fn spec_union_ok(&self, slots: Slice) -> bool {
        self.0.spec_filter_ok(slots) && self.1.spec_filter_ok(slots) && self.2.spec_filter_ok(slots)
    }

    open spec fn spec_union(&self, slots: Slice) -> (Slice, (A, B, C)) {
        let (a, a2) = self.0.spec_filter(slots);
        let (b, b2) = self.1.spec_filter(slots);
        let (c, c2) = self.2.spec_filter(slots);
        (spec_min(spec_min(a, b), c), (a2, b2, c2))
    }

    fn filter_union(&mut self, slots: Slice) -> (r: Slice) {
        let a = self.0.filter_slots(slots);
        let b = self.1.filter_slots(slots);
        let c = self.2.filter_slots(slots);
        crate::slice::min_slice(crate::slice::min_slice(a, b), c)
    }
}

impl<'w, A: PreparedFetch<'w>, B: PreparedFetch<'w>, C: PreparedFetch<'w>, D: PreparedFetch<'w>> UnionFilter<
    'w,
> for (A, B, C, D) {
    open spec fn spec_union_ok(&self, slots: Slice) -> bool {
        self.0.spec_filter_ok(slots) && self.1.spec_filter_ok(slots) && self.2.spec_filter_ok(slots)
            && self.3.spec_filter_ok(slots)
    }

    open spec fn spec_union(&self, slots: Slice) -> (Slice, (A, B, C, D)) {
        let (a, a2) = self.0.spec_filter(slots);
        let (b, b2) = self.1.spec_filter(slots);
        let (c, c2) = self.2.spec_filter(slots);
        let (d, d2) = self.3.spec_filter(slots);
        (spec_min(spec_min(spec_min(a, b), c), d), (a2, b2, c2, d2))
    }

    fn filter_union(&mut self, slots: Slice) -> (r: Slice) {
        let a = self.0.filter_slots(slots);
        let b = self.1.filter_slots(slots);
        let c = self.2.filter_slots(slots);
        let d = self.3.filter_slots(slots);
        crate::slice::min_slice(crate::slice::min_slice(crate::slice::min_slice(a, b), c), d)
    }
}

} // verus!
