use vstd::prelude::*;

verus! {

/// An index of an entity inside an archetype.
pub type Slot = usize;

/// A contiguous range of slots `[start, end)` in an archetype.
#[derive(Clone, Copy, Debug, PartialEq, Eq, Structural, Hash, Default, PartialOrd, Ord)]
pub struct Slice {
    pub start: Slot,
    pub end: Slot,
}

/// `a` orders strictly before `b` (first by `start`, then by `end`).
pub open spec fn slice_lt(a: Slice, b: Slice) -> bool {
    a.start < b.start || (a.start == b.start && a.end < b.end)
}

impl Slice {
    /// A slice is well formed when it does not run backwards.
    pub open spec fn wf(self) -> bool {
        self.start <= self.end
    }

    /// Whether the slot lies inside the slice.
    pub open spec fn has(self, slot: int) -> bool {
        self.start <= slot < self.end
    }

    /// Number of slots in the slice.
    pub open spec fn spec_len(self) -> int {
        self.end - self.start
    }

    /// The slice holds no slot.
    pub open spec fn spec_is_empty(self) -> bool {
        self.end <= self.start
    }

    /// Every slot of `other` is a slot of `self`, and `other` lies inside `self`'s bounds.
    pub open spec fn contains_slice(self, other: Slice) -> bool {
        self.start <= other.start && other.end <= self.end && other.start <= other.end
    }

    /// The slot-wise intersection, where the slices share a slot.
    pub open spec fn spec_intersect(self, other: Slice) -> Option<Slice> {
        let start = if self.start >= other.start { self.start } else { other.start };
        let end = if self.end <= other.end { self.end } else { other.end };
        if end <= start {
            None
        } else {
            Some(Slice { start, end })
        }
    }

    /// Both slices share at least one slot.
    pub open spec fn spec_overlaps(self, other: Slice) -> bool {
        self.start < other.end && other.start < self.end
    }

    /// The slices of `self` that lie before, inside and after `other`.
    pub open spec fn spec_split_with(self, other: Slice) -> Option<(Slice, Slice, Slice)> {
        if other.start < self.start || other.end > self.end || other.end < other.start {
            None
        } else {
            Some(
                (
                    Slice { start: self.start, end: other.start },
                    Slice { start: other.start, end: other.end },
                    Slice { start: other.end, end: self.end },
                ),
            )
        }
    }

    /// `self` without `other`, where the rest is one contiguous slice.
    pub open spec fn spec_difference(self, other: Slice) -> Option<Slice> {
        if other.start <= self.start {
            let start = if self.start >= other.end { self.start } else { other.end };
            if start > self.end {
                Some(Slice { start: self.end, end: self.end })
            } else {
                Some(Slice { start, end: self.end })
            }
        } else if other.end >= self.end {
            let end = if self.end <= other.start { self.end } else { other.start };
            if self.start > end {
                Some(Slice { start: self.end, end: self.end })
            } else {
                Some(Slice { start: self.start, end })
            }
        } else {
            None
        }
    }

    /// The union of two slices, where it is contiguous.
    pub open spec fn spec_union(self, other: Slice) -> Option<Slice> {
        if self.end < other.start || other.end < self.start {
            None
        } else {
            let start = if self.start <= other.start { self.start } else { other.start };
            let end = if self.end >= other.end { self.end } else { other.end };
            Some(Slice { start, end })
        }
    }

    /// Creates a new slice of slots.
    pub fn new(start: Slot, end: Slot) -> (r: Slice)
        ensures
            r.start == start,
            r.end == end,
    {
        Slice { start, end }
    }

    /// The slice holding only `slot`.
    pub open spec fn single_spec(slot: Slot) -> Slice {
        Slice { start: slot, end: (slot + 1) as usize }
    }

    /// A slice holding exactly one slot.
    pub fn single(slot: Slot) -> (r: Slice)
        requires
            slot < usize::MAX,
        ensures
            r.start == slot,
            r.end == slot + 1,
            r == Slice::single_spec(slot),
    {
        Slice { start: slot, end: slot + 1 }
    }

    /// Number of slots in the slice.
    pub fn len(&self) -> (r: usize)
        requires
            self.wf(),
        ensures
            r == self.spec_len(),
    {
        self.end - self.start
    }

    /// Whether the slice holds no slot.
    pub fn is_empty(&self) -> (r: bool)
        ensures
            r == self.spec_is_empty(),
    {
        self.end <= self.start
    }

    /// Whether `slot` lies inside the slice.
    pub fn contains(&self, slot: Slot) -> (r: bool)
        ensures
            r == self.has(slot as int),
    {
        self.start <= slot && slot < self.end
    }

    /// Whether `other` lies inside `self`.
    pub fn is_subset_of(&self, other: &Slice) -> (r: bool)
        ensures
            r == other.contains_slice(*self),
    {
        other.start <= self.start && self.end <= other.end && self.start <= self.end
    }

    /// The slots shared by both slices, if any.
    pub fn intersect(&self, other: &Slice) -> (r: Option<Slice>)
        ensures
            r == self.spec_intersect(*other),
            r matches Some(i) ==> forall|s: int| i.has(s) <==> (self.has(s) && other.has(s)),
            r is None ==> forall|s: int| !(self.has(s) && other.has(s)),
    {
        let start = if self.start >= other.start { self.start } else { other.start };
        let end = if self.end <= other.end { self.end } else { other.end };
        if end <= start {
            None
        } else {
            Some(Slice { start, end })
        }
    }

    /// Whether the slices share a slot.
    pub fn overlaps(&self, other: Slice) -> (r: bool)
        ensures
            r == self.spec_overlaps(other),
    {
        self.start < other.end && other.start < self.end
    }

    /// Splits `self` into the parts before, inside and after `other`.
    ///
    /// Returns `None` when `other` is not a subslice of `self`.
    pub fn split_with(&self, other: &Slice) -> (r: Option<(Slice, Slice, Slice)>)
        ensures
            r == self.spec_split_with(*other),
            r is Some <==> self.contains_slice(*other),
    {
        if other.start < self.start || other.end > self.end || other.end < other.start {
            None
        } else {
            Some(
                (
                    Slice { start: self.start, end: other.start },
                    Slice { start: other.start, end: other.end },
                    Slice { start: other.end, end: self.end },
                ),
            )
        }
    }

    /// Removes `other` from `self`, when what is left is contiguous.
    pub fn difference(&self, other: Slice) -> (r: Option<Slice>)
        ensures
            r == self.spec_difference(other),
    {
        if other.start <= self.start {
            let start = if self.start >= other.end { self.start } else { other.end };
            if start > self.end {
                Some(Slice { start: self.end, end: self.end })
            } else {
                Some(Slice { start, end: self.end })
            }
        } else if other.end >= self.end {
            let end = if self.end <= other.start { self.end } else { other.start };
            if self.start > end {
                Some(Slice { start: self.end, end: self.end })
            } else {
                Some(Slice { start: self.start, end })
            }
        } else {
            None
        }
    }

    /// Joins two slices that touch or overlap.
    pub fn union(&self, other: &Slice) -> (r: Option<Slice>)
        ensures
            r == self.spec_union(*other),
    {
        if self.end < other.start || other.end < self.start {
            None
        } else {
            let start = if self.start <= other.start { self.start } else { other.start };
            let end = if self.end >= other.end { self.end } else { other.end };
            Some(Slice { start, end })
        }
    }

    /// Splits the slice in two at `slot`.
    pub fn split_at(&self, slot: Slot) -> (r: (Slice, Slice))
        requires
            self.has(slot as int),
        ensures
            r.0 == (Slice { start: self.start, end: slot }),
            r.1 == (Slice { start: slot, end: self.end }),
    {
        (Slice { start: self.start, end: slot }, Slice { start: slot, end: self.end })
    }

    /// The slots of the slice, in increasing order.
    pub fn iter_slots(&self) -> (r: Vec<Slot>)
        requires
            self.wf(),
        ensures
            r@.len() == self.spec_len(),
            forall|i: int| 0 <= i < r@.len() ==> r@[i] == self.start + i,
    {
        let mut r: Vec<Slot> = Vec::new();
        let mut s = self.start;
        while s < self.end
            invariant
                self.start <= s <= self.end,
                r@.len() == s - self.start,
                forall|i: int| 0 <= i < r@.len() ==> r@[i] == self.start + i,
            decreases self.end - s,
        {
            r.push(s);
            s = s + 1;
        }
        r
    }
}

/// The smaller of two slices by their ordering (start, then end); the first on a tie.
pub fn min_slice(a: Slice, b: Slice) -> (r: Slice)
    ensures
        r == (if slice_lt(b, a) { b } else { a }),
{
    if b.start < a.start || (b.start == a.start && b.end < a.end) {
        b
    } else {
        a
    }
}

/// Law: the intersection holds exactly the slots that lie in both slices.
pub proof fn lemma_intersect_slots(a: Slice, b: Slice, s: int)
    ensures
        (a.spec_intersect(b) matches Some(i) && i.has(s)) <==> (a.has(s) && b.has(s)),
{
}

/// Law: splitting a slice with one of its subslices yields three adjacent pieces that cover it.
pub proof fn lemma_split_with_covers(a: Slice, b: Slice, s: int)
    requires
        a.contains_slice(b),
    ensures
        a.spec_split_with(b) matches Some((l, m, r)) && {
            &&& m == b
            &&& l.end == m.start && m.end == r.start
            &&& (a.has(s) <==> (l.has(s) || m.has(s) || r.has(s)))
        },
{
}

/// Law: when the difference exists and `b` lies inside `a`, it holds exactly the slots of `a`
/// outside `b`.
pub proof fn lemma_difference_slots(a: Slice, b: Slice, s: int)
    requires
        a.wf(),
        a.contains_slice(b),
        a.spec_difference(b) is Some,
    ensures
        a.spec_difference(b) matches Some(d) && (d.has(s) <==> (a.has(s) && !b.has(s))),
{
}

} // verus!
