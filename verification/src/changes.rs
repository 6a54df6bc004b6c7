use vstd::prelude::*;

use crate::slice::{Slice, Slot};

verus! {

/// The kind of a recorded change.
#[derive(Clone, Copy, Debug, PartialEq, Eq, Structural)]
pub enum ChangeKind {
    /// The component was modified.
    Modified,
    /// The component was added to the entity.
    Added,
    /// The component was removed from the entity.
    Removed,
}

impl ChangeKind {
    /// Whether this is a modification.
    pub fn is_modified(&self) -> (r: bool)
        ensures
            r == (*self == ChangeKind::Modified),
    {
        matches!(self, ChangeKind::Modified)
    }

    /// Whether this is an addition.
    pub fn is_added(&self) -> (r: bool)
        ensures
            r == (*self == ChangeKind::Added),
    {
        matches!(self, ChangeKind::Added)
    }

    /// Whether this is a removal.
    pub fn is_removed(&self) -> (r: bool)
        ensures
            r == (*self == ChangeKind::Removed),
    {
        matches!(self, ChangeKind::Removed)
    }
}

/// A change of a contiguous range of slots at a given tick.
#[derive(Clone, Copy, Debug, PartialEq, Eq, Structural)]
pub struct Change {
    pub slice: Slice,
    pub tick: u32,
}

impl Change {
    /// Creates a new change event.
    pub fn new(slice: Slice, tick: u32) -> (r: Change)
        ensures
            r.slice == slice,
            r.tick == tick,
    {
        Change { slice, tick }
    }
}

/// The tick at which `slot` last changed according to `s`: the last change holding the slot.
pub open spec fn tick_at(s: Seq<Change>, slot: int) -> Option<u32>
    decreases s.len(),
{
    if s.len() == 0 {
        None
    } else if s.last().slice.has(slot) {
        Some(s.last().tick)
    } else {
        tick_at(s.drop_last(), slot)
    }
}

/// The changes hold nonempty slices, sorted and pairwise disjoint.
pub open spec fn changes_wf(s: Seq<Change>) -> bool {
    &&& forall|i: int| 0 <= i < s.len() ==> (#[trigger] s[i]).slice.start < s[i].slice.end
    &&& forall|i: int, j: int| 0 <= i < j < s.len() ==> (#[trigger] s[i]).slice.end <= (#[trigger] s[j]).slice.start
}

/// The slots that changed strictly after `tick`.
pub open spec fn changed_after(s: Seq<Change>, tick: u32, slot: int) -> bool {
    tick_at(s, slot) matches Some(t) && t > tick
}

pub proof fn lemma_tick_at_push(s: Seq<Change>, c: Change, slot: int)
    ensures
        tick_at(s.push(c), slot) == (if c.slice.has(slot) { Some(c.tick) } else { tick_at(s, slot) }),
{
    assert(s.push(c).drop_last() =~= s);
}

pub proof fn lemma_tick_at_none(s: Seq<Change>, slot: int)
    requires
        forall|i: int| 0 <= i < s.len() ==> !(#[trigger] s[i]).slice.has(slot),
    ensures
        tick_at(s, slot) is None,
    decreases s.len(),
{
    if s.len() > 0 {
        assert(!s[s.len() - 1].slice.has(slot));
        lemma_tick_at_none(s.drop_last(), slot);
    }
}

/// In a well formed list, the tick of a slot is the tick of the change holding it.
pub proof fn lemma_tick_at_member(s: Seq<Change>, i: int, slot: int)
    requires
        changes_wf(s),
        0 <= i < s.len(),
        s[i].slice.has(slot),
    ensures
        tick_at(s, slot) == Some(s[i].tick),
    decreases s.len(),
{
    if i == s.len() - 1 {
    } else {
        let l = s[s.len() - 1];
        assert(s[i].slice.end <= l.slice.start);
        assert(s.drop_last()[i] == s[i]);
        lemma_tick_at_member(s.drop_last(), i, slot);
    }
}

pub proof fn lemma_tick_at_some(s: Seq<Change>, slot: int)
    requires
        tick_at(s, slot) is Some,
    ensures
        exists|i: int| 0 <= i < s.len() && (#[trigger] s[i]).slice.has(slot) && Some(s[i].tick) == tick_at(s, slot),
    decreases s.len(),
{
    if s.last().slice.has(slot) {
        assert(s[s.len() - 1].slice.has(slot));
    } else {
        lemma_tick_at_some(s.drop_last(), slot);
        let i = choose|i: int| 0 <= i < s.drop_last().len() && (#[trigger] s.drop_last()[i]).slice.has(slot) && Some(s.drop_last()[i].tick) == tick_at(s.drop_last(), slot);
        assert(s[i] == s.drop_last()[i]);
    }
}

/// A sorted list of disjoint change events for one component of an archetype.
#[derive(Clone, Debug)]
pub struct ChangeList {
    inner: Vec<Change>,
}

impl View for ChangeList {
    type V = Seq<Change>;

    closed spec fn view(&self) -> Seq<Change> {
        self.inner@
    }
}

impl ChangeList {
    /// The list is sorted, disjoint and holds no empty change.
    pub open spec fn wf(&self) -> bool {
        changes_wf(self@)
    }

    /// The tick at which `slot` last changed, if it did.
    pub open spec fn spec_tick_at(&self, slot: int) -> Option<u32> {
        tick_at(self@, slot)
    }

    /// Creates an empty list.
    pub fn new() -> (r: ChangeList)
        ensures
            r.wf(),
            r@ == Seq::<Change>::empty(),
    {
        ChangeList { inner: Vec::new() }
    }

    /// The changes, in slot order.
    pub fn as_slice(&self) -> (r: &[Change])
        ensures
            r@ == self@,
    {
        self.inner.as_slice()
    }

    /// Number of change events.
    pub fn len(&self) -> (r: usize)
        ensures
            r == self@.len(),
    {
        self.inner.len()
    }

    /// The change event at `index`, if any.
    pub fn get(&self, index: usize) -> (r: Option<&Change>)
        ensures
            index < self@.len() ==> r == Some(&self@[index as int]),
            index >= self@.len() ==> r is None,
    {
        if index < self.inner.len() {
            Some(&self.inner[index])
        } else {
            None
        }
    }

    /// The tick at which `slot` last changed.
    pub fn tick_at(&self, slot: Slot) -> (r: Option<u32>)
        requires
            self.wf(),
        ensures
            r == self.spec_tick_at(slot as int),
    {
        let mut i: usize = 0;
        while i < self.inner.len()
            invariant
                0 <= i <= self@.len(),
                self.wf(),
                forall|k: int| 0 <= k < i ==> !(#[trigger] self@[k]).slice.has(slot as int),
            decreases self@.len() - i,
        {
            if self.inner[i].slice.contains(slot) {
                proof {
                    lemma_tick_at_member(self@, i as int, slot as int);
                }
                return Some(self.inner[i].tick);
            }
            i += 1;
        }
        proof {
            lemma_tick_at_none(self@, slot as int);
        }
        None
    }

    /// Forgets every change of the slots in `slice`.
    pub fn remove(&mut self, slice: Slice)
        requires
            old(self).wf(),
        ensures
            final(self).wf(),
            forall|s: int| #[trigger]
                final(self).spec_tick_at(s) == (if slice.has(s) {
                    None
                } else {
                    old(self).spec_tick_at(s)
                }),
            slice.start < slice.end ==> forall|i: int|
                0 <= i < final(self)@.len() ==> !(#[trigger] final(self)@[i]).slice.spec_overlaps(
                    slice,
                ),
    {
        let ghost old_v = self@;
        let mut out: Vec<Change> = Vec::new();
        let n = self.inner.len();
        let mut i: usize = 0;
        while i < n
            invariant
                n == old_v.len(),
                self@ == old_v,
                changes_wf(old_v),
                0 <= i <= n,
                changes_wf(out@),
                slice.start < slice.end ==> forall|k: int| 0 <= k < out@.len() ==> !(#[trigger] out@[k]).slice.spec_overlaps(slice),
                i < n ==> forall|k: int| 0 <= k < out@.len() ==> (#[trigger] out@[k]).slice.end <= old_v[i as int].slice.start,
                forall|s: int| #[trigger] tick_at(out@, s) == (if slice.has(s) { None } else { tick_at(old_v.subrange(0, i as int), s) }),
            decreases n - i,
        {
            let c = self.inner[i];
            let ghost prev = out@;
            if slice.end <= slice.start {
                out.push(c);
            } else if c.slice.start < slice.start {
                let e = if c.slice.end <= slice.start { c.slice.end } else { slice.start };
                out.push(Change { slice: Slice { start: c.slice.start, end: e }, tick: c.tick });
            }
            let ghost mid = out@;
            if slice.start < slice.end && slice.end < c.slice.end {
                let b = if c.slice.start >= slice.end { c.slice.start } else { slice.end };
                out.push(Change { slice: Slice { start: b, end: c.slice.end }, tick: c.tick });
            }
            proof {
                assert(old_v.subrange(0, i + 1) =~= old_v.subrange(0, i as int).push(c));
                assert forall|s: int| #[trigger] tick_at(out@, s) == (if slice.has(s) { None } else { tick_at(old_v.subrange(0, i + 1), s) }) by {
                    lemma_tick_at_push(old_v.subrange(0, i as int), c, s);
                    if mid.len() > prev.len() {
                        lemma_tick_at_push(prev, mid.last(), s);
                        assert(mid =~= prev.push(mid.last()));
                    }
                    if out@.len() > mid.len() {
                        lemma_tick_at_push(mid, out@.last(), s);
                        assert(out@ =~= mid.push(out@.last()));
                    }
                }
                if i + 1 < n {
                    assert(c.slice.end <= old_v[i + 1].slice.start);
                }
            }
            i += 1;
        }
        proof {
            assert(old_v.subrange(0, n as int) =~= old_v);
        }
        self.inner = out;
    }

    /// Records `change`, overriding what was recorded before for its slots.
    pub fn set(&mut self, change: Change) -> (r: &mut ChangeList)
        requires
            old(self).wf(),
        ensures
            (*r).wf(),
            *final(self) == *final(r),
            forall|s: int| #[trigger]
                (*r).spec_tick_at(s) == (if change.slice.has(s) {
                    Some(change.tick)
                } else {
                    old(self).spec_tick_at(s)
                }),
    {
        let ghost before = self@;
        self.remove(change.slice);
        let ghost removed = self@;
        assert forall|s: int| #[trigger] tick_at(removed, s) == (if change.slice.has(s) { None } else { tick_at(before, s) }) by {
            assert(self.spec_tick_at(s) == (if change.slice.has(s) { None } else { old(self).spec_tick_at(s) }));
        }
        if change.slice.start < change.slice.end {
            let ghost base = self@;
            let n = self.inner.len();
            let mut out: Vec<Change> = Vec::new();
            let mut inserted = false;
            let mut i: usize = 0;
            while i < n
                invariant
                    n == base.len(),
                    self@ == base,
                    changes_wf(base),
                    change.slice.start < change.slice.end,
                    forall|k: int| 0 <= k < base.len() ==> !(#[trigger] base[k]).slice.spec_overlaps(change.slice),
                    0 <= i <= n,
                    changes_wf(out@),
                    out@.len() > 0 && i < n ==> out@.last().slice.end <= base[i as int].slice.start,
                    !inserted ==> forall|k: int| 0 <= k < out@.len() ==> (#[trigger] out@[k]).slice.end <= change.slice.start,
                    inserted ==> out@.len() > 0,
                    inserted && i < n ==> change.slice.end <= base[i as int].slice.start,
                    forall|s: int| #[trigger] tick_at(out@, s) == (if inserted && change.slice.has(s) { Some(change.tick) } else { tick_at(base.subrange(0, i as int), s) }),
                decreases n - i,
            {
                let c = self.inner[i];
                let ghost prev = out@;
                if !inserted && c.slice.start >= change.slice.end {
                    out.push(change);
                    inserted = true;
                }
                let ghost mid = out@;
                out.push(c);
                proof {
                    assert(base.subrange(0, i + 1) =~= base.subrange(0, i as int).push(c));
                    assert(base[i as int] == c);
                    assert forall|s: int| #[trigger] tick_at(out@, s) == (if inserted && change.slice.has(s) { Some(change.tick) } else { tick_at(base.subrange(0, i + 1), s) }) by {
                        lemma_tick_at_push(base.subrange(0, i as int), c, s);
                        lemma_tick_at_push(mid, c, s);
                        assert(out@ =~= mid.push(c));
                        if mid.len() > prev.len() {
                            lemma_tick_at_push(prev, change, s);
                            assert(mid =~= prev.push(change));
                        }
                    }
                    if i + 1 < n {
                        assert(c.slice.end <= base[i + 1].slice.start);
                    }
                    assert(!c.slice.spec_overlaps(change.slice));
                }
                i += 1;
            }
            if !inserted {
                let ghost prev = out@;
                out.push(change);
                proof {
                    assert forall|s: int| #[trigger] tick_at(out@, s) == (if change.slice.has(s) { Some(change.tick) } else { tick_at(base, s) }) by {
                        lemma_tick_at_push(prev, change, s);
                        assert(base.subrange(0, n as int) =~= base);
                    }
                }
            } else {
                proof {
                    assert(base.subrange(0, n as int) =~= base);
                }
            }
            self.inner = out;
            proof {
                assert forall|s: int| #[trigger] tick_at(self@, s) == (if change.slice.has(s) { Some(change.tick) } else { tick_at(before, s) }) by {
                }
            }
        } else {
            proof {
                assert forall|s: int| #[trigger] tick_at(self@, s) == (if change.slice.has(s) { Some(change.tick) } else { tick_at(before, s) }) by {
                }
            }
        }
        self
    }

    /// Moves the changes of slot `from` to slot `to`, leaving `from` without changes; used when
    /// the last entity of an archetype fills a freed slot.
    pub fn migrate_slot(&mut self, from: Slot, to: Slot)
        requires
            old(self).wf(),
            from < usize::MAX,
            to < usize::MAX,
        ensures
            final(self).wf(),
            forall|s: int| #[trigger]
                final(self).spec_tick_at(s) == (if s == to as int {
                    old(self).spec_tick_at(from as int)
                } else if s == from as int {
                    None
                } else {
                    old(self).spec_tick_at(s)
                }),
    {
        let t = self.tick_at(from);
        self.remove(Slice::single(from));
        self.remove(Slice::single(to));
        match t {
            Some(t) => {
                self.set(Change::new(Slice::single(to), t));
            },
            None => {},
        }
    }

    /// The set of slots changed strictly after `tick`.
    pub fn as_changed_set(&self, tick: u32) -> (r: Vec<Slot>)
        requires
            self.wf(),
        ensures
            forall|s: Slot| r@.contains(s) <==> changed_after(self@, tick, s as int),
    {
        let mut r: Vec<Slot> = Vec::new();
        let n = self.inner.len();
        let mut i: usize = 0;
        while i < n
            invariant
                n == self@.len(),
                self.wf(),
                0 <= i <= n,
                forall|s: Slot| #[trigger] r@.contains(s) ==> exists|k: int| 0 <= k < i && (#[trigger] self@[k]).slice.has(s as int) && self@[k].tick > tick,
                forall|k: int, s: Slot| 0 <= k < i && (#[trigger] self@[k]).slice.has(s as int) && self@[k].tick > tick ==> #[trigger] r@.contains(s),
            decreases n - i,
        {
            let c = self.inner[i];
            if c.tick > tick {
                let mut slot = c.slice.start;
                while slot < c.slice.end
                    invariant
                        c == self@[i as int],
                        c.tick > tick,
                        c.slice.start <= slot <= c.slice.end,
                        0 <= i < n,
                        n == self@.len(),
                        forall|s: Slot| #[trigger] r@.contains(s) ==> exists|k: int| 0 <= k <= i && (#[trigger] self@[k]).slice.has(s as int) && self@[k].tick > tick,
                        forall|k: int, s: Slot| 0 <= k < i && (#[trigger] self@[k]).slice.has(s as int) && self@[k].tick > tick ==> #[trigger] r@.contains(s),
                        forall|s: Slot| c.slice.start <= s < slot ==> #[trigger] r@.contains(s),
                    decreases c.slice.end - slot,
                {
                    let ghost prev = r@;
                    r.push(slot);
                    proof {
                        assert forall|y: Slot| prev.contains(y) implies #[trigger] r@.contains(y) by {
                            let j = choose|j: int| 0 <= j < prev.len() && prev[j] == y;
                            assert(r@[j] == y);
                        }
                        assert(r@[r@.len() - 1] == slot);
                        assert forall|s: Slot| #[trigger] r@.contains(s) implies exists|k: int| 0 <= k <= i && (#[trigger] self@[k]).slice.has(s as int) && self@[k].tick > tick by {
                            if s == slot {
                                assert(self@[i as int].slice.has(s as int));
                            } else {
                                assert(prev.contains(s));
                            }
                        }
                        assert forall|s: Slot| c.slice.start <= s < slot + 1 implies #[trigger] r@.contains(s) by {
                            if s < slot {
                                assert(prev.contains(s));
                            } else {
                                assert(r@[r@.len() - 1] == s);
                            }
                        }
                        assert forall|k: int, s: Slot| 0 <= k < i && (#[trigger] self@[k]).slice.has(s as int) && self@[k].tick > tick implies #[trigger] r@.contains(s) by {
                            assert(prev.contains(s));
                        }
                    }
                    slot = slot + 1;
                }
            }
            i += 1;
        }
        proof {
            assert forall|s: Slot| r@.contains(s) <==> changed_after(self@, tick, s as int) by {
                if r@.contains(s) {
                    let k = choose|k: int| 0 <= k < n && (#[trigger] self@[k]).slice.has(s as int) && self@[k].tick > tick;
                    lemma_tick_at_member(self@, k, s as int);
                }
                if changed_after(self@, tick, s as int) {
                    lemma_tick_at_some(self@, s as int);
                    let k = choose|k: int| 0 <= k < self@.len() && (#[trigger] self@[k]).slice.has(s as int) && Some(self@[k].tick) == tick_at(self@, s as int);
                    assert(self@[k].slice.has(s as int) && self@[k].tick > tick);
                }
            }
        }
        r
    }
}

/// The changes of one component, one list per kind.
#[derive(Clone, Debug)]
pub struct Changes {
    pub modified: ChangeList,
    pub added: ChangeList,
    pub removed: ChangeList,
}

impl Changes {
    /// All three lists are well formed.
    pub open spec fn wf(&self) -> bool {
        self.modified.wf() && self.added.wf() && self.removed.wf()
    }

    /// The list of a kind.
    pub open spec fn spec_get(&self, kind: ChangeKind) -> ChangeList {
        match kind {
            ChangeKind::Modified => self.modified,
            ChangeKind::Added => self.added,
            ChangeKind::Removed => self.removed,
        }
    }

    /// No change recorded.
    pub fn new() -> (r: Changes)
        ensures
            r.wf(),
            r.modified@.len() == 0,
            r.added@.len() == 0,
            r.removed@.len() == 0,
    {
        Changes { modified: ChangeList::new(), added: ChangeList::new(), removed: ChangeList::new() }
    }

    /// The list of a kind.
    pub fn get(&self, kind: ChangeKind) -> (r: &ChangeList)
        ensures
            *r == self.spec_get(kind),
    {
        match kind {
            ChangeKind::Modified => &self.modified,
            ChangeKind::Added => &self.added,
            ChangeKind::Removed => &self.removed,
        }
    }

    /// Records a change of the given kind.
    pub fn set(&mut self, kind: ChangeKind, change: Change)
        requires
            old(self).wf(),
        ensures
            final(self).wf(),
            forall|k: ChangeKind| k != kind ==> #[trigger] final(self).spec_get(k) == old(self).spec_get(k),
            forall|s: int| #[trigger]
                final(self).spec_get(kind).spec_tick_at(s) == (if change.slice.has(s) {
                    Some(change.tick)
                } else {
                    old(self).spec_get(kind).spec_tick_at(s)
                }),
    {
        match kind {
            ChangeKind::Modified => {
                self.modified.set(change);
            },
            ChangeKind::Added => {
                self.added.set(change);
            },
            ChangeKind::Removed => {
                self.removed.set(change);
            },
        }
    }

    /// Records a modification.
    pub fn set_modified(&mut self, change: Change) -> (r: &mut Changes)
        requires
            old(self).wf(),
        ensures
            (*r).wf(),
            *final(self) == *final(r),
            (*r).added == old(self).added,
            (*r).removed == old(self).removed,
            forall|s: int| #[trigger]
                (*r).modified.spec_tick_at(s) == (if change.slice.has(s) {
                    Some(change.tick)
                } else {
                    old(self).modified.spec_tick_at(s)
                }),
    {
        self.modified.set(change);
        self
    }

    /// Records an addition.
    pub fn set_added(&mut self, change: Change) -> (r: &mut Changes)
        requires
            old(self).wf(),
        ensures
            (*r).wf(),
            *final(self) == *final(r),
            (*r).modified == old(self).modified,
            (*r).removed == old(self).removed,
            forall|s: int| #[trigger]
                (*r).added.spec_tick_at(s) == (if change.slice.has(s) {
                    Some(change.tick)
                } else {
                    old(self).added.spec_tick_at(s)
                }),
    {
        self.added.set(change);
        self
    }

    /// Moves the changes of slot `from` to slot `to` in every list.
    pub fn migrate_slot(&mut self, from: Slot, to: Slot)
        requires
            old(self).wf(),
            from < usize::MAX,
            to < usize::MAX,
        ensures
            final(self).wf(),
            forall|k: ChangeKind, s: int| #[trigger]
                final(self).spec_get(k).spec_tick_at(s) == (if s == to as int {
                    old(self).spec_get(k).spec_tick_at(from as int)
                } else if s == from as int {
                    None
                } else {
                    old(self).spec_get(k).spec_tick_at(s)
                }),
    {
        self.modified.migrate_slot(from, to);
        self.added.migrate_slot(from, to);
        self.removed.migrate_slot(from, to);
    }
}

} // verus!
