use vstd::prelude::*;

use crate::archetype::Archetype;
use crate::changes::{Change, ChangeKind};
use crate::entity::ComponentKey;
use crate::slice::Slice;

verus! {

/// Both ends of `s` lie inside the bounds of `slots`.
pub open spec fn within(slots: Slice, s: Slice) -> bool {
    &&& slots.start <= s.start <= slots.end
    &&& slots.start <= s.end <= slots.end
}

/// The slots two slices share, from the larger start to the smaller end; empty, and possibly
/// reversed, where they share none.
pub open spec fn meet(a: Slice, b: Slice) -> Slice {
    Slice { start: if a.start >= b.start { a.start } else { b.start }, end: if a.end <= b.end { a.end } else { b.end } }
}

fn meet_exec(a: Slice, b: Slice) -> (r: Slice)
    ensures
        r == meet(a, b),
{
    Slice::new(if a.start >= b.start { a.start } else { b.start }, if a.end <= b.end { a.end } else { b.end })
}

/// A filter prepared for an archetype, which narrows slices of slots.
pub trait PreparedFilter: Sized {
    /// The slice `filter` returns for `slots`, if any, and the state it leaves behind.
    spec fn spec_filter(&self, slots: Slice) -> (Option<Slice>, Self);

    /// Narrows `slots`: `None` where nothing more matches; a returned slice lies inside `slots`
    /// and is empty where nothing more matches.
    fn filter(&mut self, slots: Slice) -> (r: Option<Slice>)
        requires
            slots.wf(),
        ensures
            (r, *final(self)) == old(self).spec_filter(slots),
            r matches Some(s) ==> within(slots, s),
    ;
}

/// A filter over the changes of one kind of one component, prepared for an archetype: the
/// change events in slot order, the current event and the position of the next one, and the
/// tick after which a change counts.
#[derive(Clone, Copy)]
pub struct PreparedKindFilter<'w> {
    pub changes: &'w [Change],
    pub cur: Option<Slice>,
    pub index: usize,
    pub tick: u32,
}

/// The current change event after `tick`, searching from the position `index` on where there
/// is none yet, and the state left behind.
pub open spec fn spec_current<'w>(f: PreparedKindFilter<'w>) -> (Option<Slice>, PreparedKindFilter<'w>)
    decreases f.changes@.len() - f.index,
{
    match f.cur {
        Some(c) => (Some(c), f),
        None => if f.index >= f.changes@.len() || f.index >= usize::MAX {
            (None, f)
        } else {
            let c = f.changes@[f.index as int];
            let f2 = PreparedKindFilter { index: (f.index + 1) as usize, ..f };
            if c.tick > f.tick {
                (Some(c.slice), PreparedKindFilter { cur: Some(c.slice), ..f2 })
            } else {
                spec_current(f2)
            }
        },
    }
}

/// The search for the current change event only moves forward over the same events.
pub proof fn lemma_current<'w>(f: PreparedKindFilter<'w>)
    requires
        f.index <= f.changes@.len(),
    ensures
        ({
            let (c, f2) = spec_current(f);
            &&& f2.changes == f.changes
            &&& f2.tick == f.tick
            &&& f.index <= f2.index <= f.changes@.len()
            &&& c == f2.cur
            &&& f.cur is None && c is Some ==> f.index < f2.index
            &&& f.cur is Some ==> f2 == f
        }),
    decreases f.changes@.len() - f.index,
{
    if f.cur is None && f.index < f.changes@.len() && f.index < usize::MAX {
        let c = f.changes@[f.index as int];
        if c.tick <= f.tick {
            lemma_current(PreparedKindFilter { index: (f.index + 1) as usize, ..f });
        }
    }
}

/// The slice `filter` of a kind filter returns for `slots`: the overlap of the first change
/// event from the current one on which overlaps the slots, where there is one.
pub open spec fn spec_kind_filter<'w>(f: PreparedKindFilter<'w>, slots: Slice) -> (Option<Slice>, PreparedKindFilter<'w>)
    decreases f.changes@.len() - f.index, if f.cur is Some { 1int } else { 0int },
{
    if f.index > f.changes@.len() {
        (None, f)
    } else {
        let (c, f2) = spec_current(f);
        match c {
            None => (None, f2),
            Some(cs) => match cs.spec_intersect(slots) {
                Some(i) => (Some(i), f2),
                None => {
                    proof {
                        lemma_current(f);
                    }
                    spec_kind_filter(PreparedKindFilter { cur: None, ..f2 }, slots)
                },
            },
        }
    }
}

impl<'w> PreparedKindFilter<'w> {
    /// A filter over `changes`, counting the changes after `tick`.
    pub fn from_borrow(changes: &'w [Change], tick: u32) -> (r: PreparedKindFilter<'w>)
        ensures
            r.changes == changes,
            r.cur is None,
            r.index == 0,
            r.tick == tick,
    {
        PreparedKindFilter { changes, cur: None, index: 0, tick }
    }

    /// A filter over the changes of `kind` of the component `key` of an archetype.
    pub fn new<V>(arch: &'w Archetype<V>, key: ComponentKey, tick: u32, kind: ChangeKind) -> (r: PreparedKindFilter<'w>)
        requires
            arch.cells@.len() == arch.components@.len(),
            arch.components@.contains(key),
        ensures
            exists|i: int| 0 <= i < arch.components@.len() && arch.components@[i] == key && r.changes@ == arch.cells@[i].changes.spec_get(kind)@,
            r.cur is None,
            r.index == 0,
            r.tick == tick,
    {
        match arch.changes(key, kind) {
            Some(list) => PreparedKindFilter::from_borrow(list.as_slice(), tick),
            None => {
                assert(false);
                PreparedKindFilter::from_borrow(&[], tick)
            },
        }
    }

    /// The current change event after the tick, moving on to the next one where there is none.
    pub fn current_slice(&mut self) -> (r: Option<Slice>)
        requires
            old(self).index <= old(self).changes@.len(),
        ensures
            (r, *final(self)) == spec_current(*old(self)),
    {
        match self.cur {
            Some(v) => Some(v),
            None => {
                let ghost goal = spec_current(*old(self));
                while self.index < self.changes.len()
                    invariant
                        self.cur is None,
                        self.index <= self.changes@.len(),
                        spec_current(*self) == goal,
                        goal == spec_current(*old(self)),
                    decreases self.changes@.len() - self.index,
                {
                    let change = self.changes[self.index];
                    self.index = self.index + 1;
                    if change.tick > self.tick {
                        self.cur = Some(change.slice);
                        return Some(change.slice);
                    }
                }
                None
            },
        }
    }
}

impl<'w> PreparedFilter for PreparedKindFilter<'w> {
    open spec fn spec_filter(&self, slots: Slice) -> (Option<Slice>, PreparedKindFilter<'w>) {
        spec_kind_filter(*self, slots)
    }

    fn filter(&mut self, slots: Slice) -> (r: Option<Slice>) {
        if self.index > self.changes.len() {
            return None;
        }
        let ghost goal = spec_kind_filter(*old(self), slots);
        loop
            invariant
                self.index <= self.changes@.len(),
                slots.wf(),
                spec_kind_filter(*self, slots) == goal,
                goal == spec_kind_filter(*old(self), slots),
                old(self).index <= old(self).changes@.len(),
            decreases self.changes@.len() - self.index, if self.cur is Some { 1int } else { 0int },
        {
            proof {
                lemma_current(*self);
            }
            let cur = match self.current_slice() {
                Some(c) => c,
                None => {
                    return None;
                },
            };
            match cur.intersect(&slots) {
                Some(i) => {
                    return Some(i);
                },
                None => {
                    self.cur = None;
                },
            }
        }
    }
}

/// Passes every slot.
#[derive(Debug, Clone, Copy)]
pub struct All;

impl PreparedFilter for All {
    open spec fn spec_filter(&self, slots: Slice) -> (Option<Slice>, All) {
        (Some(slots), All)
    }

    fn filter(&mut self, slots: Slice) -> (r: Option<Slice>) {
        Some(slots)
    }
}

/// Passes the slots either filter passes, a contiguous slice at a time.
pub struct PreparedOr<L, R> {
    pub left: L,
    pub right: R,
}

impl<L, R> PreparedOr<L, R> {
    /// Combines two prepared filters.
    pub fn new(left: L, right: R) -> (r: PreparedOr<L, R>)
        ensures
            r.left == left,
            r.right == right,
    {
        PreparedOr { left, right }
    }
}

impl<L: PreparedFilter, R: PreparedFilter> PreparedFilter for PreparedOr<L, R> {
    /// The union of both results where it is contiguous, else the left one.
    open spec fn spec_filter(&self, slots: Slice) -> (Option<Slice>, PreparedOr<L, R>) {
        let (l, l2) = self.left.spec_filter(slots);
        match l {
            None => (None, PreparedOr { left: l2, right: self.right }),
            Some(ls) => {
                let (r, r2) = self.right.spec_filter(slots);
                match r {
                    None => (None, PreparedOr { left: l2, right: r2 }),
                    Some(rs) => (Some(
                        match ls.spec_union(rs) {
                            Some(u) => u,
                            None => ls,
                        },
                    ), PreparedOr { left: l2, right: r2 }),
                }
            },
        }
    }

    fn filter(&mut self, slots: Slice) -> (r: Option<Slice>) {
        let l = match self.left.filter(slots) {
            Some(l) => l,
            None => {
                return None;
            },
        };
        let r = match self.right.filter(slots) {
            Some(r) => r,
            None => {
                return None;
            },
        };
        match l.union(&r) {
            Some(u) => Some(u),
            None => Some(l),
        }
    }
}

/// Passes the slots both filters pass.
pub struct PreparedAnd<L, R> {
    pub left: L,
    pub right: R,
}

impl<L, R> PreparedAnd<L, R> {
    /// Combines two prepared filters.
    pub fn new(left: L, right: R) -> (r: PreparedAnd<L, R>)
        ensures
            r.left == left,
            r.right == right,
    {
        PreparedAnd { left, right }
    }
}

/// The slots from the larger start of two results on, where both results share no slot.
pub open spec fn catch_up(l: Slice, r: Slice, slots: Slice) -> Slice {
    let m = if l.start >= r.start { l.start } else { r.start };
    Slice { start: if m <= slots.end { m } else { slots.end }, end: slots.end }
}

impl<L: PreparedFilter, R: PreparedFilter> PreparedFilter for PreparedAnd<L, R> {
    /// The overlap of both results; where they share no slot, both filters run again from the
    /// larger start on, and the overlap of their new results is returned.
    open spec fn spec_filter(&self, slots: Slice) -> (Option<Slice>, PreparedAnd<L, R>) {
        let (l, l2) = self.left.spec_filter(slots);
        match l {
            None => (None, PreparedAnd { left: l2, right: self.right }),
            Some(ls) => {
                let (r, r2) = self.right.spec_filter(slots);
                match r {
                    None => (None, PreparedAnd { left: l2, right: r2 }),
                    Some(rs) => if !meet(ls, rs).spec_is_empty() {
                        (Some(meet(ls, rs)), PreparedAnd { left: l2, right: r2 })
                    } else {
                        let s2 = catch_up(ls, rs, slots);
                        let (l3, l4) = l2.spec_filter(s2);
                        match l3 {
                            None => (None, PreparedAnd { left: l4, right: r2 }),
                            Some(ls3) => {
                                let (r3, r4) = r2.spec_filter(s2);
                                match r3 {
                                    None => (None, PreparedAnd { left: l4, right: r4 }),
                                    Some(rs3) => (Some(meet(ls3, rs3)), PreparedAnd { left: l4, right: r4 }),
                                }
                            },
                        }
                    },
                }
            },
        }
    }

    fn filter(&mut self, slots: Slice) -> (r: Option<Slice>) {
        let l = match self.left.filter(slots) {
            Some(l) => l,
            None => {
                return None;
            },
        };
        let r = match self.right.filter(slots) {
            Some(r) => r,
            None => {
                return None;
            },
        };
        let i = meet_exec(l, r);
        if i.is_empty() {
            let m = if l.start >= r.start { l.start } else { r.start };
            let s2 = Slice::new(if m <= slots.end { m } else { slots.end }, slots.end);
            assert(s2 == catch_up(l, r, slots));
            let l = match self.left.filter(s2) {
                Some(l) => l,
                None => {
                    return None;
                },
            };
            let r = match self.right.filter(s2) {
                Some(r) => r,
                None => {
                    return None;
                },
            };
            Some(meet_exec(l, r))
        } else {
            Some(i)
        }
    }
}

/// Iterates the nonempty slices of `slots` a prepared filter passes, from left to right.
pub struct FilterIter<F> {
    pub slots: Slice,
    pub filter: F,
}

impl<F> FilterIter<F> {
    /// Iterates the slices of `slots` which `filter` passes.
    pub fn new(slots: Slice, filter: F) -> (r: FilterIter<F>)
        ensures
            r.slots == slots,
            r.filter == filter,
    {
        FilterIter { slots, filter }
    }
}

impl<F: PreparedFilter> FilterIter<F> {
    /// The next slice: the filter's result, where it is not empty; the slots before and in it
    /// are consumed.
    pub fn next(&mut self) -> (r: Option<Slice>)
        requires
            old(self).slots.wf(),
        ensures
            final(self).slots.wf(),
            final(self).slots.end == old(self).slots.end,
            ({
                let (res, f2) = old(self).filter.spec_filter(old(self).slots);
                &&& final(self).filter == f2
                &&& res is Some && !res->0.spec_is_empty() ==> r == res && final(self).slots == (Slice {
                    start: res->0.end,
                    end: old(self).slots.end,
                })
                &&& !(res is Some && !res->0.spec_is_empty()) ==> r is None && final(self).slots == old(self).slots
            }),
    {
        let cur = match self.filter.filter(self.slots) {
            Some(c) => c,
            None => {
                return None;
            },
        };
        if cur.is_empty() {
            None
        } else {
            match self.slots.split_with(&cur) {
                Some((_l, m, r)) => {
                    self.slots = r;
                    Some(m)
                },
                None => {
                    assert(false);
                    None
                },
            }
        }
    }
}


/// A filter over a query, prepared for an archetype and the tick of the previous run.
pub trait Filter<'w, V>: Sized {
    /// The filter prepared for one archetype.
    type Prepared: PreparedFilter;

    /// Whether the filter can be prepared for the archetype.
    spec fn spec_prepare_ok(&self, arch: &'w Archetype<V>) -> bool;

    /// What holds of the filter prepared for the archetype.
    spec fn spec_prepared(&self, arch: &'w Archetype<V>, change_tick: u32, p: Self::Prepared) -> bool;

    /// Prepares the filter for an archetype, counting the changes after `change_tick`.
    fn prepare(&self, arch: &'w Archetype<V>, change_tick: u32) -> (r: Self::Prepared)
        requires
            arch.cells@.len() == arch.components@.len(),
            self.spec_prepare_ok(arch),
        ensures
            self.spec_prepared(arch, change_tick, r),
    ;

    /// Passes what either filter passes.
    fn or<F>(self, other: F) -> (r: Or<Self, F>)
        ensures
            r.left == self,
            r.right == other,
    {
        Or { left: self, right: other }
    }

    /// Passes what both filters pass.
    fn and<F>(self, other: F) -> (r: And<Self, F>)
        ensures
            r.left == self,
            r.right == other,
    {
        And { left: self, right: other }
    }
}

/// The change events of a kind of a component in an archetype, in a prepared kind filter.
pub open spec fn kind_prepared<'w, V>(arch: &'w Archetype<V>, key: ComponentKey, kind: ChangeKind, tick: u32, p: PreparedKindFilter<'w>) -> bool {
    &&& exists|i: int| 0 <= i < arch.components@.len() && arch.components@[i] == key && p.changes@ == arch.cells@[i].changes.spec_get(kind)@
    &&& p.cur is None
    &&& p.index == 0
    &&& p.tick == tick
}

/// Passes the slots where a component was modified.
#[derive(Debug, Clone, Copy)]
pub struct ModifiedFilter {
    pub component: ComponentKey,
}

impl ModifiedFilter {
    /// Passes the slots where `component` was modified.
    pub fn new(component: ComponentKey) -> (r: ModifiedFilter)
        ensures
            r.component == component,
    {
        ModifiedFilter { component }
    }
}

impl<'w, V> Filter<'w, V> for ModifiedFilter {
    type Prepared = PreparedKindFilter<'w>;

    open spec fn spec_prepare_ok(&self, arch: &'w Archetype<V>) -> bool {
        arch.components@.contains(self.component)
    }

    open spec fn spec_prepared(&self, arch: &'w Archetype<V>, change_tick: u32, p: PreparedKindFilter<'w>) -> bool {
        kind_prepared(arch, self.component, ChangeKind::Modified, change_tick, p)
    }

    fn prepare(&self, arch: &'w Archetype<V>, change_tick: u32) -> (r: PreparedKindFilter<'w>) {
        PreparedKindFilter::new(arch, self.component, change_tick, ChangeKind::Modified)
    }
}

/// Passes the slots where a component was added.
#[derive(Debug, Clone, Copy)]
pub struct InsertedFilter {
    pub component: ComponentKey,
}

impl InsertedFilter {
    /// Passes the slots where `component` was added.
    pub fn new(component: ComponentKey) -> (r: InsertedFilter)
        ensures
            r.component == component,
    {
        InsertedFilter { component }
    }
}

impl<'w, V> Filter<'w, V> for InsertedFilter {
    type Prepared = PreparedKindFilter<'w>;

    open spec fn spec_prepare_ok(&self, arch: &'w Archetype<V>) -> bool {
        arch.components@.contains(self.component)
    }

    open spec fn spec_prepared(&self, arch: &'w Archetype<V>, change_tick: u32, p: PreparedKindFilter<'w>) -> bool {
        kind_prepared(arch, self.component, ChangeKind::Added, change_tick, p)
    }

    fn prepare(&self, arch: &'w Archetype<V>, change_tick: u32) -> (r: PreparedKindFilter<'w>) {
        PreparedKindFilter::new(arch, self.component, change_tick, ChangeKind::Added)
    }
}

/// Passes what both filters pass.
#[derive(Debug, Clone, Copy)]
pub struct And<L, R> {
    pub left: L,
    pub right: R,
}

impl<'w, V, L: Filter<'w, V>, R: Filter<'w, V>> Filter<'w, V> for And<L, R> {
    type Prepared = PreparedAnd<L::Prepared, R::Prepared>;

    open spec fn spec_prepare_ok(&self, arch: &'w Archetype<V>) -> bool {
        self.left.spec_prepare_ok(arch) && self.right.spec_prepare_ok(arch)
    }

    open spec fn spec_prepared(&self, arch: &'w Archetype<V>, change_tick: u32, p: PreparedAnd<L::Prepared, R::Prepared>) -> bool {
        self.left.spec_prepared(arch, change_tick, p.left) && self.right.spec_prepared(arch, change_tick, p.right)
    }

    fn prepare(&self, arch: &'w Archetype<V>, change_tick: u32) -> (r: PreparedAnd<L::Prepared, R::Prepared>) {
        PreparedAnd { left: self.left.prepare(arch, change_tick), right: self.right.prepare(arch, change_tick) }
    }
}

/// Passes what either filter passes.
#[derive(Debug, Clone, Copy)]
pub struct Or<L, R> {
    pub left: L,
    pub right: R,
}

impl<'w, V, L: Filter<'w, V>, R: Filter<'w, V>> Filter<'w, V> for Or<L, R> {
    type Prepared = PreparedOr<L::Prepared, R::Prepared>;

    open spec fn spec_prepare_ok(&self, arch: &'w Archetype<V>) -> bool {
        self.left.spec_prepare_ok(arch) && self.right.spec_prepare_ok(arch)
    }

    open spec fn spec_prepared(&self, arch: &'w Archetype<V>, change_tick: u32, p: PreparedOr<L::Prepared, R::Prepared>) -> bool {
        self.left.spec_prepared(arch, change_tick, p.left) && self.right.spec_prepared(arch, change_tick, p.right)
    }

    fn prepare(&self, arch: &'w Archetype<V>, change_tick: u32) -> (r: PreparedOr<L::Prepared, R::Prepared>) {
        PreparedOr { left: self.left.prepare(arch, change_tick), right: self.right.prepare(arch, change_tick) }
    }
}

impl<'w, V> Filter<'w, V> for All {
    type Prepared = All;

    open spec fn spec_prepare_ok(&self, arch: &'w Archetype<V>) -> bool {
        true
    }

    open spec fn spec_prepared(&self, arch: &'w Archetype<V>, change_tick: u32, p: All) -> bool {
        true
    }

    fn prepare(&self, arch: &'w Archetype<V>, change_tick: u32) -> (r: All) {
        All
    }
}

} // verus!
