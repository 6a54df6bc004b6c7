use vstd::prelude::*;

use crate::changes::{changed_after, changes_wf, lemma_tick_at_member, lemma_tick_at_some, Change};
use crate::fetch::prepared::{end_of, PreparedFetch};
use crate::filter::iter::{spec_collect, spec_next_slice};
use crate::slice::{Slice, Slot};

verus! {

/// The first change in `changes[lo..hi]` newer than `old_tick` which overlaps `slots`.
pub open spec fn first_match(changes: Seq<Change>, lo: int, hi: int, old_tick: u32, slots: Slice) -> Option<int>
    decreases hi - lo,
{
    if lo >= hi {
        None
    } else if changes[lo].tick > old_tick && changes[lo].slice.spec_overlaps(slots) {
        Some(lo)
    } else {
        first_match(changes, lo + 1, hi, old_tick, slots)
    }
}

/// The number of changes in `changes[lo..hi]` newer than `old_tick`.
pub open spec fn count_newer(changes: Seq<Change>, lo: int, hi: int, old_tick: u32) -> int
    decreases hi - lo,
{
    if lo >= hi {
        0
    } else {
        (if changes[lo].tick > old_tick { 1int } else { 0int }) + count_newer(changes, lo + 1, hi, old_tick)
    }
}

pub proof fn lemma_first_match_props(changes: Seq<Change>, lo: int, hi: int, old_tick: u32, slots: Slice)
    requires
        0 <= lo,
        hi <= changes.len(),
    ensures
        first_match(changes, lo, hi, old_tick, slots) matches Some(i) ==> {
            &&& lo <= i < hi
            &&& changes[i].tick > old_tick
            &&& changes[i].slice.spec_overlaps(slots)
            &&& count_newer(changes, lo, i, old_tick) <= i - lo
        },
    decreases hi - lo,
{
    if lo < hi {
        lemma_first_match_props(changes, lo + 1, hi, old_tick, slots);
        if let Some(i) = first_match(changes, lo + 1, hi, old_tick, slots) {
            if !(changes[lo].tick > old_tick && changes[lo].slice.spec_overlaps(slots)) {
                lemma_count_newer_bound(changes, lo, i, old_tick);
            }
        }
    }
}

pub proof fn lemma_count_newer_bound(changes: Seq<Change>, lo: int, hi: int, old_tick: u32)
    ensures
        lo <= hi ==> 0 <= count_newer(changes, lo, hi, old_tick) <= hi - lo,
    decreases hi - lo,
{
    if lo < hi {
        lemma_count_newer_bound(changes, lo + 1, hi, old_tick);
    }
}

/// Remembers the change found last to speed up the search of the next one.
pub struct ChangeCursor {
    pub cursor: usize,
    pub old_tick: u32,
    pub cur: Option<Slice>,
}

impl ChangeCursor {
    /// The cursor lies inside `changes` and the remembered slice is that of a change newer
    /// than the cursor's tick.
    pub open spec fn valid_for(&self, changes: Seq<Change>) -> bool {
        &&& self.cursor <= changes.len()
        &&& self.cur matches Some(c) ==> exists|k: int| 0 <= k < changes.len() && (#[trigger] changes[k]).slice == c && changes[k].tick > self.old_tick
    }

    /// What `find_slice` returns and the cursor it leaves behind.
    pub open spec fn spec_find_slice(&self, changes: Seq<Change>, slots: Slice) -> (Option<Slice>, ChangeCursor) {
        if self.cur is Some && self.cur->0.spec_overlaps(slots) {
            (self.cur, *self)
        } else {
            match first_match(changes, self.cursor as int, changes.len() as int, self.old_tick, slots) {
                Some(i) => (
                    Some(changes[i].slice),
                    ChangeCursor {
                        cursor: count_newer(changes, self.cursor as int, i, self.old_tick) as usize,
                        old_tick: self.old_tick,
                        cur: Some(changes[i].slice),
                    },
                ),
                None => match first_match(changes, 0, self.cursor as int, self.old_tick, slots) {
                    Some(i) => (Some(changes[i].slice), *self),
                    None => (None, *self),
                },
            }
        }
    }

    /// A cursor at the start, for changes newer than `old_tick`.
    pub fn new(old_tick: u32) -> (r: ChangeCursor)
        ensures
            r.cursor == 0,
            r.old_tick == old_tick,
            r.cur is None,
    {
        ChangeCursor { cursor: 0, old_tick, cur: None }
    }

    /// Finds a change newer than the cursor's tick whose slots overlap `slots`.
    ///
    /// The remembered slice is returned if it still overlaps; otherwise the changes from the
    /// cursor onwards are searched, then those before it.
    pub fn find_slice(&mut self, changes: &[Change], slots: Slice) -> (r: Option<Slice>)
        requires
            old(self).valid_for(changes@),
        ensures
            (r, *final(self)) == old(self).spec_find_slice(changes@, slots),
            final(self).valid_for(changes@),
            r matches Some(s) ==> exists|k: int| 0 <= k < changes@.len() && (#[trigger] changes@[k]).slice == s && changes@[k].tick > old(self).old_tick,
            r matches Some(s) ==> s.spec_overlaps(slots),
    {
        // Short circuit
        if let Some(cur) = self.cur {
            if cur.overlaps(slots) {
                return Some(cur);
            }
        }
        let n = changes.len();
        // Search from the cursor, counting the newer changes skipped over
        let mut i = self.cursor;
        let mut pos: usize = 0;
        while i < n
            invariant
                self.cursor <= i <= n,
                n == changes@.len(),
                *self == *old(self),
                old(self).valid_for(changes@),
                !(old(self).cur is Some && old(self).cur->0.spec_overlaps(slots)),
                pos == count_newer(changes@, self.cursor as int, i as int, self.old_tick),
                first_match(changes@, self.cursor as int, n as int, self.old_tick, slots)
                    == first_match(changes@, i as int, n as int, self.old_tick, slots),
            decreases n - i,
        {
            proof {
                lemma_count_newer_split(changes@, self.cursor as int, i as int, self.old_tick);
                lemma_count_newer_bound(changes@, self.cursor as int, i as int, self.old_tick);
            }
            let c = changes[i];
            if c.tick > self.old_tick {
                if c.slice.overlaps(slots) {
                    self.cur = Some(c.slice);
                    self.cursor = pos;
                    proof {
                        lemma_count_newer_bound(changes@, old(self).cursor as int, i as int, self.old_tick);
                        assert(changes@[i as int].slice == c.slice);
                    }
                    return Some(c.slice);
                }
                pos = pos + 1;
            }
            i += 1;
        }
        // Search before the cursor
        let mut j: usize = 0;
        let end = if self.cursor <= n { self.cursor } else { n };
        while j < end
            invariant
                0 <= j <= end,
                end == self.cursor,
                *self == *old(self),
                old(self).valid_for(changes@),
                !(old(self).cur is Some && old(self).cur->0.spec_overlaps(slots)),
                first_match(changes@, self.cursor as int, n as int, self.old_tick, slots) is None,
                end <= n,
                n == changes@.len(),
                first_match(changes@, 0, end as int, self.old_tick, slots)
                    == first_match(changes@, j as int, end as int, self.old_tick, slots),
            decreases end - j,
        {
            let c = changes[j];
            if c.tick > self.old_tick && c.slice.overlaps(slots) {
                proof {
                    assert(changes@[j as int].slice == c.slice);
                }
                return Some(c.slice);
            }
            j += 1;
        }
        None
    }
}

pub proof fn lemma_count_newer_split(changes: Seq<Change>, lo: int, mid: int, old_tick: u32)
    requires
        lo <= mid,
    ensures
        count_newer(changes, lo, mid + 1, old_tick) == count_newer(changes, lo, mid, old_tick) + (
        if changes[mid].tick > old_tick {
            1int
        } else {
            0int
        }),
    decreases mid - lo,
{
    if lo < mid {
        lemma_count_newer_split(changes, lo + 1, mid, old_tick);
    } else {
        assert(count_newer(changes, mid + 1, mid + 1, old_tick) == 0);
    }
}

/// Filters slots by a list of changes: yields the slots changed after a tick.
pub struct ChangeFetch<'w> {
    pub changes: &'w [Change],
    pub cursor: ChangeCursor,
}

impl<'w> ChangeFetch<'w> {
    /// Creates a filter over `changes` which yields the slots changed after `new_tick`.
    pub fn new(changes: &'w [Change], new_tick: u32) -> (r: ChangeFetch<'w>)
        ensures
            r.changes@ == changes@,
            r.cursor == (ChangeCursor { cursor: 0, old_tick: new_tick, cur: None }),
    {
        ChangeFetch { changes, cursor: ChangeCursor::new(new_tick) }
    }
}

/// The slice a change filter yields for `slots` when `found` is the change found for it.
pub open spec fn change_filter_result(found: Option<Slice>, slots: Slice) -> Slice {
    match found {
        Some(v) => match v.spec_intersect(slots) {
            Some(i) => i,
            None => end_of(slots),
        },
        None => end_of(slots),
    }
}

impl<'w> PreparedFetch<'w> for ChangeFetch<'w> {
    type Item = ();

    open spec fn spec_filter_ok(&self, slots: Slice) -> bool {
        self.cursor.valid_for(self.changes@)
    }

    open spec fn spec_filter(&self, slots: Slice) -> (Slice, ChangeFetch<'w>) {
        let (found, cursor) = self.cursor.spec_find_slice(self.changes@, slots);
        (change_filter_result(found, slots), ChangeFetch { changes: self.changes, cursor })
    }

    open spec fn spec_fetch_ok(&self, slot: int) -> bool {
        true
    }

    open spec fn spec_fetch(&self, slot: int) -> () {
        ()
    }

    fn filter_slots(&mut self, slots: Slice) -> (r: Slice) {
        let cur = match self.cursor.find_slice(self.changes, slots) {
            Some(v) => v,
            None => {
                return Slice::new(slots.end, slots.end);
            },
        };
        match cur.intersect(&slots) {
            Some(i) => i,
            None => Slice::new(slots.end, slots.end),
        }
    }

    fn fetch_shared(&self, slot: Slot) -> (r: ()) {
    }
}

/// Law: a nonempty slice yielded by a change filter lies inside one change newer than the
/// filter's tick.
pub proof fn lemma_change_filter_sound(f: ChangeFetch, slots: Slice)
    requires
        f.spec_filter_ok(slots),
        slots.wf(),
    ensures
        ({
            let (r, f2) = f.spec_filter(slots);
            &&& f2.spec_filter_ok(r)
            &&& f2.cursor.old_tick == f.cursor.old_tick
            &&& f2.changes == f.changes
            &&& !r.spec_is_empty() ==> exists|k: int|
                0 <= k < f.changes@.len() && (#[trigger] f.changes@[k]).slice.contains_slice(r)
                    && f.changes@[k].tick > f.cursor.old_tick
        }),
{
    let changes = f.changes@;
    let c = f.cursor;
    lemma_first_match_props(changes, c.cursor as int, changes.len() as int, c.old_tick, slots);
    lemma_first_match_props(changes, 0, c.cursor as int, c.old_tick, slots);
    if let Some(i) = first_match(changes, c.cursor as int, changes.len() as int, c.old_tick, slots) {
        lemma_count_newer_bound(changes, c.cursor as int, i, c.old_tick);
    }
    let (found, c2) = c.spec_find_slice(changes, slots);
    if let Some(v) = found {
        if c.cur is Some && c.cur->0.spec_overlaps(slots) {
            let cc = c.cur->0;
            let k = choose|k: int| 0 <= k < changes.len() && (#[trigger] changes[k]).slice == cc && changes[k].tick > c.old_tick;
            assert(changes[k].slice.contains_slice(change_filter_result(found, slots)) || change_filter_result(found, slots).spec_is_empty());
        } else if let Some(i) = first_match(changes, c.cursor as int, changes.len() as int, c.old_tick, slots) {
            assert(changes[i].slice.contains_slice(change_filter_result(found, slots)) || change_filter_result(found, slots).spec_is_empty());
        } else if let Some(i) = first_match(changes, 0, c.cursor as int, c.old_tick, slots) {
            assert(changes[i].slice.contains_slice(change_filter_result(found, slots)) || change_filter_result(found, slots).spec_is_empty());
        }
    }
}

/// One step of slice iteration over a change filter keeps the filter valid and yields a slice
/// inside a change newer than the filter's tick.
pub proof fn lemma_change_next_sound(f: ChangeFetch, slots: Slice)
    requires
        slots.wf(),
        f.cursor.valid_for(f.changes@),
    ensures
        ({
            let (ok, r, rest, f2) = spec_next_slice(f, slots);
            &&& f2.cursor.valid_for(f2.changes@)
            &&& f2.changes == f.changes
            &&& f2.cursor.old_tick == f.cursor.old_tick
            &&& ok ==> rest.wf()
            &&& (ok && r is Some) ==> exists|k: int|
                0 <= k < f.changes@.len() && (#[trigger] f.changes@[k]).slice.contains_slice(r->0)
                    && f.changes@[k].tick > f.cursor.old_tick
        }),
    decreases slots.end - slots.start,
{
    if slots.end > slots.start {
        lemma_change_filter_sound(f, slots);
        let (cur, f2) = f.spec_filter(slots);
        let rest = Slice { start: cur.end, end: slots.end };
        if slots.contains_slice(cur) && cur.start >= cur.end && rest.start > slots.start {
            lemma_change_next_sound(f2, rest);
        }
    }
}

/// Law: every slot of every slice that an iteration over a change filter yields changed after
/// the filter's tick.
pub proof fn lemma_change_iter_sound(f: ChangeFetch, slots: Slice)
    requires
        slots.wf(),
        f.cursor.valid_for(f.changes@),
        spec_collect(f, slots).0,
    ensures
        forall|i: int, s: int|
            0 <= i < spec_collect(f, slots).1.len() && #[trigger] spec_collect(f, slots).1[i].has(s)
                ==> exists|k: int|
                0 <= k < f.changes@.len() && (#[trigger] f.changes@[k]).slice.has(s) && f.changes@[k].tick
                    > f.cursor.old_tick,
    decreases slots.end - slots.start,
{
    lemma_change_next_sound(f, slots);
    let (ok, r, rest, f2) = spec_next_slice(f, slots);
    if let Some(m) = r {
        if rest.end - rest.start < slots.end - slots.start && rest.start <= rest.end {
            lemma_change_iter_sound(f2, rest);
            let out = spec_collect(f, slots).1;
            let tail = spec_collect(f2, rest).1;
            assert(out == seq![m] + tail);
            assert forall|i: int, s: int| 0 <= i < out.len() && #[trigger] out[i].has(s) implies exists|k: int|
                0 <= k < f.changes@.len() && (#[trigger] f.changes@[k]).slice.has(s) && f.changes@[k].tick
                    > f.cursor.old_tick by {
                if i == 0 {
                    let k = choose|k: int| 0 <= k < f.changes@.len() && (#[trigger] f.changes@[k]).slice.contains_slice(m) && f.changes@[k].tick > f.cursor.old_tick;
                    assert(f.changes@[k].slice.has(s));
                } else {
                    assert(out[i] == tail[i - 1]);
                }
            }
        }
    }
}


/// A change newer than the tick overlaps the slots exactly where the search finds one.
pub proof fn lemma_first_match_exists(changes: Seq<Change>, lo: int, hi: int, old_tick: u32, slots: Slice)
    requires
        0 <= lo,
        hi <= changes.len(),
    ensures
        first_match(changes, lo, hi, old_tick, slots) is Some <==> exists|k: int|
            lo <= k < hi && (#[trigger] changes[k]).tick > old_tick && changes[k].slice.spec_overlaps(slots),
    decreases hi - lo,
{
    if lo < hi {
        lemma_first_match_exists(changes, lo + 1, hi, old_tick, slots);
        if exists|k: int| lo <= k < hi && (#[trigger] changes[k]).tick > old_tick && changes[k].slice.spec_overlaps(slots) {
            let k = choose|k: int| lo <= k < hi && (#[trigger] changes[k]).tick > old_tick && changes[k].slice.spec_overlaps(slots);
            if k > lo {
                assert(lo + 1 <= k < hi);
            }
        }
    }
}

/// Law: a change filter prepared for a tick lets a single slot through exactly when the slot
/// changed after that tick.
pub proof fn lemma_change_single_exact(f: ChangeFetch, slot: Slot)
    requires
        f.cursor.cursor == 0,
        f.cursor.cur is None,
        changes_wf(f.changes@),
        slot < usize::MAX,
    ensures
        !f.spec_filter(Slice::single_spec(slot)).0.spec_is_empty() <==> changed_after(f.changes@, f.cursor.old_tick, slot as int),
{
    let changes = f.changes@;
    let t = f.cursor.old_tick;
    let single = Slice::single_spec(slot);
    lemma_first_match_exists(changes, 0, changes.len() as int, t, single);
    lemma_first_match_props(changes, 0, changes.len() as int, t, single);
    assert(first_match(changes, 0, 0, t, single) is None);
    if changed_after(changes, t, slot as int) {
        lemma_tick_at_some(changes, slot as int);
        let k = choose|k: int| 0 <= k < changes.len() && (#[trigger] changes[k]).slice.has(slot as int) && Some(changes[k].tick) == crate::changes::tick_at(changes, slot as int);
        assert(changes[k].slice.spec_overlaps(single));
    }
    if let Some(i) = first_match(changes, 0, changes.len() as int, t, single) {
        assert(changes[i].slice.has(slot as int));
        lemma_tick_at_member(changes, i, slot as int);
    }
}

} // verus!
