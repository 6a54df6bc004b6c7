use vstd::prelude::*;

use crate::changes::{Change, ChangeKind, ChangeList, Changes};
use crate::entity::{key_lt, ComponentKey, Entity};
use crate::slice::{Slice, Slot};

verus! {

/// Index of an archetype in the world.
pub type ArchetypeId = usize;

/// Where an entity is stored.
#[derive(Clone, Copy, Debug, PartialEq, Eq, Structural)]
pub struct EntityLocation {
    pub arch_id: ArchetypeId,
    pub slot: Slot,
}

/// The storage of one component in an archetype: a value and the changes of each slot.
#[derive(Debug)]
pub struct Cell<V> {
    pub data: Vec<V>,
    pub changes: Changes,
}

/// The change ticks of one component of one entity.
#[derive(Clone, Copy, Debug, PartialEq, Eq, Structural)]
pub struct RowTicks {
    pub modified: Option<u32>,
    pub added: Option<u32>,
    pub removed: Option<u32>,
}

impl RowTicks {
    /// The tick of a kind.
    pub open spec fn spec_get(self, kind: ChangeKind) -> Option<u32> {
        match kind {
            ChangeKind::Modified => self.modified,
            ChangeKind::Added => self.added,
            ChangeKind::Removed => self.removed,
        }
    }
}

/// The tick at which the component of a cell changed in `slot`.
pub open spec fn cell_tick<V>(cell: Cell<V>, kind: ChangeKind, slot: int) -> Option<u32> {
    cell.changes.spec_get(kind).spec_tick_at(slot)
}

fn set_slot_tick(list: &mut ChangeList, slot: Slot, tick: Option<u32>)
    requires
        old(list).wf(),
        slot < usize::MAX,
    ensures
        final(list).wf(),
        forall|s: int| #[trigger] final(list).spec_tick_at(s) == (if s == slot { tick } else { old(list).spec_tick_at(s) }),
{
    list.remove(Slice::single(slot));
    match tick {
        Some(t) => {
            list.set(Change::new(Slice::single(slot), t));
        },
        None => {},
    }
}

/// The relations of the given kind among `keys`, in order.
pub open spec fn relation_keys(keys: Seq<ComponentKey>, relation: Entity) -> Seq<ComponentKey> {
    keys.filter(is_relation_of(relation))
}

/// Whether a key is a relation of the given kind.
pub open spec fn is_relation_of(relation: Entity) -> spec_fn(ComponentKey) -> bool {
    |k: ComponentKey| k.id == relation && k.target is Some
}

/// The component keys are sorted, hence unique.
pub open spec fn keys_sorted(keys: Seq<ComponentKey>) -> bool {
    forall|i: int, j: int| 0 <= i < j < keys.len() ==> key_lt(#[trigger] keys[i], #[trigger] keys[j])
}

/// Entities that share the same set of components, stored side by side.
#[derive(Debug)]
pub struct Archetype<V> {
    pub components: Vec<ComponentKey>,
    pub cells: Vec<Cell<V>>,
    pub entities: Vec<Entity>,
}

impl<V> Archetype<V> {
    /// Each component has a cell holding one value per entity, and the keys are sorted.
    pub open spec fn wf(&self) -> bool {
        &&& self.cells@.len() == self.components@.len()
        &&& forall|c: int| 0 <= c < self.cells@.len() ==> (#[trigger] self.cells@[c]).data@.len() == self.entities@.len() && self.cells@[c].changes.wf()
        &&& keys_sorted(self.components@)
    }

    /// An archetype with the given (sorted) components and no entity.
    pub fn new(components: Vec<ComponentKey>) -> (r: Archetype<V>)
        requires
            keys_sorted(components@),
        ensures
            r.wf(),
            r.components == components,
            r.entities@.len() == 0,
    {
        let mut cells: Vec<Cell<V>> = Vec::new();
        let mut i: usize = 0;
        while i < components.len()
            invariant
                0 <= i <= components@.len(),
                cells@.len() == i,
                forall|c: int| 0 <= c < i ==> (#[trigger] cells@[c]).data@.len() == 0 && cells@[c].changes.wf(),
            decreases components@.len() - i,
        {
            cells.push(Cell { data: Vec::new(), changes: Changes::new() });
            i += 1;
        }
        Archetype { components, cells, entities: Vec::new() }
    }

    /// Number of entities.
    pub fn len(&self) -> (r: usize)
        ensures
            r == self.entities@.len(),
    {
        self.entities.len()
    }

    /// Whether the archetype holds no entity.
    pub fn is_empty(&self) -> (r: bool)
        ensures
            r == (self.entities@.len() == 0),
    {
        self.entities.len() == 0
    }

    /// All slots of the archetype.
    pub fn slots(&self) -> (r: Slice)
        ensures
            r == (Slice { start: 0, end: self.entities@.len() as usize }),
    {
        Slice::new(0, self.entities.len())
    }

    /// The entities, by slot.
    pub fn entities(&self) -> (r: &[Entity])
        ensures
            r@ == self.entities@,
    {
        self.entities.as_slice()
    }

    /// The entity in `slot`.
    pub fn entity(&self, slot: Slot) -> (r: Option<Entity>)
        ensures
            slot < self.entities@.len() ==> r == Some(self.entities@[slot as int]),
            slot >= self.entities@.len() ==> r is None,
    {
        if slot < self.entities.len() {
            Some(self.entities[slot])
        } else {
            None
        }
    }

    /// The component keys, sorted.
    pub fn components(&self) -> (r: &[ComponentKey])
        ensures
            r@ == self.components@,
    {
        self.components.as_slice()
    }

    /// The position of `key` among the components.
    pub fn index_of(&self, key: ComponentKey) -> (r: Option<usize>)
        ensures
            r matches Some(i) ==> i < self.components@.len() && self.components@[i as int] == key,
            r is None ==> !self.components@.contains(key),
    {
        let mut i: usize = 0;
        while i < self.components.len()
            invariant
                0 <= i <= self.components@.len(),
                forall|k: int| 0 <= k < i ==> self.components@[k] != key,
            decreases self.components@.len() - i,
        {
            if self.components[i] == key {
                return Some(i);
            }
            i += 1;
        }
        None
    }

    /// Whether the archetype has the component.
    pub fn has(&self, key: ComponentKey) -> (r: bool)
        ensures
            r == self.components@.contains(key),
    {
        match self.index_of(key) {
            Some(i) => {
                proof {
                    assert(self.components@[i as int] == key);
                }
                true
            },
            None => false,
        }
    }

    /// Whether the archetype has every component of `keys`.
    pub fn has_all(&self, keys: &[ComponentKey]) -> (r: bool)
        ensures
            r == (forall|k: int| 0 <= k < keys@.len() ==> self.components@.contains(#[trigger] keys@[k])),
    {
        let mut i: usize = 0;
        while i < keys.len()
            invariant
                0 <= i <= keys@.len(),
                forall|k: int| 0 <= k < i ==> self.components@.contains(#[trigger] keys@[k]),
            decreases keys@.len() - i,
        {
            if !self.has(keys[i]) {
                return false;
            }
            i += 1;
        }
        true
    }

    /// The cell of a component.
    pub fn cell(&self, key: ComponentKey) -> (r: Option<&Cell<V>>)
        ensures
            r matches Some(c) ==> exists|i: int| 0 <= i < self.components@.len() && self.components@[i] == key && self.cells@.len() == self.components@.len() && *c == self.cells@[i],
            r is None ==> !self.components@.contains(key) || self.cells@.len() != self.components@.len(),
    {
        match self.index_of(key) {
            Some(i) => {
                if i < self.cells.len() && self.cells.len() == self.components.len() {
                    Some(&self.cells[i])
                } else {
                    None
                }
            },
            None => None,
        }
    }

    /// The relations of the given kind, in component order.
    pub fn relations_like(&self, relation: Entity) -> (r: Vec<ComponentKey>)
        ensures
            r@ == relation_keys(self.components@, relation),
    {
        let mut out: Vec<ComponentKey> = Vec::new();
        let mut i: usize = 0;
        while i < self.components.len()
            invariant
                0 <= i <= self.components@.len(),
                out@ == relation_keys(self.components@.subrange(0, i as int), relation),
            decreases self.components@.len() - i,
        {
            let k = self.components[i];
            proof {
                assert(self.components@.subrange(0, i + 1).drop_last() =~= self.components@.subrange(0, i as int));
                reveal_with_fuel(Seq::filter, 1);
            }
            if k.id == relation && k.target.is_some() {
                out.push(k);
            }
            i += 1;
        }
        proof {
            assert(self.components@.subrange(0, i as int) =~= self.components@);
        }
        out
    }

    /// Whether some component of the archetype is a relation to `target`.
    pub fn has_target(&self, target: Entity) -> (r: bool)
        ensures
            r == exists|i: int| 0 <= i < self.components@.len() && (#[trigger] self.components@[i]).target == Some(target),
    {
        let mut i: usize = 0;
        while i < self.components.len()
            invariant
                0 <= i <= self.components@.len(),
                forall|k: int| 0 <= k < i ==> (#[trigger] self.components@[k]).target != Some(target),
            decreases self.components@.len() - i,
        {
            if self.components[i].target == Some(target) {
                return true;
            }
            i += 1;
        }
        false
    }

    /// Removes the entity of `slot`, moving the last entity into its place. Returns the values
    /// and change ticks of the removed entity, in component order.
    pub fn take_row(&mut self, slot: Slot) -> (r: (Vec<V>, Vec<RowTicks>))
        requires
            old(self).wf(),
            slot < old(self).entities@.len(),
            old(self).entities@.len() < usize::MAX,
        ensures
            final(self).wf(),
            final(self).components == old(self).components,
            final(self).entities@ == old(self).entities@.update(slot as int, old(self).entities@.last()).drop_last(),
            r.0@.len() == old(self).components@.len(),
            r.1@.len() == old(self).components@.len(),
            forall|c: int| 0 <= c < r.0@.len() ==> r.0@[c] == (#[trigger] old(self).cells@[c]).data@[slot as int],
            forall|c: int| 0 <= c < r.0@.len() ==> (#[trigger] final(self).cells@[c]).data@ == old(self).cells@[c].data@.update(slot as int, old(self).cells@[c].data@.last()).drop_last(),
            forall|c: int, k: ChangeKind| 0 <= c < r.1@.len() ==> #[trigger] r.1@[c].spec_get(k) == cell_tick(old(self).cells@[c], k, slot as int),
            forall|c: int, k: ChangeKind, s: int| 0 <= c < r.0@.len() && 0 <= s < final(self).entities@.len() ==> #[trigger] cell_tick(final(self).cells@[c], k, s) == (if s == slot {
                cell_tick(old(self).cells@[c], k, old(self).entities@.len() - 1)
            } else {
                cell_tick(old(self).cells@[c], k, s)
            }),
    {
        let last = self.entities.len() - 1;
        let mut vals: Vec<V> = Vec::new();
        let mut ticks: Vec<RowTicks> = Vec::new();
        let ghost old_cells = self.cells@;
        let n = self.cells.len();
        let mut c: usize = 0;
        while c < n
            invariant
                n == self.cells@.len(),
                n == self.components@.len(),
                old_cells.len() == n,
                self.components == old(self).components,
                self.entities == old(self).entities,
                old_cells == old(self).cells@,
                old(self).wf(),
                slot <= last,
                last + 1 == old(self).entities@.len(),
                last + 1 < usize::MAX,
                0 <= c <= n,
                vals@.len() == c,
                ticks@.len() == c,
                forall|k: int| c <= k < n ==> self.cells@[k] == #[trigger] old_cells[k],
                forall|k: int| 0 <= k < c ==> vals@[k] == (#[trigger] old_cells[k]).data@[slot as int],
                forall|k: int| 0 <= k < c ==> (#[trigger] self.cells@[k]).data@ == old_cells[k].data@.update(slot as int, old_cells[k].data@.last()).drop_last(),
                forall|k: int| 0 <= k < c ==> (#[trigger] self.cells@[k]).changes.wf(),
                forall|k: int, kind: ChangeKind| 0 <= k < c ==> #[trigger] ticks@[k].spec_get(kind) == cell_tick(old_cells[k], kind, slot as int),
                forall|k: int, kind: ChangeKind, s: int| 0 <= k < c && 0 <= s < last ==> #[trigger] cell_tick(self.cells@[k], kind, s) == (if s == slot {
                    cell_tick(old_cells[k], kind, last as int)
                } else {
                    cell_tick(old_cells[k], kind, s)
                }),
            decreases n - c,
        {
            proof {
                assert(self.cells@[c as int] == old_cells[c as int]);
                assert(old(self).cells@[c as int].changes.wf());
            }
            let cell = &mut self.cells[c];
            let t = RowTicks {
                modified: cell.changes.modified.tick_at(slot),
                added: cell.changes.added.tick_at(slot),
                removed: cell.changes.removed.tick_at(slot),
            };
            let v = cell.data.swap_remove(slot);
            if slot < last {
                cell.changes.migrate_slot(last, slot);
            } else {
                cell.changes.modified.remove(Slice::single(slot));
                cell.changes.added.remove(Slice::single(slot));
                cell.changes.removed.remove(Slice::single(slot));
            }
            vals.push(v);
            ticks.push(t);
            c += 1;
        }
        self.entities.swap_remove(slot);
        (vals, ticks)
    }

    /// Appends an entity with the given values and change ticks, in component order.
    pub fn push_row(&mut self, entity: Entity, vals: Vec<V>, ticks: Vec<RowTicks>)
        requires
            old(self).wf(),
            vals@.len() == old(self).components@.len(),
            ticks@.len() == old(self).components@.len(),
            old(self).entities@.len() < usize::MAX - 1,
        ensures
            final(self).wf(),
            final(self).components == old(self).components,
            final(self).entities@ == old(self).entities@.push(entity),
            forall|c: int| 0 <= c < vals@.len() ==> (#[trigger] final(self).cells@[c]).data@ == old(self).cells@[c].data@.push(vals@[c]),
            forall|c: int, k: ChangeKind, s: int| 0 <= c < vals@.len() && 0 <= s <= old(self).entities@.len() ==> #[trigger] cell_tick(final(self).cells@[c], k, s) == (if s == old(self).entities@.len() {
                ticks@[c].spec_get(k)
            } else {
                cell_tick(old(self).cells@[c], k, s)
            }),
    {
        let slot = self.entities.len();
        let mut vals = vals;
        let ghost vals0 = vals@;
        let ghost old_cells = self.cells@;
        let n = self.cells.len();
        let mut c: usize = 0;
        while c < n
            invariant
                n == self.cells@.len(),
                n == self.components@.len(),
                old_cells.len() == n,
                self.components == old(self).components,
                self.entities == old(self).entities,
                old_cells == old(self).cells@,
                old(self).wf(),
                slot == old(self).entities@.len(),
                slot < usize::MAX - 1,
                ticks@.len() == n,
                vals0.len() == n,
                0 <= c <= n,
                vals@ == vals0.subrange(c as int, n as int),
                forall|k: int| c <= k < n ==> self.cells@[k] == #[trigger] old_cells[k],
                forall|k: int| 0 <= k < c ==> (#[trigger] self.cells@[k]).data@ == old_cells[k].data@.push(vals0[k]),
                forall|k: int| 0 <= k < c ==> (#[trigger] self.cells@[k]).changes.wf(),
                forall|k: int, kind: ChangeKind, s: int| 0 <= k < c && 0 <= s <= slot ==> #[trigger] cell_tick(self.cells@[k], kind, s) == (if s == slot {
                    ticks@[k].spec_get(kind)
                } else {
                    cell_tick(old_cells[k], kind, s)
                }),
            decreases n - c,
        {
            let v = vals.remove(0);
            let t = ticks[c];
            proof {
                assert(self.cells@[c as int] == old_cells[c as int]);
                assert(old(self).cells@[c as int].changes.wf());
            }
            let cell = &mut self.cells[c];
            cell.data.push(v);
            set_slot_tick(&mut cell.changes.modified, slot, t.modified);
            set_slot_tick(&mut cell.changes.added, slot, t.added);
            set_slot_tick(&mut cell.changes.removed, slot, t.removed);
            proof {
                assert(vals@ =~= vals0.subrange(c + 1, n as int));
            }
            c += 1;
        }
        self.entities.push(entity);
    }

    /// Replaces the value of component `c` in `slot`, returning the previous value.
    pub fn replace_value(&mut self, c: usize, slot: Slot, value: V) -> (r: V)
        requires
            old(self).wf(),
            c < old(self).components@.len(),
            slot < old(self).entities@.len(),
        ensures
            final(self).wf(),
            r == old(self).cells@[c as int].data@[slot as int],
            final(self).components == old(self).components,
            final(self).entities == old(self).entities,
            final(self).cells@.len() == old(self).cells@.len(),
            final(self).cells@[c as int].data@ == old(self).cells@[c as int].data@.update(slot as int, value),
            final(self).cells@[c as int].changes == old(self).cells@[c as int].changes,
            forall|k: int| 0 <= k < final(self).cells@.len() && k != c ==> #[trigger] final(self).cells@[k] == old(self).cells@[k],
    {
        proof {
            assert(old(self).cells@[c as int].data@.len() == old(self).entities@.len());
        }
        let cell = &mut self.cells[c];
        let mut v = value;
        std::mem::swap(&mut v, &mut cell.data[slot]);
        v
    }

    /// Records that component `c` of `slot` changed in the given way at `tick`.
    pub fn mark(&mut self, c: usize, kind: ChangeKind, slot: Slot, tick: u32)
        requires
            old(self).wf(),
            c < old(self).components@.len(),
            slot < usize::MAX,
        ensures
            final(self).wf(),
            final(self).components == old(self).components,
            final(self).entities == old(self).entities,
            final(self).cells@.len() == old(self).cells@.len(),
            final(self).cells@[c as int].data == old(self).cells@[c as int].data,
            forall|k: ChangeKind, s: int| #[trigger] cell_tick(final(self).cells@[c as int], k, s) == (if k == kind && s == slot {
                Some(tick)
            } else {
                cell_tick(old(self).cells@[c as int], k, s)
            }),
            forall|k: int| 0 <= k < final(self).cells@.len() && k != c ==> #[trigger] final(self).cells@[k] == old(self).cells@[k],
    {
        proof {
            assert(old(self).cells@[c as int].changes.wf());
        }
        let cell = &mut self.cells[c];
        cell.changes.set(kind, Change::new(Slice::single(slot), tick));
    }

    /// The changes of a component.
    pub fn changes(&self, key: ComponentKey, kind: ChangeKind) -> (r: Option<&crate::changes::ChangeList>)
        ensures
            r matches Some(l) ==> exists|i: int| 0 <= i < self.components@.len() && self.components@[i] == key && self.cells@.len() == self.components@.len() && *l == self.cells@[i].changes.spec_get(kind),
            r is None ==> !self.components@.contains(key) || self.cells@.len() != self.components@.len(),
    {
        match self.cell(key) {
            Some(c) => Some(c.changes.get(kind)),
            None => None,
        }
    }
}

} // verus!
