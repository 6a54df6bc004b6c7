use vstd::prelude::*;

use crate::archetype::{Archetype, ArchetypeId};
use crate::entity::{ComponentKey, Entity};
use crate::fetch::base::Fetch;
use crate::filter::constant::All;
use crate::filter::iter::{spec_collect, Filtered};
use crate::filter::set::And;
use crate::query::borrow::QueryBorrowState;
use crate::query::planar::{all_slots, arch_batches_ok, chunk_ids, chunk_slots, concat_parts, part_ids, planar_ids, update_state, Chunk, QueryBorrow};
use crate::slice::{Slice, Slot};
use crate::text::{digits, push_digits, push_str, ValueText};
use crate::metadata::{debuggable_key, spec_debuggable_key};
use crate::world::{first_desc, World};

verus! {

/// `a` and `b` joined by a comma, or `b` alone where `a` is empty.
pub open spec fn join(a: Seq<char>, b: Seq<char>) -> Seq<char> {
    if a.len() == 0 {
        b
    } else {
        a + seq![',', ' '] + b
    }
}

/// The text of an entity: its id.
pub open spec fn entity_text(e: Entity) -> Seq<char> {
    digits(e.id as nat)
}

/// The name of a component: that of its registered description, or a question mark.
pub open spec fn comp_name<V>(world: World<V>, key: ComponentKey) -> Seq<char> {
    match first_desc(world.descs@, key.id) {
        Some(d) => d.name@,
        None => seq!['?'],
    }
}

/// Whether the component whose entity is `id` carries the debuggable metadata component.
pub open spec fn is_debuggable<V>(world: World<V>, id: Entity) -> bool {
    world.value_of(id, spec_debuggable_key()) is Some
}

/// The text of one component of the entity in `slot`: its name, then its value where the
/// component is debuggable, or `...` where it is not.
pub open spec fn row_item<V: ValueText>(world: World<V>, arch: Archetype<V>, slot: int, c: int) -> Seq<char> {
    comp_name(world, arch.components@[c]) + seq![':', ' '] + if is_debuggable(world, arch.components@[c].id) {
        arch.cells@[c].data@[slot].spec_text()
    } else {
        seq!['.', '.', '.']
    }
}

/// The texts of the first `k` components of the entity in `slot`, joined.
pub open spec fn row_items<V: ValueText>(world: World<V>, arch: Archetype<V>, slot: int, k: nat) -> Seq<char>
    decreases k,
{
    if k == 0 {
        Seq::empty()
    } else {
        join(row_items(world, arch, slot, (k - 1) as nat), row_item(world, arch, slot, k - 1))
    }
}

/// The text of the components of the entity in `slot`: `{name: value, ...}`.
pub open spec fn row_text<V: ValueText>(world: World<V>, arch: Archetype<V>, slot: int) -> Seq<char> {
    seq!['{'] + row_items(world, arch, slot, arch.components@.len()) + seq!['}']
}

/// The text of an entity and its components: `id: {name: value, ...}`.
pub open spec fn entry_text<V: ValueText>(world: World<V>, id: Entity, arch: Archetype<V>, slot: int) -> Seq<char> {
    entity_text(id) + seq![':', ' '] + row_text(world, arch, slot)
}

proof fn lemma_join_nonempty(a: Seq<char>, b: Seq<char>)
    requires
        b.len() > 0,
    ensures
        join(a, b).len() > 0,
{
}

proof fn lemma_digits_nonempty(n: nat)
    ensures
        digits(n).len() > 0,
    decreases n,
{
    if n >= 10 {
        lemma_digits_nonempty(n / 10);
    }
}

/// Appends `{name: value, ...}` for the entity in `slot`.
fn push_row<V: ValueText>(out: &mut String, world: &World<V>, arch: &Archetype<V>, slot: Slot)
    requires
        world.wf(),
        arch.wf(),
        slot < arch.entities@.len(),
    ensures
        final(out)@ == old(out)@ + row_text(*world, *arch, slot as int),
{
    proof {
        reveal_strlit("{");
        reveal_strlit("}");
        reveal_strlit(", ");
        reveal_strlit(": ");
        reveal_strlit("?");
        reveal_strlit("...");
    }
    let ghost start = old(out)@ + seq!['{'];
    push_str(out, "{");
    let mut c: usize = 0;
    while c < arch.components.len()
        invariant
            0 <= c <= arch.components@.len(),
            world.wf(),
            arch.wf(),
            slot < arch.entities@.len(),
            out@ == start + row_items(*world, *arch, slot as int, c as nat),
        decreases arch.components@.len() - c,
    {
        proof {
            reveal_strlit(", ");
            reveal_strlit(": ");
            reveal_strlit("?");
            reveal_strlit("...");
        }
        let ghost before = out@;
        if c > 0 {
            push_str(out, ", ");
        }
        let key = arch.components[c];
        match world.desc_of(key.id) {
            Some(d) => push_str(out, d.name.as_str()),
            None => push_str(out, "?"),
        }
        push_str(out, ": ");
        proof {
            assert(arch.cells@[c as int].data@.len() == arch.entities@.len());
        }
        if world.get(key.id, debuggable_key()).is_ok() {
            arch.cells[c].data[slot].push_text(out);
        } else {
            push_str(out, "...");
        }
        proof {
            let prev = row_items(*world, *arch, slot as int, c as nat);
            let item = row_item(*world, *arch, slot as int, c as int);
            if c == 0 {
                assert(out@ =~= start + item);
            } else {
                lemma_nonempty_items(*world, *arch, slot as int, c as nat);
                assert(out@ =~= start + (prev + seq![',', ' '] + item));
            }
        }
        c += 1;
    }
    push_str(out, "}");
    assert(out@ =~= old(out)@ + row_text(*world, *arch, slot as int));
}

proof fn lemma_nonempty_items<V: ValueText>(world: World<V>, arch: Archetype<V>, slot: int, k: nat)
    requires
        k > 0,
    ensures
        row_items(world, arch, slot, k).len() > 0,
{
    let item = row_item(world, arch, slot, k - 1);
    assert(item.len() >= 2) by {
        let n = comp_name(world, arch.components@[k - 1]);
        let v = if is_debuggable(world, arch.components@[k - 1].id) {
            arch.cells@[k - 1].data@[slot].spec_text()
        } else {
            seq!['.', '.', '.']
        };
        assert(item == n + seq![':', ' '] + v);
    }
    lemma_join_nonempty(row_items(world, arch, slot, (k - 1) as nat), item);
}

/// Formats the components of one entity of an archetype.
pub struct RowValueFormatter<'a, V> {
    pub world: &'a World<V>,
    pub arch: &'a Archetype<V>,
    pub slot: Slot,
}

impl<'a, V: ValueText> RowValueFormatter<'a, V> {
    /// `{name: value, ...}`.
    pub fn fmt(&self) -> (r: String)
        requires
            self.world.wf(),
            self.arch.wf(),
            self.slot < self.arch.entities@.len(),
        ensures
            r@ == row_text(*self.world, *self.arch, self.slot as int),
    {
        let mut out = String::new();
        push_row(&mut out, self.world, self.arch, self.slot);
        assert(out@ =~= row_text(*self.world, *self.arch, self.slot as int));
        out
    }
}

/// Formats one entity: `{id: {name: value, ...}}`.
pub struct EntityFormatter<'a, V> {
    pub world: &'a World<V>,
    pub arch: &'a Archetype<V>,
    pub slot: Slot,
    pub id: Entity,
}

impl<'a, V: ValueText> EntityFormatter<'a, V> {
    /// `{id: {name: value, ...}}`.
    pub fn fmt(&self) -> (r: String)
        requires
            self.world.wf(),
            self.arch.wf(),
            self.slot < self.arch.entities@.len(),
        ensures
            r@ == seq!['{'] + entry_text(*self.world, self.id, *self.arch, self.slot as int) + seq!['}'],
    {
        proof {
            reveal_strlit("{");
            reveal_strlit("}");
            reveal_strlit(": ");
        }
        let mut out = String::new();
        push_str(&mut out, "{");
        push_digits(&mut out, self.id.id as u64);
        push_str(&mut out, ": ");
        push_row(&mut out, self.world, self.arch, self.slot);
        push_str(&mut out, "}");
        assert(out@ =~= seq!['{'] + entry_text(*self.world, self.id, *self.arch, self.slot as int) + seq!['}']);
        out
    }
}

/// The entries of the first `k` ids which exist, joined; ids that do not exist are skipped.
pub open spec fn entities_body<V: ValueText>(world: World<V>, ids: Seq<Entity>, k: nat) -> Seq<char>
    decreases k,
{
    if k == 0 {
        Seq::empty()
    } else {
        let prev = entities_body(world, ids, (k - 1) as nat);
        let id = ids[k - 1];
        if !world.alive(id) {
            prev
        } else {
            let l = world.loc_of(id);
            join(prev, entry_text(world, id, world.archetypes@[l.arch_id as int], l.slot as int))
        }
    }
}

/// Formats the given entities: `{id: {name: value, ...}, ...}`.
pub struct EntitiesFormatter<'a, V> {
    pub world: &'a World<V>,
    pub ids: &'a [Entity],
}

impl<'a, V: ValueText> EntitiesFormatter<'a, V> {
    /// `{id: {name: value, ...}, ...}` for the ids which exist, in order.
    pub fn fmt(&self) -> (r: String)
        requires
            self.world.wf(),
        ensures
            r@ == seq!['{'] + entities_body(*self.world, self.ids@, self.ids@.len()) + seq!['}'],
    {
        proof {
            reveal_strlit("{");
            reveal_strlit("}");
            reveal_strlit(", ");
            reveal_strlit(": ");
        }
        let mut out = String::new();
        push_str(&mut out, "{");
        let mut any = false;
        let mut i: usize = 0;
        while i < self.ids.len()
            invariant
                0 <= i <= self.ids@.len(),
                self.world.wf(),
                out@ == seq!['{'] + entities_body(*self.world, self.ids@, i as nat),
                any == (entities_body(*self.world, self.ids@, i as nat).len() > 0),
            decreases self.ids@.len() - i,
        {
            proof {
                reveal_strlit(", ");
                reveal_strlit(": ");
            }
            let id = self.ids[i];
            let ghost prev = entities_body(*self.world, self.ids@, i as nat);
            match self.world.location(id) {
                Ok(loc) => {
                    let arch = self.world.archetype(loc.arch_id);
                    proof {
                        assert(self.world.archetypes@[loc.arch_id as int].wf());
                    }
                    if any {
                        push_str(&mut out, ", ");
                    }
                    push_digits(&mut out, id.id as u64);
                    push_str(&mut out, ": ");
                    push_row(&mut out, self.world, arch, loc.slot);
                    proof {
                        let e = entry_text(*self.world, id, *arch, loc.slot as int);
                        lemma_digits_nonempty(id.id as nat);
                        lemma_join_nonempty(prev, e);
                        if prev.len() == 0 {
                            assert(out@ =~= seq!['{'] + e);
                        } else {
                            assert(out@ =~= seq!['{'] + (prev + seq![',', ' '] + e));
                        }
                    }
                    any = true;
                },
                Err(_) => {},
            }
            i += 1;
        }
        push_str(&mut out, "}");
        out
    }
}


/// The key of the relation from a child to `parent`.
pub open spec fn relation_key(relation: Entity, parent: Entity) -> ComponentKey {
    ComponentKey { id: relation, target: Some(parent) }
}

/// The text of an entity and the hierarchy below it, down to `depth` levels:
/// `{components: {...}, children: {id: {...}, ...}}`.
pub open spec fn hier_text<V: ValueText>(world: World<V>, id: Entity, arch: Archetype<V>, slot: int, relation: Entity, depth: nat) -> Seq<char>
    decreases depth, 3nat, 0nat, 0nat,
{
    seq!['{'] + components_label() + row_text(world, arch, slot) + children_label() + children_text(world, relation_key(relation, id), depth)
        + seq!['}']
}

/// `components: `.
pub open spec fn components_label() -> Seq<char> {
    seq!['c', 'o', 'm', 'p', 'o', 'n', 'e', 'n', 't', 's', ':', ' ']
}

/// `, children: `.
pub open spec fn children_label() -> Seq<char> {
    seq![',', ' ', 'c', 'h', 'i', 'l', 'd', 'r', 'e', 'n', ':', ' ']
}

/// The text of the entities holding the relation `key` and of the hierarchies below them.
pub open spec fn children_text<V: ValueText>(world: World<V>, key: ComponentKey, depth: nat) -> Seq<char>
    decreases depth, 2nat, 0nat, 0nat,
{
    seq!['{'] + children_body(world, key, depth, world.archetypes@.len()) + seq!['}']
}

/// The entries of the children found in the first `a` archetypes, joined.
pub open spec fn children_body<V: ValueText>(world: World<V>, key: ComponentKey, depth: nat, a: nat) -> Seq<char>
    decreases depth, 1nat, a, 0nat,
{
    if a == 0 || depth == 0 {
        Seq::empty()
    } else {
        let prev = children_body(world, key, depth, (a - 1) as nat);
        let arch = world.archetypes@[a - 1];
        if arch.components@.contains(key) {
            arch_children(world, key, depth, a - 1, prev, arch.entities@.len())
        } else {
            prev
        }
    }
}

/// `prev` followed by the entries of the first `s` entities of the archetype, joined.
pub open spec fn arch_children<V: ValueText>(world: World<V>, key: ComponentKey, depth: nat, arch_id: int, prev: Seq<char>, s: nat) -> Seq<char>
    decreases depth, 0nat, 0nat, s,
{
    if s == 0 || depth == 0 {
        prev
    } else {
        let p = arch_children(world, key, depth, arch_id, prev, (s - 1) as nat);
        let arch = world.archetypes@[arch_id];
        let e = arch.entities@[s - 1];
        join(p, entity_text(e) + seq![':', ' '] + hier_text(world, e, arch, s - 1, key.id, (depth - 1) as nat))
    }
}

/// Appends the hierarchy below the entity `id` of `arch` in `slot`.
fn push_hierarchy<V: ValueText>(out: &mut String, world: &World<V>, id: Entity, arch: &Archetype<V>, slot: Slot, relation: Entity, depth: usize)
    requires
        world.wf(),
        arch.wf(),
        slot < arch.entities@.len(),
    ensures
        final(out)@ == old(out)@ + hier_text(*world, id, *arch, slot as int, relation, depth as nat),
    decreases depth, 3nat, 0nat, 0nat,
{
    proof {
        reveal_strlit("{");
        reveal_strlit("}");
        reveal_strlit("components: ");
        reveal_strlit(", children: ");
    }
    push_str(out, "{");
    push_str(out, "components: ");
    push_row(out, world, arch, slot);
    push_str(out, ", children: ");
    push_children(out, world, ComponentKey::new(relation, Some(id)), depth);
    push_str(out, "}");
    assert(out@ =~= old(out)@ + hier_text(*world, id, *arch, slot as int, relation, depth as nat));
}

/// Appends the children holding the relation `key`, each with the hierarchy below it.
fn push_children<V: ValueText>(out: &mut String, world: &World<V>, key: ComponentKey, depth: usize)
    requires
        world.wf(),
    ensures
        final(out)@ == old(out)@ + children_text(*world, key, depth as nat),
    decreases depth, 2nat, 0nat, 0nat,
{
    proof {
        reveal_strlit("{");
        reveal_strlit("}");
    }
    push_str(out, "{");
    let ghost start = old(out)@ + seq!['{'];
    if depth > 0 {
        let mut any = false;
        let mut a: usize = 0;
        while a < world.archetypes.len()
            invariant
                0 <= a <= world.archetypes@.len(),
                depth > 0,
                world.wf(),
                out@ == start + children_body(*world, key, depth as nat, a as nat),
                any == (children_body(*world, key, depth as nat, a as nat).len() > 0),
            decreases world.archetypes@.len() - a,
        {
            let arch = &world.archetypes[a];
            proof {
                assert(world.archetypes@[a as int].wf());
            }
            if arch.has(key) {
                let ghost prev = children_body(*world, key, depth as nat, a as nat);
                let mut s: usize = 0;
                while s < arch.entities.len()
                    invariant
                        0 <= s <= arch.entities@.len(),
                        depth > 0,
                        world.wf(),
                        a < world.archetypes@.len(),
                        *arch == world.archetypes@[a as int],
                        arch.wf(),
                        out@ == start + arch_children(*world, key, depth as nat, a as int, prev, s as nat),
                        any == (arch_children(*world, key, depth as nat, a as int, prev, s as nat).len() > 0),
                    decreases arch.entities@.len() - s,
                {
                    proof {
                        reveal_strlit(", ");
                        reveal_strlit(": ");
                    }
                    let e = arch.entities[s];
                    let ghost p = arch_children(*world, key, depth as nat, a as int, prev, s as nat);
                    if any {
                        push_str(out, ", ");
                    }
                    push_digits(out, e.id as u64);
                    push_str(out, ": ");
                    push_hierarchy(out, world, e, arch, s, key.id, depth - 1);
                    proof {
                        let entry = entity_text(e) + seq![':', ' '] + hier_text(*world, e, *arch, s as int, key.id, (depth - 1) as nat);
                        lemma_digits_nonempty(e.id as nat);
                        lemma_join_nonempty(p, entry);
                        if p.len() == 0 {
                            assert(out@ =~= start + entry);
                        } else {
                            assert(out@ =~= start + (p + seq![',', ' '] + entry));
                        }
                    }
                    any = true;
                    s += 1;
                }
            }
            a += 1;
        }
    }
    push_str(out, "}");
    assert(out@ =~= old(out)@ + children_text(*world, key, depth as nat));
}

/// Formats the hierarchy below an entity: `{components: {...}, children: {...}}`, following
/// the relation from children to parents.
pub struct HierarchyFormatter<'a, V> {
    pub world: &'a World<V>,
    pub id: Entity,
    pub slot: Slot,
    pub arch: &'a Archetype<V>,
    pub relation: Entity,
}

impl<'a, V: ValueText> HierarchyFormatter<'a, V> {
    /// Formats the hierarchy below `root`; `None` where `root` does not exist.
    pub fn new(world: &'a World<V>, relation: Entity, root: Entity) -> (r: Option<HierarchyFormatter<'a, V>>)
        requires
            world.wf(),
        ensures
            r is Some <==> world.alive(root),
            r matches Some(h) ==> h.world == world && h.id == root && h.relation == relation && h.slot == world.loc_of(root).slot
                && *h.arch == world.archetypes@[world.loc_of(root).arch_id as int],
    {
        match world.location(root) {
            Ok(loc) => Some(HierarchyFormatter { world, id: root, slot: loc.slot, arch: world.archetype(loc.arch_id), relation }),
            Err(_) => None,
        }
    }

    /// The hierarchy, followed as deep as there are entity ids.
    pub fn fmt(&self) -> (r: String)
        requires
            self.world.wf(),
            self.arch.wf(),
            self.slot < self.arch.entities@.len(),
        ensures
            r@ == hier_text(*self.world, self.id, *self.arch, self.slot as int, self.relation, self.world.locations@.len()),
    {
        let mut out = String::new();
        push_hierarchy(&mut out, self.world, self.id, self.arch, self.slot, self.relation, self.world.locations.len());
        assert(out@ =~= hier_text(*self.world, self.id, *self.arch, self.slot as int, self.relation, self.world.locations@.len()));
        out
    }
}

/// Formats the entities holding a relation and the hierarchies below them.
pub struct ChildrenFormatter<'a, V> {
    pub world: &'a World<V>,
    pub relation: ComponentKey,
}

impl<'a, V: ValueText> ChildrenFormatter<'a, V> {
    /// `{id: {components: {...}, children: {...}}, ...}`.
    pub fn fmt(&self) -> (r: String)
        requires
            self.world.wf(),
        ensures
            r@ == children_text(*self.world, self.relation, self.world.locations@.len()),
    {
        let mut out = String::new();
        push_children(&mut out, self.world, self.relation, self.world.locations.len());
        assert(out@ =~= children_text(*self.world, self.relation, self.world.locations@.len()));
        out
    }
}


/// `prev` followed by the entries of the first `n` slots of the batch, joined.
pub open spec fn batch_entries<'w, V: ValueText>(world: World<V>, c: Chunk<'w, V>, prev: Seq<char>, n: nat) -> Seq<char>
    decreases n,
{
    if n == 0 {
        prev
    } else {
        let p = batch_entries(world, c, prev, (n - 1) as nat);
        let slot = c.slots.start + n - 1;
        join(p, entry_text(world, c.arch.entities@[slot], *c.arch, slot))
    }
}

/// The entries of every slot of the first `k` batches, joined.
pub open spec fn batches_body<'w, V: ValueText>(world: World<V>, chunks: Seq<Chunk<'w, V>>, k: nat) -> Seq<char>
    decreases k,
{
    if k == 0 {
        Seq::empty()
    } else {
        let c = chunks[k - 1];
        batch_entries(world, c, batches_body(world, chunks, (k - 1) as nat), (c.slots.end - c.slots.start) as nat)
    }
}

/// Formats the entities matched by a filter, including those describing components:
/// `{id: {name: value, ...}, ...}`.
pub struct WorldFormatter<'a, F, V> {
    pub world: &'a World<V>,
    pub filter: Filtered<(), And<All, F>>,
}

impl<'a, F: Fetch<'a, V>, V: ValueText + 'a> WorldFormatter<'a, F, V> {
    /// Formats the entities of `world` which `filter` matches.
    pub fn new(world: &'a World<V>, filter: F) -> (r: WorldFormatter<'a, F, V>)
        ensures
            r.world == world,
            r.filter == (Filtered { fetch: (), filter: And(All, filter), include_components: true }),
    {
        WorldFormatter { world, filter: Filtered::new((), And::new(All, filter), true) }
    }

    /// The entities in the order the filter yields them: archetype after archetype, batch after
    /// batch.
    pub fn fmt(&'a self) -> (r: String)
        requires
            self.world.wf(),
            self.filter.spec_valid(),
            forall|id: usize, p: Filtered<(), And<All, F::Prepared>>|
                id < self.world.archetypes@.len() && #[trigger] self.filter.spec_prepared(
                    crate::query::borrow::prepare_data(self.world, id, 0, self.world.change_tick),
                    p,
                ) ==> spec_collect(p, all_slots(self.world.archetypes@[id as int])).0,
        ensures
            exists|ids: Seq<ArchetypeId>, chunks: Seq<Chunk<'a, V>>, parts: Seq<Seq<Slice>>| {
                &&& (self.world.archetype_gen > 0 ==> planar_ids(self.world, self.filter, ids))
                &&& (self.world.archetype_gen == 0 ==> ids.len() == 0)
                &&& parts.len() == ids.len()
                &&& (forall|i: int| 0 <= i < parts.len() ==> arch_batches_ok(
                    QueryBorrowState { old_tick: 0, new_tick: self.world.change_tick, world: self.world, fetch: &self.filter },
                    ids[i],
                    #[trigger] parts[i],
                ))
                &&& chunk_slots(chunks) == concat_parts(parts)
                &&& chunk_ids(chunks) == part_ids(ids, parts)
                &&& (forall|k: int| 0 <= k < chunks.len() ==> (#[trigger] chunks[k]).arch_id < self.world.archetypes@.len()
                    && *chunks[k].arch == self.world.archetypes@[chunks[k].arch_id as int])
                &&& r@ == seq!['{'] + batches_body(*self.world, chunks, chunks.len()) + seq!['}']
            },
    {
        let world: &'a World<V> = self.world;
        let mut ids: Vec<ArchetypeId> = Vec::new();
        if world.archetype_gen() > 0 {
            update_state(world, &self.filter, &mut ids);
        }
        let state = QueryBorrowState { old_tick: 0, new_tick: world.change_tick(), world, fetch: &self.filter };
        let mut borrow = QueryBorrow { archetypes: ids, state };
        proof {
            assert forall|i: int, p: Filtered<(), And<All, F::Prepared>>|
                0 <= i < borrow.archetypes@.len() && #[trigger] borrow.state.fetch.spec_prepared(borrow.state.data_for(borrow.archetypes@[i]), p)
                implies spec_collect(p, all_slots(borrow.state.world.archetypes@[borrow.archetypes@[i] as int])).0 by {
                let id = borrow.archetypes@[i];
                assert(self.filter.spec_prepared(crate::query::borrow::prepare_data(self.world, id, 0, self.world.change_tick), p));
            }
        }
        let batches = borrow.iter_batched();
        let chunks = batches.chunks;
        proof {
            assert forall|j: int| 0 <= j < chunks@.len() implies (#[trigger] chunks@[j]).arch.wf() by {
                assert(world.archetypes@[chunks@[j].arch_id as int].wf());
            }
            reveal_strlit("{");
            reveal_strlit("}");
        }
        let mut out = String::new();
        push_str(&mut out, "{");
        let mut any = false;
        let mut k: usize = 0;
        while k < chunks.len()
            invariant
                0 <= k <= chunks@.len(),
                world.wf(),
                forall|j: int| 0 <= j < chunks@.len() ==> (#[trigger] chunks@[j]).arch.wf() && chunks@[j].slots.wf()
                    && chunks@[j].slots.end <= chunks@[j].arch.entities@.len(),
                out@ == seq!['{'] + batches_body(*world, chunks@, k as nat),
                any == (batches_body(*world, chunks@, k as nat).len() > 0),
            decreases chunks@.len() - k,
        {
            let c = &chunks[k];
            let ghost prev = batches_body(*world, chunks@, k as nat);
            let mut s = c.slots.start;
            while s < c.slots.end
                invariant
                    c.slots.start <= s <= c.slots.end,
                    world.wf(),
                    c.arch.wf(),
                    c.slots.end <= c.arch.entities@.len(),
                    out@ == seq!['{'] + batch_entries(*world, *c, prev, (s - c.slots.start) as nat),
                    any == (batch_entries(*world, *c, prev, (s - c.slots.start) as nat).len() > 0),
                decreases c.slots.end - s,
            {
                proof {
                    reveal_strlit(", ");
                    reveal_strlit(": ");
                }
                let ghost p = batch_entries(*world, *c, prev, (s - c.slots.start) as nat);
                let e = c.arch.entities[s];
                if any {
                    push_str(&mut out, ", ");
                }
                push_digits(&mut out, e.id as u64);
                push_str(&mut out, ": ");
                push_row(&mut out, world, c.arch, s);
                proof {
                    let entry = entry_text(*world, e, *c.arch, s as int);
                    lemma_digits_nonempty(e.id as nat);
                    lemma_join_nonempty(p, entry);
                    assert(batch_entries(*world, *c, prev, (s + 1 - c.slots.start) as nat) == join(p, entry));
                    if p.len() == 0 {
                        assert(out@ =~= seq!['{'] + entry);
                    } else {
                        assert(out@ =~= seq!['{'] + (p + seq![',', ' '] + entry));
                    }
                }
                any = true;
                s += 1;
            }
            k += 1;
        }
        push_str(&mut out, "}");
        out
    }
}

} // verus!
