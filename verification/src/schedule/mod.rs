pub mod access;
pub mod query_access;
pub mod topo;

use vstd::prelude::*;

use crate::schedule::access::{build_dependencies, conflicts, system_deps, Access, AccessKind};
use crate::schedule::query_access::{push_queries, queries_access, SystemQuery};
use crate::schedule::topo::{bucket, depth, flat_items, num_batches, topo_sort};
use crate::archetype::Archetype;
use crate::world::World;
use crate::entity::ComponentKey;
use crate::text::{digits, push_digits, push_str};

verus! {

/// A system as the schedule sees it: its name, what it always accesses, and its queries, whose
/// accesses depend on the archetypes of the world.
#[derive(Debug, Clone)]
pub struct BoxedSystem {
    pub name: String,
    pub access: Vec<Access>,
    pub queries: Vec<SystemQuery>,
}

/// The accesses of a system in a world with the archetypes `archs`: what it always accesses,
/// then the accesses of its queries.
pub open spec fn system_access<V>(s: BoxedSystem, archs: Seq<Archetype<V>>) -> Seq<Access> {
    s.access@ + queries_access(s.queries@, archs)
}

/// The text of a component key: its id, and its target after a colon where it has one.
pub open spec fn key_text(k: ComponentKey) -> Seq<char> {
    digits(k.id.id as nat) + match k.target {
        Some(t) => ":"@ + digits(t.id as nat),
        None => Seq::empty(),
    }
}

/// The text of what an access reaches.
pub open spec fn kind_text(kind: AccessKind) -> Seq<char> {
    match kind {
        AccessKind::Archetype { id, component } => "archetype "@ + digits(id as nat) + " "@ + key_text(component),
        AccessKind::ChangeEvent { id, component } => "change event "@ + digits(id as nat) + " "@ + key_text(component),
        AccessKind::World => "world"@,
        AccessKind::CommandBuffer => "command buffer"@,
        AccessKind::External(n) => "external "@ + digits(n as nat),
        AccessKind::Input(n) => "input "@ + digits(n as nat),
    }
}

/// The text of an access: whether it writes or reads, and what it reaches.
pub open spec fn access_text(a: Access) -> Seq<char> {
    (if a.mutable {
        "write "@
    } else {
        "read "@
    }) + kind_text(a.kind)
}

/// The texts of the accesses, separated by commas.
pub open spec fn accesses_text(s: Seq<Access>) -> Seq<char>
    decreases s.len(),
{
    if s.len() == 0 {
        Seq::empty()
    } else if s.len() == 1 {
        access_text(s[0])
    } else {
        accesses_text(s.drop_last()) + ", "@ + access_text(s.last())
    }
}

/// The description of a system: its name, then its accesses in brackets.
pub open spec fn system_text(s: BoxedSystem) -> Seq<char> {
    s.name@ + " ["@ + accesses_text(s.access@) + "]"@
}

/// Appends the text of a component key.
fn push_key(out: &mut String, k: ComponentKey)
    ensures
        final(out)@ == old(out)@ + key_text(k),
{
    push_digits(out, k.id.id as u64);
    match k.target {
        Some(t) => {
            push_str(out, ":");
            push_digits(out, t.id as u64);
        },
        None => {},
    }
    assert(final(out)@ =~= old(out)@ + key_text(k));
}

/// Appends the text of an access.
fn push_access(out: &mut String, a: Access)
    ensures
        final(out)@ == old(out)@ + access_text(a),
{
    if a.mutable {
        push_str(out, "write ");
    } else {
        push_str(out, "read ");
    }
    let ghost mid = out@;
    match a.kind {
        AccessKind::Archetype { id, component } => {
            push_str(out, "archetype ");
            push_digits(out, id as u64);
            push_str(out, " ");
            push_key(out, component);
        },
        AccessKind::ChangeEvent { id, component } => {
            push_str(out, "change event ");
            push_digits(out, id as u64);
            push_str(out, " ");
            push_key(out, component);
        },
        AccessKind::World => {
            push_str(out, "world");
        },
        AccessKind::CommandBuffer => {
            push_str(out, "command buffer");
        },
        AccessKind::External(n) => {
            push_str(out, "external ");
            push_digits(out, n);
        },
        AccessKind::Input(n) => {
            push_str(out, "input ");
            push_digits(out, n);
        },
    }
    assert(out@ =~= mid + kind_text(a.kind));
    assert(final(out)@ =~= old(out)@ + access_text(a));
}

impl BoxedSystem {
    /// Describes a system by its name and accesses.
    pub fn new(name: String, access: Vec<Access>) -> (r: BoxedSystem)
        ensures
            r.name == name,
            r.access == access,
            r.queries@.len() == 0,
    {
        BoxedSystem { name, access, queries: Vec::new() }
    }

    /// Adds a query to the system.
    pub fn with_query(self, query: SystemQuery) -> (r: BoxedSystem)
        ensures
            r.name == self.name,
            r.access == self.access,
            r.queries@ == self.queries@.push(query),
    {
        let mut s = self;
        s.queries.push(query);
        s
    }

    /// The accesses of the system in `world`.
    pub fn access_in<V>(&self, world: &World<V>) -> (r: Vec<Access>)
        ensures
            r@ == system_access(*self, world.archetypes@),
    {
        let mut out = self.access.clone();
        assert(out@ == self.access@);
        push_queries(&self.queries, &world.archetypes, &mut out);
        out
    }

    /// The system's name.
    pub fn name(&self) -> (r: &str)
        ensures
            r@ == self.name@,
    {
        self.name.as_str()
    }

    /// Describes the system: its name, then its accesses in brackets.
    pub fn describe(&self) -> (r: String)
        ensures
            r@ == system_text(*self),
    {
        let mut out = String::new();
        push_str(&mut out, self.name.as_str());
        push_str(&mut out, " [");
        let mut i: usize = 0;
        while i < self.access.len()
            invariant
                0 <= i <= self.access@.len(),
                out@ == self.name@ + " ["@ + accesses_text(self.access@.take(i as int)),
            decreases self.access@.len() - i,
        {
            let ghost before = out@;
            proof {
                assert(self.access@.take(i + 1).drop_last() =~= self.access@.take(i as int));
                assert(self.access@.take(i + 1).last() == self.access@[i as int]);
            }
            if i > 0 {
                push_str(&mut out, ", ");
            }
            push_access(&mut out, self.access[i]);
            proof {
                if i == 0 {
                    assert(self.access@.take(0) =~= Seq::<Access>::empty());
                    assert(out@ =~= self.name@ + " ["@ + accesses_text(self.access@.take(1)));
                } else {
                    assert(out@ =~= self.name@ + " ["@ + accesses_text(self.access@.take(i + 1)));
                }
            }
            i += 1;
        }
        push_str(&mut out, "]");
        assert(self.access@.take(i as int) =~= self.access@);
        assert(out@ =~= system_text(*self));
        out
    }
}

/// The system which applies the command buffer to the world: named "flush", with exclusive
/// access to the world and the command buffer.
pub open spec fn is_flush_system(s: BoxedSystem) -> bool {
    &&& s.name@ == "flush"@
    &&& s.access@ == seq![
        Access { kind: AccessKind::World, mutable: true },
        Access { kind: AccessKind::CommandBuffer, mutable: true },
    ]
}

/// The system which applies the command buffer to the world.
pub fn flush_system() -> (r: BoxedSystem)
    ensures
        is_flush_system(r),
{
    let mut access: Vec<Access> = Vec::new();
    access.push(Access { kind: AccessKind::World, mutable: true });
    access.push(Access { kind: AccessKind::CommandBuffer, mutable: true });
    let name = String::from_str("flush");
    assert(access@ =~= seq![
        Access { kind: AccessKind::World, mutable: true },
        Access { kind: AccessKind::CommandBuffer, mutable: true },
    ]);
    BoxedSystem { name, access, queries: Vec::new() }
}

/// The accesses of the systems in a world with the archetypes `archs`, in schedule order.
pub open spec fn system_accesses<V>(systems: Seq<Vec<BoxedSystem>>, archs: Seq<Archetype<V>>) -> Seq<Seq<Access>> {
    flat_items(systems).map_values(|s: BoxedSystem| system_access(s, archs))
}

/// `batches` are the systems of `systems` regrouped into batches: each system lands in the batch
/// of its depth in the dependencies between the systems (a later system depends on an earlier
/// one it conflicts with), in schedule order within a batch.
pub open spec fn batches_of<V>(systems: Seq<Vec<BoxedSystem>>, archs: Seq<Archetype<V>>, batches: Seq<Vec<BoxedSystem>>) -> bool {
    exists|deps: Map<usize, Vec<usize>>| {
        &&& forall|i: usize| #[trigger] deps.contains_key(i) <==> i < flat_items(systems).len()
        &&& forall|i: usize| i < flat_items(systems).len() ==> (#[trigger] deps[i])@ == system_deps(system_accesses(systems, archs), i as int)
        &&& batches.len() == num_batches(deps, flat_items(systems).len() as int)
        &&& forall|d: int| 0 <= d < batches.len() ==> (#[trigger] batches[d])@ == bucket(flat_items(systems), deps, d as nat, flat_items(systems).len() as int)
    }
}

/// Incrementally constructs a schedule.
#[derive(Debug)]
pub struct ScheduleBuilder {
    pub systems: Vec<BoxedSystem>,
}

impl ScheduleBuilder {
    /// Creates an empty builder.
    pub fn new() -> (r: ScheduleBuilder)
        ensures
            r.systems@.len() == 0,
    {
        ScheduleBuilder { systems: Vec::new() }
    }

    /// Adds a system.
    pub fn with_system(&mut self, system: BoxedSystem) -> (r: &mut ScheduleBuilder)
        ensures
            (*r).systems@ == old(self).systems@.push(system),
            *final(self) == *final(r),
    {
        self.systems.push(system);
        self
    }

    /// Adds a system that applies the command buffer to the world.
    pub fn flush(&mut self) -> (r: &mut ScheduleBuilder)
        ensures
            (*r).systems@.len() == old(self).systems@.len() + 1,
            (*r).systems@.drop_last() == old(self).systems@,
            is_flush_system((*r).systems@.last()),
            *final(self) == *final(r),
    {
        let f = flush_system();
        proof {
            assert(self.systems@.push(f).drop_last() =~= self.systems@);
        }
        self.with_system(f)
    }

    /// Builds the schedule, taking the systems out of the builder.
    pub fn build(&mut self) -> (r: Schedule)
        ensures
            r.systems@.len() == 1,
            r.systems@[0]@ == old(self).systems@,
            r.archetype_gen == 0,
            final(self).systems@.len() == 0,
    {
        let mut systems: Vec<BoxedSystem> = Vec::new();
        std::mem::swap(&mut systems, &mut self.systems);
        Schedule::from_systems(systems)
    }
}

/// Diagnostic information about a system.
#[derive(Debug, Clone)]
pub struct SystemInfo {
    pub name: String,
    pub desc: String,
    pub access: Vec<Access>,
}

impl SystemInfo {
    /// A verbose description of the system.
    pub fn desc(&self) -> (r: &str)
        ensures
            r@ == self.desc@,
    {
        self.desc.as_str()
    }

    /// The system's name.
    pub fn name(&self) -> (r: &str)
        ensures
            r@ == self.name@,
    {
        self.name.as_str()
    }

    /// The system's accesses.
    pub fn access(&self) -> (r: &Vec<Access>)
        ensures
            *r == self.access,
    {
        &self.access
    }
}

/// Information about one batch of systems that may run in parallel.
#[derive(Debug, Clone)]
pub struct BatchInfo(pub Vec<SystemInfo>);

/// Information about all batches of a schedule.
#[derive(Debug, Clone)]
pub struct BatchInfos(pub Vec<BatchInfo>);

impl BatchInfos {
    /// The names of the systems of each batch.
    pub fn to_names(&self) -> (r: Vec<Vec<String>>)
        ensures
            r@.len() == self.0@.len(),
            forall|i: int| 0 <= i < r@.len() ==> (#[trigger] r@[i])@.len() == self.0@[i].0@.len(),
            forall|i: int, j: int| 0 <= i < r@.len() && 0 <= j < r@[i]@.len() ==> (#[trigger] r@[i]@[j])@ == self.0@[i].0@[j].name@,
    {
        let mut out: Vec<Vec<String>> = Vec::new();
        let mut i: usize = 0;
        while i < self.0.len()
            invariant
                0 <= i <= self.0@.len(),
                out@.len() == i,
                forall|k: int| 0 <= k < i ==> (#[trigger] out@[k])@.len() == self.0@[k].0@.len(),
                forall|k: int, j: int| 0 <= k < i && 0 <= j < out@[k]@.len() ==> (#[trigger] out@[k]@[j])@ == self.0@[k].0@[j].name@,
            decreases self.0@.len() - i,
        {
            let batch = &self.0[i].0;
            let mut names: Vec<String> = Vec::new();
            let mut j: usize = 0;
            while j < batch.len()
                invariant
                    0 <= j <= batch@.len(),
                    *batch == self.0@[i as int].0,
                    names@.len() == j,
                    forall|k: int| 0 <= k < j ==> (#[trigger] names@[k])@ == batch@[k].name@,
                decreases batch@.len() - j,
            {
                names.push(String::from_str(batch[j].name.as_str()));
                j += 1;
            }
            out.push(names);
            i += 1;
        }
        out
    }
}

/// A schedule of systems, partitioned into batches of systems that may run in parallel.
#[derive(Debug)]
pub struct Schedule {
    pub systems: Vec<Vec<BoxedSystem>>,
    pub archetype_gen: u32,
}

impl Schedule {
    /// Creates an empty schedule.
    pub fn new() -> (r: Schedule)
        ensures
            r.systems@.len() == 0,
            r.archetype_gen == 0,
    {
        Schedule { systems: Vec::new(), archetype_gen: 0 }
    }

    /// Creates a schedule builder.
    pub fn builder() -> (r: ScheduleBuilder)
        ensures
            r.systems@.len() == 0,
    {
        ScheduleBuilder::new()
    }

    /// Creates a schedule of one batch from the given systems.
    pub fn from_systems(systems: Vec<BoxedSystem>) -> (r: Schedule)
        ensures
            r.systems@.len() == 1,
            r.systems@[0] == systems,
            r.archetype_gen == 0,
    {
        let mut all: Vec<Vec<BoxedSystem>> = Vec::new();
        all.push(systems);
        Schedule { systems: all, archetype_gen: 0 }
    }

    /// Appends the batches of another schedule.
    pub fn append(&mut self, other: Schedule)
        ensures
            final(self).archetype_gen == 0,
            final(self).systems@ == old(self).systems@ + other.systems@,
    {
        self.archetype_gen = 0;
        let mut other = other;
        self.systems.append(&mut other.systems);
    }

    /// Adds a system after every system of the schedule, to its last batch (to a new batch
    /// where there is none).
    pub fn add_system(&mut self, system: BoxedSystem) -> (r: &mut Schedule)
        ensures
            (*r).archetype_gen == 0,
            flat_items((*r).systems@) == flat_items(old(self).systems@).push(system),
            old(self).systems@.len() == 0 ==> (*r).systems@.len() == 1 && (*r).systems@[0]@ == seq![system],
            old(self).systems@.len() > 0 ==> (*r).systems@.len() == old(self).systems@.len()
                && (*r).systems@.drop_last() == old(self).systems@.drop_last()
                && (*r).systems@.last()@ == old(self).systems@.last()@.push(system),
            *final(self) == *final(r),
    {
        self.archetype_gen = 0;
        let ghost old_systems = self.systems@;
        if self.systems.len() == 0 {
            self.systems.push(Vec::new());
        }
        let ghost before = self.systems@;
        let mut last = self.systems.pop().unwrap();
        last.push(system);
        self.systems.push(last);
        proof {
            let n = self.systems@.len() as int;
            assert(self.systems@.drop_last() =~= before.drop_last());
            lemma_flat_prefix(self.systems@, n - 1);
            assert(self.systems@.subrange(0, n) =~= self.systems@);
            assert(self.systems@.subrange(0, n - 1) =~= before.subrange(0, n - 1));
            lemma_flat_prefix(before, n - 1);
            assert(before.subrange(0, n) =~= before);
            if old_systems.len() == 0 {
                assert(before.subrange(0, n - 1) =~= Seq::<Vec<BoxedSystem>>::empty());
                assert(flat_items(Seq::<Vec<BoxedSystem>>::empty()) =~= Seq::<BoxedSystem>::empty());
                assert(flat_items(old_systems) =~= Seq::<BoxedSystem>::empty());
                assert(flat_items(self.systems@) =~= flat_items(old_systems).push(system));
            } else {
                assert(before == old_systems);
                assert(flat_items(self.systems@) =~= flat_items(old_systems).push(system));
            }
        }
        self
    }

    /// Adds a system after every system of the schedule. See [`Schedule::add_system`].
    pub fn with_system(self, system: BoxedSystem) -> (r: Schedule)
        ensures
            r.archetype_gen == 0,
            flat_items(r.systems@) == flat_items(self.systems@).push(system),
            self.systems@.len() == 0 ==> r.systems@.len() == 1 && r.systems@[0]@ == seq![system],
            self.systems@.len() > 0 ==> r.systems@.len() == self.systems@.len()
                && r.systems@.drop_last() == self.systems@.drop_last()
                && r.systems@.last()@ == self.systems@.last()@.push(system),
    {
        let mut s = self;
        s.add_system(system);
        s
    }

    /// Adds the system that applies the command buffer to the world, after every system of the
    /// schedule.
    pub fn flush(self) -> (r: Schedule)
        ensures
            r.archetype_gen == 0,
            exists|f: BoxedSystem| #[trigger] is_flush_system(f) && flat_items(r.systems@) == flat_items(self.systems@).push(f)
                && (self.systems@.len() == 0 ==> r.systems@.len() == 1 && r.systems@[0]@ == seq![f])
                && (self.systems@.len() > 0 ==> r.systems@.len() == self.systems@.len()
                    && r.systems@.drop_last() == self.systems@.drop_last()
                    && r.systems@.last()@ == self.systems@.last()@.push(f)),
    {
        let f = flush_system();
        let ghost g = f;
        let r = self.with_system(f);
        assert(is_flush_system(g));
        r
    }

    /// Partitions the systems into batches: a system runs in a later batch than every earlier
    /// system it conflicts with.
    pub fn build_dependencies<V>(systems: Vec<Vec<BoxedSystem>>, world: &World<V>) -> (r: Vec<Vec<BoxedSystem>>)
        requires
            flat_items(systems@).len() < u32::MAX,
        ensures
            batches_of(systems@, world.archetypes@, r@),
    {
        let mut accesses: Vec<Vec<Access>> = Vec::new();
        let mut i: usize = 0;
        let ghost flat = flat_items(systems@);
        while i < systems.len()
            invariant
                0 <= i <= systems@.len(),
                flat == flat_items(systems@),
                accesses@.map_values(|v: Vec<Access>| v@) == flat_items(systems@.subrange(0, i as int)).map_values(|s: BoxedSystem| system_access(s, world.archetypes@)),
            decreases systems@.len() - i,
        {
            let batch = &systems[i];
            let mut j: usize = 0;
            let ghost before = accesses@.map_values(|v: Vec<Access>| v@);
            while j < batch.len()
                invariant
                    0 <= j <= batch@.len(),
                    *batch == systems@[i as int],
                    accesses@.map_values(|v: Vec<Access>| v@) == before + batch@.subrange(0, j as int).map_values(|s: BoxedSystem| system_access(s, world.archetypes@)),
                decreases batch@.len() - j,
            {
                let a = batch[j].access_in(world);
                let ghost prev = accesses@;
                accesses.push(a);
                proof {
                    assert(accesses@.map_values(|v: Vec<Access>| v@) =~= prev.map_values(|v: Vec<Access>| v@).push(system_access(batch@[j as int], world.archetypes@)));
                    assert(batch@.subrange(0, j + 1).map_values(|s: BoxedSystem| system_access(s, world.archetypes@)) =~= batch@.subrange(0, j as int).map_values(|s: BoxedSystem| system_access(s, world.archetypes@)).push(system_access(batch@[j as int], world.archetypes@)));
                }
                j += 1;
            }
            proof {
                lemma_flat_prefix(systems@, i as int);
                assert(batch@.subrange(0, j as int) =~= batch@);
                assert(flat_items(systems@.subrange(0, i + 1)).map_values(|s: BoxedSystem| system_access(s, world.archetypes@)) =~= flat_items(systems@.subrange(0, i as int)).map_values(|s: BoxedSystem| system_access(s, world.archetypes@)) + batch@.map_values(|s: BoxedSystem| system_access(s, world.archetypes@)));
            }
            i += 1;
        }
        proof {
            assert(systems@.subrange(0, i as int) =~= systems@);
        }
        let deps = build_dependencies(&accesses);
        proof {
            crate::schedule::access::lemma_built_deps_acyclic(accesses@.map_values(|v: Vec<Access>| v@), deps@);
        }
        let r = topo_sort(systems, &deps);
        r
    }

    /// Rebuilds the batches and describes each system.
    pub fn batch_info<V>(&mut self, world: &World<V>) -> (r: BatchInfos)
        requires
            flat_items(old(self).systems@).len() < u32::MAX,
        ensures
            batches_of(old(self).systems@, world.archetypes@, final(self).systems@),
            final(self).archetype_gen == old(self).archetype_gen,
            r.0@.len() == final(self).systems@.len(),
            forall|i: int| 0 <= i < r.0@.len() ==> (#[trigger] r.0@[i]).0@.len() == final(self).systems@[i]@.len(),
            forall|i: int, j: int| 0 <= i < r.0@.len() && 0 <= j < r.0@[i].0@.len() ==> {
                &&& (#[trigger] r.0@[i].0@[j]).name@ == final(self).systems@[i]@[j].name@
                &&& r.0@[i].0@[j].access@ == system_access(final(self).systems@[i]@[j], world.archetypes@)
                &&& r.0@[i].0@[j].desc@ == system_text(final(self).systems@[i]@[j])
            },
    {
        let mut systems: Vec<Vec<BoxedSystem>> = Vec::new();
        std::mem::swap(&mut systems, &mut self.systems);
        self.systems = Self::build_dependencies(systems, world);
        let mut out: Vec<BatchInfo> = Vec::new();
        let mut i: usize = 0;
        while i < self.systems.len()
            invariant
                0 <= i <= self.systems@.len(),
                out@.len() == i,
                forall|k: int| 0 <= k < i ==> (#[trigger] out@[k]).0@.len() == self.systems@[k]@.len(),
                forall|k: int, j: int| 0 <= k < i && 0 <= j < out@[k].0@.len() ==> {
                    &&& (#[trigger] out@[k].0@[j]).name@ == self.systems@[k]@[j].name@
                    &&& out@[k].0@[j].access@ == system_access(self.systems@[k]@[j], world.archetypes@)
                    &&& out@[k].0@[j].desc@ == system_text(self.systems@[k]@[j])
                },
            decreases self.systems@.len() - i,
        {
            let batch = &self.systems[i];
            let mut infos: Vec<SystemInfo> = Vec::new();
            let mut j: usize = 0;
            while j < batch.len()
                invariant
                    0 <= j <= batch@.len(),
                    *batch == self.systems@[i as int],
                    infos@.len() == j,
                    forall|k: int| 0 <= k < j ==> {
                        &&& (#[trigger] infos@[k]).name@ == batch@[k].name@
                        &&& infos@[k].access@ == system_access(batch@[k], world.archetypes@)
                        &&& infos@[k].desc@ == system_text(batch@[k])
                    },
                decreases batch@.len() - j,
            {
                let system = &batch[j];
                infos.push(
                    SystemInfo {
                        name: String::from_str(system.name.as_str()),
                        desc: system.describe(),
                        access: system.access_in(world),
                    },
                );
                j += 1;
            }
            out.push(BatchInfo(infos));
            i += 1;
        }
        BatchInfos(out)
    }

    /// Rebuilds the batches where the world's archetype generation differs from the one they
    /// were built for, returning whether it did.
    pub fn refresh<V>(&mut self, world: &World<V>) -> (rebuilt: bool)
        requires
            flat_items(old(self).systems@).len() < u32::MAX,
        ensures
            rebuilt == (world.archetype_gen != old(self).archetype_gen),
            rebuilt ==> final(self).archetype_gen == world.archetype_gen && batches_of(old(self).systems@, world.archetypes@, final(self).systems@),
            !rebuilt ==> *final(self) == *old(self),
    {
        let world_gen = world.archetype_gen();
        if self.archetype_gen != world_gen {
            let mut systems: Vec<Vec<BoxedSystem>> = Vec::new();
            std::mem::swap(&mut systems, &mut self.systems);
            self.systems = Self::build_dependencies(systems, world);
            self.archetype_gen = world_gen;
            true
        } else {
            false
        }
    }

    /// Whether the batches still fit the world after a batch ran: its archetype generation is
    /// the one they were built for. Where it is not, the rest is to run sequentially.
    pub fn continue_parallel(&self, world_gen: u32) -> (r: bool)
        ensures
            r == (self.archetype_gen == world_gen),
    {
        self.archetype_gen == world_gen
    }

    /// The systems in the order a sequential execution runs them.
    pub fn execution_order(&self) -> (r: Vec<&BoxedSystem>)
        ensures
            r@.len() == flat_items(self.systems@).len(),
            forall|i: int| 0 <= i < r@.len() ==> *(#[trigger] r@[i]) == flat_items(self.systems@)[i],
    {
        let mut out: Vec<&BoxedSystem> = Vec::new();
        let mut i: usize = 0;
        while i < self.systems.len()
            invariant
                0 <= i <= self.systems@.len(),
                out@.len() == flat_items(self.systems@.subrange(0, i as int)).len(),
                forall|k: int| 0 <= k < out@.len() ==> *(#[trigger] out@[k]) == flat_items(self.systems@.subrange(0, i as int))[k],
            decreases self.systems@.len() - i,
        {
            let batch = &self.systems[i];
            let ghost before = flat_items(self.systems@.subrange(0, i as int));
            let mut j: usize = 0;
            while j < batch.len()
                invariant
                    0 <= j <= batch@.len(),
                    *batch == self.systems@[i as int],
                    out@.len() == before.len() + j,
                    forall|k: int| 0 <= k < before.len() ==> *(#[trigger] out@[k]) == before[k],
                    forall|k: int| before.len() <= k < out@.len() ==> *(#[trigger] out@[k]) == batch@[k - before.len()],
                decreases batch@.len() - j,
            {
                out.push(&batch[j]);
                j += 1;
            }
            proof {
                lemma_flat_prefix(self.systems@, i as int);
                let now = flat_items(self.systems@.subrange(0, i + 1));
                assert(now =~= before + batch@);
                assert forall|k: int| 0 <= k < out@.len() implies *(#[trigger] out@[k]) == now[k] by {
                    if k >= before.len() {
                        assert(now[k] == batch@[k - before.len()]);
                    }
                }
            }
            i += 1;
        }
        proof {
            assert(self.systems@.subrange(0, i as int) =~= self.systems@);
        }
        out
    }
}

/// A sequential run over `order` from `states[0]` that stopped after `k` systems: each of the
/// first `k` systems succeeded and handed its state to the next one, and the run then ended
/// with `r`, which is the last state where every system ran and otherwise the error of system
/// `k`.
pub open spec fn run_trace<S, I, E, R: Fn(&BoxedSystem, S, &I) -> Result<S, E>>(
    run: R,
    order: Seq<BoxedSystem>,
    input: &I,
    states: Seq<S>,
    k: int,
    r: Result<S, E>,
) -> bool {
    &&& 0 <= k <= order.len()
    &&& states.len() == k + 1
    &&& forall|j: int| 0 <= j < k ==> #[trigger] run.ensures((&order[j], states[j], input), Ok::<S, E>(states[j + 1]))
    &&& k == order.len() ==> r == Ok::<S, E>(states[k])
    &&& k < order.len() ==> r is Err && run.ensures((&order[k], states[k], input), r)
}

impl Schedule {
    /// Runs the systems one at a time in schedule order, handing each the state the previous one
    /// left, together with `input`; stops at the first system that fails and returns its error.
    pub fn execute_seq_with<S, I, E, R: Fn(&BoxedSystem, S, &I) -> Result<S, E>>(&self, world: S, input: &I, run: R) -> (r: Result<S, E>)
        requires
            forall|j: int, s: S| 0 <= j < flat_items(self.systems@).len() ==> run.requires((&#[trigger] flat_items(self.systems@)[j], s, input)),
        ensures
            exists|states: Seq<S>, k: int| states[0] == world && #[trigger] run_trace(run, flat_items(self.systems@), input, states, k, r),
    {
        let order = self.execution_order();
        let ghost flat = flat_items(self.systems@);
        let ghost mut states: Seq<S> = seq![world];
        let mut state = world;
        let mut i: usize = 0;
        while i < order.len()
            invariant
                0 <= i <= order@.len(),
                order@.len() == flat.len(),
                flat == flat_items(self.systems@),
                forall|j: int| 0 <= j < order@.len() ==> *(#[trigger] order@[j]) == flat[j],
                forall|j: int, s: S| 0 <= j < flat.len() ==> run.requires((&#[trigger] flat[j], s, input)),
                states.len() == i + 1,
                states[0] == world,
                states[i as int] == state,
                forall|j: int| 0 <= j < i ==> #[trigger] run.ensures((&flat[j], states[j], input), Ok::<S, E>(states[j + 1])),
            decreases order@.len() - i,
        {
            let system = order[i];
            assert(*system == flat[i as int]);
            let ghost before = state;
            match run(system, state, input) {
                Ok(next) => {
                    proof {
                        states = states.push(next);
                    }
                    state = next;
                },
                Err(e) => {
                    let r = Err(e);
                    assert(run_trace(run, flat, input, states, i as int, r));
                    return r;
                },
            }
            i += 1;
        }
        let r = Ok(state);
        assert(run_trace(run, flat, input, states, i as int, r));
        r
    }

    /// Runs the systems one at a time in schedule order without further input; see
    /// [`Schedule::execute_seq_with`].
    pub fn execute_seq<S, E, R: Fn(&BoxedSystem, S, &()) -> Result<S, E>>(&self, world: S, run: R) -> (r: Result<S, E>)
        requires
            forall|j: int, s: S| 0 <= j < flat_items(self.systems@).len() ==> run.requires((&#[trigger] flat_items(self.systems@)[j], s, &())),
        ensures
            exists|states: Seq<S>, k: int| states[0] == world && #[trigger] run_trace(run, flat_items(self.systems@), &(), states, k, r),
    {
        self.execute_seq_with(world, &(), run)
    }
}

/// Flattening a longer prefix appends the next group.
pub proof fn lemma_flat_prefix<T>(s: Seq<Vec<T>>, i: int)
    requires
        0 <= i < s.len(),
    ensures
        flat_items(s.subrange(0, i + 1)) == flat_items(s.subrange(0, i)) + s[i]@,
{
    let a = s.subrange(0, i).map_values(|v: Vec<T>| v@);
    let b = s.subrange(0, i + 1).map_values(|v: Vec<T>| v@);
    assert(b =~= a.push(s[i]@));
    a.lemma_flatten_push(s[i]@);
}

/// Law: when an earlier system has an access that conflicts with an access of a later one, the
/// later system runs in a later batch, so it observes the earlier system's effects.
pub proof fn lemma_conflicting_systems_ordered<V>(systems: Seq<Vec<BoxedSystem>>, archs: Seq<Archetype<V>>, deps: Map<usize, Vec<usize>>, src: usize, dst: usize, j: int)
    requires
        flat_items(systems).len() < u32::MAX,
        forall|i: usize| #[trigger] deps.contains_key(i) <==> i < flat_items(systems).len(),
        forall|i: usize| i < flat_items(systems).len() ==> (#[trigger] deps[i])@ == system_deps(system_accesses(systems, archs), i as int),
        src < dst < flat_items(systems).len(),
        0 <= j < system_accesses(systems, archs)[dst as int].len(),
        conflicts(system_accesses(systems, archs)[src as int], system_accesses(systems, archs)[dst as int][j]),
    ensures
        depth(deps, src) < depth(deps, dst),
{
    let acc = system_accesses(systems, archs);
    crate::schedule::access::lemma_built_deps_acyclic(acc, deps);
    crate::schedule::access::lemma_dependency_iff_conflict(acc, dst as int, src);
    let ds = crate::schedule::topo::deps_of(deps, dst);
    assert(ds == system_deps(acc, dst as int));
    let k = choose|k: int| 0 <= k < ds.len() && ds[k] == src;
    crate::schedule::topo::lemma_dependency_earlier(deps, dst, k);
}

} // verus!
