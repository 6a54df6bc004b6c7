use vstd::prelude::*;

use crate::entity::{ComponentKey, Entity};
use crate::world::ComponentDesc;

verus! {

/// Formats the values of a component; the formatting itself is done by the component's value
/// type.
#[derive(Debug, Clone, Copy, PartialEq, Eq, Structural)]
pub struct Debuggable;

/// Marks a relation of which an entity holds at most one pair.
#[derive(Debug, Clone, Copy, PartialEq, Eq, Structural)]
pub struct Exclusive;

/// Provides a name for components.
#[derive(Debug, Clone, Copy, PartialEq, Eq, Structural)]
pub struct Name;

impl Debuggable {
    /// The value to format.
    pub fn debug<'a, T>(&self, value: &'a T) -> (r: &'a T)
        ensures
            r == value,
    {
        value
    }
}

/// A metadata value attached to a component.
#[derive(Debug, PartialEq, Eq)]
pub enum MetaValue {
    Name(String),
    Debuggable(Debuggable),
    Exclusive(Exclusive),
}

/// The key of the component which holds a name.
pub open spec fn spec_name_key() -> ComponentKey {
    ComponentKey { id: Entity { id: (usize::MAX - 1) as usize }, target: None }
}

/// The key of the component which makes a component debuggable.
pub open spec fn spec_debuggable_key() -> ComponentKey {
    ComponentKey { id: Entity { id: (usize::MAX - 2) as usize }, target: None }
}

/// The key of the component which marks an exclusive relation.
pub open spec fn spec_exclusive_key() -> ComponentKey {
    ComponentKey { id: Entity { id: (usize::MAX - 3) as usize }, target: None }
}

/// The key of the component which holds a name.
pub fn name_key() -> (r: ComponentKey)
    ensures
        r == spec_name_key(),
{
    ComponentKey { id: Entity { id: usize::MAX - 1 }, target: None }
}

/// The key of the component which makes a component debuggable.
pub fn debuggable_key() -> (r: ComponentKey)
    ensures
        r == spec_debuggable_key(),
{
    ComponentKey { id: Entity { id: usize::MAX - 2 }, target: None }
}

/// The key of the component which marks an exclusive relation.
pub fn exclusive_key() -> (r: ComponentKey)
    ensures
        r == spec_exclusive_key(),
{
    ComponentKey { id: Entity { id: usize::MAX - 3 }, target: None }
}

/// The metadata components of a component, by key, each key at most once.
pub struct ComponentBuffer {
    entries: Vec<(ComponentKey, MetaValue)>,
}

/// No key occurs twice.
pub open spec fn keys_unique(entries: Seq<(ComponentKey, MetaValue)>) -> bool {
    forall|i: int, j: int| 0 <= i < j < entries.len() ==> (#[trigger] entries[i]).0 != (#[trigger] entries[j]).0
}

impl View for ComponentBuffer {
    type V = Map<ComponentKey, MetaValue>;

    closed spec fn view(&self) -> Map<ComponentKey, MetaValue> {
        Map::new(
            |k: ComponentKey| exists|i: int| 0 <= i < self.entries@.len() && (#[trigger] self.entries@[i]).0 == k,
            |k: ComponentKey| self.entries@[choose|i: int| 0 <= i < self.entries@.len() && (#[trigger] self.entries@[i]).0 == k].1,
        )
    }
}

impl ComponentBuffer {
    /// The entries hold no key twice.
    pub closed spec fn wf(&self) -> bool {
        keys_unique(self.entries@)
    }

    /// An empty buffer.
    pub fn new() -> (r: ComponentBuffer)
        ensures
            r.wf(),
            r@ == Map::<ComponentKey, MetaValue>::empty(),
    {
        let r = ComponentBuffer { entries: Vec::new() };
        assert(r@ =~= Map::<ComponentKey, MetaValue>::empty());
        r
    }

    /// The value of a component, if set.
    pub fn get(&self, key: ComponentKey) -> (r: Option<&MetaValue>)
        requires
            self.wf(),
        ensures
            r == (if self@.contains_key(key) { Some(&self@[key]) } else { None }),
    {
        let mut i: usize = 0;
        while i < self.entries.len()
            invariant
                0 <= i <= self.entries@.len(),
                keys_unique(self.entries@),
                forall|k: int| 0 <= k < i ==> (#[trigger] self.entries@[k]).0 != key,
            decreases self.entries@.len() - i,
        {
            if self.entries[i].0 == key {
                proof {
                    assert(self@.contains_key(key));
                    let c = choose|c: int| 0 <= c < self.entries@.len() && (#[trigger] self.entries@[c]).0 == key;
                    assert(c == i);
                }
                return Some(&self.entries[i].1);
            }
            i += 1;
        }
        None
    }

    /// Sets the value of a component, replacing any previous one.
    pub fn set(&mut self, key: ComponentKey, value: MetaValue)
        requires
            old(self).wf(),
        ensures
            final(self).wf(),
            final(self)@ == old(self)@.insert(key, value),
    {
        let mut i: usize = 0;
        while i < self.entries.len()
            invariant
                0 <= i <= self.entries@.len(),
                keys_unique(self.entries@),
                self.entries@ == old(self).entries@,
                forall|k: int| 0 <= k < i ==> (#[trigger] self.entries@[k]).0 != key,
            decreases self.entries@.len() - i,
        {
            if self.entries[i].0 == key {
                let ghost before = self.entries@;
                self.entries.set(i, (key, value));
                proof {
                    assert forall|a: int, b: int| 0 <= a < b < self.entries@.len() implies (#[trigger] self.entries@[a]).0 != (#[trigger] self.entries@[b]).0 by {
                        assert(before[a].0 != before[b].0);
                    }
                    assert(keys_unique(self.entries@));
                    assert forall|k: ComponentKey| #[trigger] self@.contains_key(k) == old(self)@.insert(key, value).contains_key(k) by {
                        if old(self)@.contains_key(k) {
                            let c = choose|c: int| 0 <= c < before.len() && (#[trigger] before[c]).0 == k;
                            assert(self.entries@[c].0 == k);
                        }
                        if self@.contains_key(k) && k != key {
                            let c = choose|c: int| 0 <= c < self.entries@.len() && (#[trigger] self.entries@[c]).0 == k;
                            assert(before[c].0 == k);
                        }
                        if k == key {
                            assert(self.entries@[i as int].0 == k);
                        }
                    }
                    assert forall|k: ComponentKey| #[trigger] self@.contains_key(k) implies self@[k] == old(self)@.insert(key, value)[k] by {
                        let c = choose|c: int| 0 <= c < self.entries@.len() && (#[trigger] self.entries@[c]).0 == k;
                        if k == key {
                            assert(c == i);
                        } else {
                            assert(before[c].0 == k);
                            let c2 = choose|c2: int| 0 <= c2 < before.len() && (#[trigger] before[c2]).0 == k;
                            assert(c2 == c);
                        }
                    }
                    assert(self@ =~= old(self)@.insert(key, value));
                }
                return;
            }
            i += 1;
        }
        let ghost before = self.entries@;
        self.entries.push((key, value));
        proof {
            assert forall|a: int, b: int| 0 <= a < b < self.entries@.len() implies (#[trigger] self.entries@[a]).0 != (#[trigger] self.entries@[b]).0 by {
                if b < before.len() {
                    assert(before[a].0 != before[b].0);
                } else {
                    assert(before[a].0 != key);
                }
            }
            assert(keys_unique(self.entries@));
            let n = before.len() as int;
            assert forall|k: ComponentKey| #[trigger] self@.contains_key(k) == old(self)@.insert(key, value).contains_key(k) by {
                if old(self)@.contains_key(k) {
                    let c = choose|c: int| 0 <= c < before.len() && (#[trigger] before[c]).0 == k;
                    assert(self.entries@[c].0 == k);
                }
                if self@.contains_key(k) && k != key {
                    let c = choose|c: int| 0 <= c < self.entries@.len() && (#[trigger] self.entries@[c]).0 == k;
                    assert(before[c].0 == k);
                }
                if k == key {
                    assert(self.entries@[n].0 == k);
                }
            }
            assert forall|k: ComponentKey| #[trigger] self@.contains_key(k) implies self@[k] == old(self)@.insert(key, value)[k] by {
                let c = choose|c: int| 0 <= c < self.entries@.len() && (#[trigger] self.entries@[c]).0 == k;
                if k == key {
                    assert(c == n);
                } else {
                    assert(before[c].0 == k);
                    let c2 = choose|c2: int| 0 <= c2 < before.len() && (#[trigger] before[c2]).0 == k;
                    assert(c2 == c);
                }
            }
            assert(self@ =~= old(self)@.insert(key, value));
        }
    }
}

/// Metadata which attaches itself to the buffer of a component.
pub trait Metadata {
    /// The buffer after attaching to a component.
    spec fn spec_attach(desc: ComponentDesc, buffer: Map<ComponentKey, MetaValue>) -> Map<ComponentKey, MetaValue>;

    /// Attaches the metadata for `desc` to `buffer`.
    fn attach(desc: &ComponentDesc, buffer: &mut ComponentBuffer)
        requires
            old(buffer).wf(),
        ensures
            final(buffer).wf(),
            final(buffer)@ == Self::spec_attach(*desc, old(buffer)@),
    ;
}

impl Metadata for Name {
    open spec fn spec_attach(desc: ComponentDesc, buffer: Map<ComponentKey, MetaValue>) -> Map<ComponentKey, MetaValue> {
        buffer.insert(spec_name_key(), MetaValue::Name(desc.name))
    }

    fn attach(desc: &ComponentDesc, buffer: &mut ComponentBuffer) {
        buffer.set(name_key(), MetaValue::Name(desc.name.clone()));
    }
}

impl Metadata for Debuggable {
    open spec fn spec_attach(desc: ComponentDesc, buffer: Map<ComponentKey, MetaValue>) -> Map<ComponentKey, MetaValue> {
        buffer.insert(spec_debuggable_key(), MetaValue::Debuggable(Debuggable))
    }

    fn attach(desc: &ComponentDesc, buffer: &mut ComponentBuffer) {
        buffer.set(debuggable_key(), MetaValue::Debuggable(Debuggable));
    }
}

impl Metadata for Exclusive {
    open spec fn spec_attach(desc: ComponentDesc, buffer: Map<ComponentKey, MetaValue>) -> Map<ComponentKey, MetaValue> {
        buffer.insert(spec_exclusive_key(), MetaValue::Exclusive(Exclusive))
    }

    fn attach(desc: &ComponentDesc, buffer: &mut ComponentBuffer) {
        buffer.set(exclusive_key(), MetaValue::Exclusive(Exclusive));
    }
}

impl Metadata for () {
    open spec fn spec_attach(desc: ComponentDesc, buffer: Map<ComponentKey, MetaValue>) -> Map<ComponentKey, MetaValue> {
        buffer
    }

    fn attach(desc: &ComponentDesc, buffer: &mut ComponentBuffer) {
    }
}

impl<A: Metadata, B: Metadata> Metadata for (A, B) {
    open spec fn spec_attach(desc: ComponentDesc, buffer: Map<ComponentKey, MetaValue>) -> Map<ComponentKey, MetaValue> {
        B::spec_attach(desc, A::spec_attach(desc, buffer))
    }

    fn attach(desc: &ComponentDesc, buffer: &mut ComponentBuffer) {
        A::attach(desc, buffer);
        B::attach(desc, buffer);
    }
}

impl ComponentDesc {
    /// The metadata of the component: its name, then the metadata `M`.
    pub fn create_meta<M: Metadata>(&self) -> (r: ComponentBuffer)
        ensures
            r.wf(),
            r@ == M::spec_attach(*self, Map::<ComponentKey, MetaValue>::empty().insert(spec_name_key(), MetaValue::Name(self.name))),
    {
        let mut buffer = ComponentBuffer::new();
        Name::attach(self, &mut buffer);
        M::attach(self, &mut buffer);
        buffer
    }
}

} // verus!
