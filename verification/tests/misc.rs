use std::collections::BTreeMap;

use flax::entity::{ComponentKey, Entity};
use flax::fetch::{TupleCloned, TupleCombine};
use flax::filter::{FilterIter, Nothing, Union};
use flax::metadata::{debuggable_key, name_key, Debuggable, MetaValue};
use flax::schedule::topo::topo_sort;
use flax::slice::Slice;
use flax::world::ComponentDesc;

#[test]
fn tuples_clone() {
    let a: i32 = 5;
    let b = "foo".to_string();

    let tuple = (&a, &b);

    let cloned: (i32, String, i32) = tuple.push_right(&a).cloned();
    assert_eq!(cloned, (a, b, a));
}

#[test]
fn union() {
    let fetch = Union((
        Slice::new(0, 2),
        Nothing,
        Slice::new(7, 16),
        Slice::new(3, 10),
    ));

    let fetch = FilterIter::new(Slice::new(0, 100), fetch);

    assert_eq!(
        fetch.collect_vec(),
        [Slice::new(0, 2), Slice::new(3, 10), Slice::new(10, 16)]
    );
}

#[test]
fn test_topo_sort() {
    let items = vec![vec!["a", "b", "c", "d", "e", "f"]];
    // a => b c
    // b => c d
    // e => a c
    let deps: BTreeMap<usize, Vec<usize>> = [(0, vec![1, 2]), (1, vec![2, 3]), (4, vec![0, 2])].into();

    let sorted = topo_sort(items, &deps);

    assert_eq!(
        sorted,
        [vec!["c", "d", "f"], vec!["b"], vec!["a"], vec!["e"]]
    )
}

fn foo() -> ComponentDesc {
    ComponentDesc::new(ComponentKey::new(Entity::from_id(1000), None), "foo".to_string())
}

#[test]
fn meta_metadata_attach() {
    let meta = foo().create_meta::<Debuggable>();

    assert!(meta.get(debuggable_key()).is_some());
    assert_eq!(meta.get(name_key()), Some(&MetaValue::Name("foo".into())));
}

#[test]
fn mod_metadata_attach() {
    let meta = foo().create_meta::<Debuggable>();

    assert!(meta.get(debuggable_key()).is_some());
    assert_eq!(meta.get(name_key()), Some(&MetaValue::Name("foo".into())));
}
