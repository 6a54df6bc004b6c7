use flax::archetype::Archetype;
use flax::changes::{Change, ChangeKind, ChangeList};
use flax::entity::{ComponentKey, Entity};
use flax::fetch::{Fetch, FetchPrepareData};
use flax::filter::ChangeFilter;
use flax::world::{ComponentDesc, World};
use flax::fetch::PreparedFetch;
use flax::filter::{And, ChangeCursor, ChangeFetch, FilterIter, Or};
use flax::query::{DifferenceIter, SetDifference};
use flax::slice::Slice;

fn sample_changes() -> [Change; 4] {
    [
        Change::new(Slice::new(10, 20), 3),
        Change::new(Slice::new(20, 22), 4),
        Change::new(Slice::new(30, 80), 3),
        Change::new(Slice::new(100, 200), 4),
    ]
}

#[test]
fn filter_slices() {
    let changes = sample_changes();

    let mut filter = ChangeFetch {
        changes: &changes[..],
        cursor: ChangeCursor::new(2),
    };

    assert_eq!(filter.filter_slots(Slice::new(0, 10)), Slice::new(10, 10));
    assert_eq!(filter.filter_slots(Slice::new(0, 50)), Slice::new(10, 20));
    assert_eq!(filter.filter_slots(Slice::new(20, 50)), Slice::new(20, 22));
    assert_eq!(filter.filter_slots(Slice::new(22, 50)), Slice::new(30, 50));

    assert_eq!(filter.filter_slots(Slice::new(0, 10)), Slice::new(10, 10));
    // Due to modified state
    assert_eq!(filter.filter_slots(Slice::new(0, 50)), Slice::new(30, 50));

    assert_eq!(
        filter.filter_slots(Slice::new(120, 500)),
        Slice::new(120, 200)
    );
}

#[test]
fn filter_slices_consume() {
    let changes = sample_changes();

    let filter = ChangeFetch {
        changes: &changes[..],
        cursor: ChangeCursor::new(2),
    };

    let slices = FilterIter::new(Slice::new(0, 500), filter).collect_vec();

    assert_eq!(
        &[
            Slice::new(10, 20),
            Slice::new(20, 22),
            Slice::new(30, 80),
            Slice::new(100, 200),
        ],
        &slices[..]
    );
}

#[test]
fn filter_slices_partial() {
    let changes = sample_changes();

    let filter = ChangeFetch {
        changes: &changes[..],
        cursor: ChangeCursor::new(2),
    };

    let slices: Vec<Slice> = FilterIter::new(Slice::new(25, 150), filter)
        .collect_vec()
        .into_iter()
        .take(100)
        .collect();

    assert_eq!(&[Slice::new(30, 80), Slice::new(100, 150),], &slices[..]);
}

#[test]
fn mod_filter() {
    let mut changes = ChangeList::new();

    changes.set(Change::new(Slice::new(40, 200), 1));
    changes.set(Change::new(Slice::new(70, 349), 2));
    changes.set(Change::new(Slice::new(560, 893), 5));
    changes.set(Change::new(Slice::new(39, 60), 6));
    changes.set(Change::new(Slice::new(784, 800), 7));
    changes.set(Change::new(Slice::new(945, 1139), 8));

    let filter = ChangeFetch::new(changes.as_slice(), 2);

    // The whole "archetype"
    let slots = Slice::new(0, 1238);

    let chunks = FilterIter::new(slots, filter).collect_vec();

    assert_eq!(
        chunks,
        [
            Slice::new(39, 60),
            Slice::new(560, 784),
            Slice::new(784, 800),
            Slice::new(800, 893),
            Slice::new(945, 1139)
        ]
    );
}

fn flatten(slices: Vec<Slice>) -> Vec<usize> {
    slices.iter().flat_map(|s| s.iter_slots()).collect()
}

#[test]
fn mod_combinators() {
    let mut changes_1 = ChangeList::new();
    let mut changes_2 = ChangeList::new();

    changes_1.set(Change::new(Slice::new(40, 65), 2));
    changes_1.set(Change::new(Slice::new(59, 80), 3));
    changes_1.set(Change::new(Slice::new(90, 234), 3));
    changes_2.set(Change::new(Slice::new(50, 70), 3));
    changes_2.set(Change::new(Slice::new(99, 210), 4));

    let a_map = changes_1.as_changed_set(1);
    let b_map = changes_2.as_changed_set(2);

    let slots = Slice::new(0, 1000);

    // Or
    let a = ChangeFetch::new(changes_1.as_slice(), 1);
    let b = ChangeFetch::new(changes_2.as_slice(), 2);

    let filter = Or((Some(a), Some(b)));

    let chunks_set: Vec<usize> = slots
        .iter_slots()
        .into_iter()
        .filter(|v| a_map.contains(v) || b_map.contains(v))
        .collect();

    let chunks = flatten(FilterIter::new(slots, filter).collect_vec());

    assert_eq!(chunks, chunks_set);

    // And
    let a = ChangeFetch::new(changes_1.as_slice(), 1);
    let b = ChangeFetch::new(changes_2.as_slice(), 2);

    let filter = And(a, b);

    let chunks_set: Vec<usize> = slots
        .iter_slots()
        .into_iter()
        .filter(|v| a_map.contains(v) && b_map.contains(v))
        .collect();

    let chunks = flatten(FilterIter::new(slots, filter).collect_vec());

    assert_eq!(chunks, chunks_set,);
}

fn collect_set_difference(left: Vec<i32>, right: Vec<i32>) -> Vec<i32> {
    let mut it = SetDifference::new(left, right);
    let mut out = Vec::new();
    while let Some(v) = it.next() {
        out.push(v);
    }
    out
}

fn collect_sym_difference(left: Vec<i32>, right: Vec<i32>) -> Vec<i32> {
    let mut it = DifferenceIter::new(left, right);
    let mut out = Vec::new();
    while let Some(v) = it.next() {
        out.push(v);
    }
    out
}

#[test]
fn difference_difference_iter() {
    let diff = collect_set_difference(vec![1, 2, 4, 5, 6, 8], vec![1, 2, 6, 7]);

    assert_eq!(diff, [4, 5, 8]);

    let diff = collect_set_difference(vec![1, 2, 6, 7], vec![1, 2, 3, 6, 7]);

    assert_eq!(diff, [0i32; 0]);
}

#[test]
fn symmetric_difference_iter() {
    let diff = collect_sym_difference(vec![1, 2, 6, 7], vec![1, 2, 4, 5, 6, 8]);
    assert_eq!(diff, [4, 5, 7, 8]);
}

fn component(id: usize, name: &str) -> ComponentDesc {
    ComponentDesc::new(ComponentKey::new(Entity::from_id(id), None), name.to_string())
}

#[test]
fn mod_archetypes() {
    let a = component(1000, "a");
    let b = component(1001, "b");
    let c = component(1002, "c");

    let mut archetype: Archetype<i32> = Archetype::new(vec![a.key, b.key, c.key]);

    let filter = Or((
        And(ChangeFilter::new(a.clone(), ChangeKind::Modified), ChangeFilter::new(b.clone(), ChangeKind::Modified)),
        ChangeFilter::new(c.clone(), ChangeKind::Modified),
    ));

    // Mock changes
    let ia = archetype.index_of(a.key).unwrap();
    let a_map = archetype.cells[ia]
        .changes
        .set_modified(Change::new(Slice::new(9, 80), 2))
        .set_added(Change::new(Slice::new(65, 83), 4))
        .get(ChangeKind::Modified)
        .as_changed_set(1);

    let ib = archetype.index_of(b.key).unwrap();
    let b_map = archetype.cells[ib]
        .changes
        .set_modified(Change::new(Slice::new(16, 45), 2))
        .set_modified(Change::new(Slice::new(68, 85), 2))
        .get(ChangeKind::Modified)
        .as_changed_set(1);

    let ic = archetype.index_of(c.key).unwrap();
    let c_map = archetype.cells[ic]
        .changes
        .set_modified(Change::new(Slice::new(96, 123), 3))
        .get(ChangeKind::Modified)
        .as_changed_set(1);

    // Brute force
    let slots = Slice::new(0, 1000);
    let chunks_set: Vec<usize> = slots
        .iter_slots()
        .into_iter()
        .filter(|v| (a_map.contains(v) && b_map.contains(v)) || c_map.contains(v))
        .collect();

    let world: World<i32> = World::new();
    let prepared = filter
        .prepare(FetchPrepareData { world: &world, arch: &archetype, arch_id: usize::MAX, old_tick: 0, new_tick: 1 })
        .unwrap();
    let chunks = flatten(FilterIter::new(slots, prepared).collect_vec());

    assert_eq!(chunks, chunks_set);
}
