use flax::changes::{Change, Changes};
use flax::fetch::filter::{FilterIter, PreparedAnd, PreparedFilter, PreparedKindFilter, PreparedOr};
use flax::slice::Slice;

fn collect<F: PreparedFilter>(mut it: FilterIter<F>) -> Vec<Slice> {
    let mut out = Vec::new();
    while let Some(s) = it.next() {
        out.push(s);
    }
    out
}

fn flatten(slices: Vec<Slice>) -> Vec<usize> {
    slices.iter().flat_map(|s| s.start..s.end).collect()
}

#[test]
fn filter_filter() {
    let mut changes = Changes::new();

    changes.set_modified(Change::new(Slice::new(40, 200), 1));
    changes.set_modified(Change::new(Slice::new(70, 349), 2));
    changes.set_modified(Change::new(Slice::new(560, 893), 5));
    changes.set_modified(Change::new(Slice::new(39, 60), 6));
    changes.set_added(Change::new(Slice::new(784, 800), 7));
    changes.set_modified(Change::new(Slice::new(945, 1139), 8));

    let filter = PreparedKindFilter::from_borrow(changes.modified.as_slice(), 2);

    // The whole "archetype"
    let slots = Slice::new(0, 1238);

    let chunks = collect(FilterIter::new(slots, filter));

    assert_eq!(
        chunks,
        [Slice::new(39, 60), Slice::new(560, 893), Slice::new(945, 1139)]
    );
}

#[test]
fn filter_combinators() {
    let mut changes_1 = Changes::new();
    let mut changes_2 = Changes::new();

    changes_1.set_modified(Change::new(Slice::new(40, 65), 2));
    changes_1.set_modified(Change::new(Slice::new(59, 80), 3));
    changes_1.set_modified(Change::new(Slice::new(90, 234), 3));
    changes_2.set_modified(Change::new(Slice::new(50, 70), 3));
    changes_2.set_modified(Change::new(Slice::new(99, 210), 4));

    let a_map = changes_1.modified.as_changed_set(1);
    let b_map = changes_2.modified.as_changed_set(2);

    let slots = Slice::new(0, 1000);

    // Or
    let a = PreparedKindFilter::from_borrow(changes_1.modified.as_slice(), 1);
    let b = PreparedKindFilter::from_borrow(changes_2.modified.as_slice(), 2);

    let filter = PreparedOr::new(a, b);

    let chunks_set: Vec<usize> = (slots.start..slots.end).filter(|v| a_map.contains(v) || b_map.contains(v)).collect();

    let chunks = flatten(collect(FilterIter::new(slots, filter)));

    assert_eq!(chunks, chunks_set);

    // And
    let a = PreparedKindFilter::from_borrow(changes_1.modified.as_slice(), 1);
    let b = PreparedKindFilter::from_borrow(changes_2.modified.as_slice(), 2);
    let filter = PreparedAnd::new(a, b);

    let chunks_set: Vec<usize> = (slots.start..slots.end).filter(|v| a_map.contains(v) && b_map.contains(v)).collect();

    let chunks = flatten(collect(FilterIter::new(slots, filter)));

    assert_eq!(chunks, chunks_set);
}

#[test]
fn kind_filter_skips_old_changes() {
    let mut changes = Changes::new();
    changes.set_modified(Change::new(Slice::new(0, 10), 1));
    changes.set_modified(Change::new(Slice::new(20, 30), 5));

    let mut filter = PreparedKindFilter::from_borrow(changes.modified.as_slice(), 3);
    assert_eq!(filter.current_slice(), Some(Slice::new(20, 30)));
    assert_eq!(filter.filter(Slice::new(0, 25)), Some(Slice::new(20, 25)));
    assert_eq!(filter.filter(Slice::new(30, 40)), None);
}
