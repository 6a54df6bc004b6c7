use vstd::prelude::*;

use crate::entity::{key_lt, lemma_key_order, ComponentKey};

verus! {

/// A strict total order with an executable comparison.
pub trait Ordered: Sized + Copy {
    /// `self` orders strictly before `other`.
    spec fn precedes(self, other: Self) -> bool;

    /// The order is irreflexive, transitive, total and asymmetric.
    proof fn lemma_order(a: Self, b: Self, c: Self)
        ensures
            !a.precedes(a),
            a.precedes(b) && b.precedes(c) ==> a.precedes(c),
            a != b ==> a.precedes(b) || b.precedes(a),
            a.precedes(b) ==> !b.precedes(a),
    ;

    /// Whether `self` orders strictly before `other`.
    fn less(&self, other: &Self) -> (r: bool)
        ensures
            r == self.precedes(*other),
    ;

    /// Whether the two are equal.
    fn same(&self, other: &Self) -> (r: bool)
        ensures
            r == (*self == *other),
    ;
}

impl Ordered for ComponentKey {
    open spec fn precedes(self, other: Self) -> bool {
        key_lt(self, other)
    }

    proof fn lemma_order(a: Self, b: Self, c: Self) {
        lemma_key_order(a, b, c);
    }

    fn less(&self, other: &Self) -> (r: bool) {
        self.lt(other)
    }

    fn same(&self, other: &Self) -> (r: bool) {
        *self == *other
    }
}

impl Ordered for i32 {
    open spec fn precedes(self, other: Self) -> bool {
        self < other
    }

    proof fn lemma_order(a: Self, b: Self, c: Self) {
    }

    fn less(&self, other: &Self) -> (r: bool) {
        *self < *other
    }

    fn same(&self, other: &Self) -> (r: bool) {
        *self == *other
    }
}

/// Strictly increasing.
pub open spec fn increasing<K: Ordered>(s: Seq<K>) -> bool {
    forall|i: int, j: int| 0 <= i < j < s.len() ==> (#[trigger] s[i]).precedes(#[trigger] s[j])
}

/// The items of `l` left after walking both sequences side by side and dropping the items they
/// share.
pub open spec fn spec_set_difference<K: Ordered>(l: Seq<K>, r: Seq<K>) -> Seq<K>
    decreases l.len() + r.len(),
{
    if l.len() == 0 {
        Seq::empty()
    } else if r.len() == 0 {
        l
    } else if l[0].precedes(r[0]) {
        seq![l[0]] + spec_set_difference(l.drop_first(), r)
    } else if l[0] == r[0] {
        spec_set_difference(l.drop_first(), r.drop_first())
    } else {
        spec_set_difference(l, r.drop_first())
    }
}

/// The items found in exactly one of the sequences, walking both side by side.
pub open spec fn spec_sym_difference<K: Ordered>(l: Seq<K>, r: Seq<K>) -> Seq<K>
    decreases l.len() + r.len(),
{
    if l.len() == 0 {
        r
    } else if r.len() == 0 {
        l
    } else if l[0].precedes(r[0]) {
        seq![l[0]] + spec_sym_difference(l.drop_first(), r)
    } else if l[0] == r[0] {
        spec_sym_difference(l.drop_first(), r.drop_first())
    } else {
        seq![r[0]] + spec_sym_difference(l, r.drop_first())
    }
}

/// Yields the items of the left sequence which are not in the right one; both sorted.
pub struct SetDifference<K> {
    pub left: Vec<K>,
    pub right: Vec<K>,
    pub li: usize,
    pub ri: usize,
}

impl<K: Ordered> SetDifference<K> {
    /// The items still to be yielded.
    pub open spec fn remaining(&self) -> Seq<K> {
        spec_set_difference(self.left@.skip(self.li as int), self.right@.skip(self.ri as int))
    }

    /// The positions lie inside the sequences.
    pub open spec fn wf(&self) -> bool {
        self.li <= self.left@.len() && self.ri <= self.right@.len()
    }

    /// Walks `left` and `right` from their starts.
    pub fn new(left: Vec<K>, right: Vec<K>) -> (r: SetDifference<K>)
        ensures
            r.wf(),
            r.remaining() == spec_set_difference(left@, right@),
    {
        let r = SetDifference { left, right, li: 0, ri: 0 };
        assert(r.left@.skip(0) =~= r.left@);
        assert(r.right@.skip(0) =~= r.right@);
        r
    }

    /// The next item of `left` that is not in `right`.
    pub fn next(&mut self) -> (r: Option<K>)
        requires
            old(self).wf(),
        ensures
            final(self).wf(),
            final(self).left == old(self).left,
            final(self).right == old(self).right,
            old(self).remaining().len() == 0 ==> r is None && final(self).remaining().len() == 0,
            old(self).remaining().len() > 0 ==> r == Some(old(self).remaining()[0])
                && final(self).remaining() == old(self).remaining().drop_first(),
    {
        loop
            invariant
                self.wf(),
                self.left == old(self).left,
                self.right == old(self).right,
                self.remaining() == old(self).remaining(),
            decreases self.left@.len() - self.li + self.right@.len() - self.ri,
        {
            let ghost l = self.left@.skip(self.li as int);
            let ghost r = self.right@.skip(self.ri as int);
            if self.li >= self.left.len() {
                assert(l.len() == 0);
                return None;
            }
            if self.ri >= self.right.len() {
                let v = self.left[self.li];
                assert(r.len() == 0);
                assert(l[0] == v);
                self.li = self.li + 1;
                assert(self.left@.skip(self.li as int) =~= l.drop_first());
                assert(old(self).remaining() == l);
                assert(self.right@.skip(self.ri as int).len() == 0);
                return Some(v);
            }
            let a = self.left[self.li];
            let b = self.right[self.ri];
            assert(l[0] == a && r[0] == b);
            if a.less(&b) {
                self.li = self.li + 1;
                assert(self.left@.skip(self.li as int) =~= l.drop_first());
                return Some(a);
            } else if a.same(&b) {
                self.li = self.li + 1;
                self.ri = self.ri + 1;
                assert(self.left@.skip(self.li as int) =~= l.drop_first());
                assert(self.right@.skip(self.ri as int) =~= r.drop_first());
            } else {
                self.ri = self.ri + 1;
                assert(self.right@.skip(self.ri as int) =~= r.drop_first());
            }
        }
    }
}

/// Yields the items found in exactly one of two sorted sequences, in order.
pub struct DifferenceIter<K> {
    pub left: Vec<K>,
    pub right: Vec<K>,
    pub li: usize,
    pub ri: usize,
}

impl<K: Ordered> DifferenceIter<K> {
    /// The items still to be yielded.
    pub open spec fn remaining(&self) -> Seq<K> {
        spec_sym_difference(self.left@.skip(self.li as int), self.right@.skip(self.ri as int))
    }

    /// The positions lie inside the sequences.
    pub open spec fn wf(&self) -> bool {
        self.li <= self.left@.len() && self.ri <= self.right@.len()
    }

    /// Walks `left` and `right` from their starts.
    pub fn new(left: Vec<K>, right: Vec<K>) -> (r: DifferenceIter<K>)
        ensures
            r.wf(),
            r.remaining() == spec_sym_difference(left@, right@),
    {
        let r = DifferenceIter { left, right, li: 0, ri: 0 };
        assert(r.left@.skip(0) =~= r.left@);
        assert(r.right@.skip(0) =~= r.right@);
        r
    }

    /// The next item found in only one of the sequences.
    pub fn next(&mut self) -> (r: Option<K>)
        requires
            old(self).wf(),
        ensures
            final(self).wf(),
            final(self).left == old(self).left,
            final(self).right == old(self).right,
            old(self).remaining().len() == 0 ==> r is None && final(self).remaining().len() == 0,
            old(self).remaining().len() > 0 ==> r == Some(old(self).remaining()[0])
                && final(self).remaining() == old(self).remaining().drop_first(),
    {
        loop
            invariant
                self.wf(),
                self.left == old(self).left,
                self.right == old(self).right,
                self.remaining() == old(self).remaining(),
            decreases self.left@.len() - self.li + self.right@.len() - self.ri,
        {
            let ghost l = self.left@.skip(self.li as int);
            let ghost r = self.right@.skip(self.ri as int);
            if self.li >= self.left.len() {
                if self.ri >= self.right.len() {
                    assert(l.len() == 0 && r.len() == 0);
                    return None;
                }
                let v = self.right[self.ri];
                assert(r[0] == v);
                self.ri = self.ri + 1;
                assert(self.right@.skip(self.ri as int) =~= r.drop_first());
                assert(self.left@.skip(self.li as int).len() == 0);
                return Some(v);
            }
            if self.ri >= self.right.len() {
                let v = self.left[self.li];
                assert(r.len() == 0);
                assert(l[0] == v);
                self.li = self.li + 1;
                assert(self.left@.skip(self.li as int) =~= l.drop_first());
                assert(self.right@.skip(self.ri as int).len() == 0);
                return Some(v);
            }
            let a = self.left[self.li];
            let b = self.right[self.ri];
            assert(l[0] == a && r[0] == b);
            if a.less(&b) {
                self.li = self.li + 1;
                assert(self.left@.skip(self.li as int) =~= l.drop_first());
                return Some(a);
            } else if a.same(&b) {
                self.li = self.li + 1;
                self.ri = self.ri + 1;
                assert(self.left@.skip(self.li as int) =~= l.drop_first());
                assert(self.right@.skip(self.ri as int) =~= r.drop_first());
            } else {
                self.ri = self.ri + 1;
                assert(self.right@.skip(self.ri as int) =~= r.drop_first());
                return Some(b);
            }
        }
    }
}


/// Dropping the first item of an increasing sequence leaves an increasing sequence of items
/// after it, and the first item occurs nowhere else.
proof fn lemma_increasing_tail<K: Ordered>(s: Seq<K>)
    requires
        increasing(s),
        s.len() > 0,
    ensures
        increasing(s.drop_first()),
        forall|x: K| s.drop_first().contains(x) ==> s[0].precedes(x),
        !s.drop_first().contains(s[0]),
        forall|x: K| s.contains(x) <==> (x == s[0] || s.drop_first().contains(x)),
{
    let t = s.drop_first();
    assert forall|i: int, j: int| 0 <= i < j < t.len() implies (#[trigger] t[i]).precedes(#[trigger] t[j]) by {
        assert(t[i] == s[i + 1] && t[j] == s[j + 1]);
    }
    assert forall|x: K| t.contains(x) implies s[0].precedes(x) by {
        let i = choose|i: int| 0 <= i < t.len() && t[i] == x;
        assert(s[i + 1] == x);
    }
    if t.contains(s[0]) {
        K::lemma_order(s[0], s[0], s[0]);
    }
    assert forall|x: K| s.contains(x) <==> (x == s[0] || t.contains(x)) by {
        if s.contains(x) && x != s[0] {
            let i = choose|i: int| 0 <= i < s.len() && s[i] == x;
            assert(t[i - 1] == x);
        }
        if t.contains(x) {
            let i = choose|i: int| 0 <= i < t.len() && t[i] == x;
            assert(s[i + 1] == x);
        }
        if x == s[0] {
            assert(s[0] == x);
        }
    }
}

/// Law: on increasing sequences, the set difference holds exactly the items of the left one
/// which the right one lacks, in increasing order.
pub proof fn lemma_set_difference<K: Ordered>(l: Seq<K>, r: Seq<K>)
    requires
        increasing(l),
        increasing(r),
    ensures
        increasing(spec_set_difference(l, r)),
        forall|x: K| #[trigger] spec_set_difference(l, r).contains(x) <==> (l.contains(x) && !r.contains(x)),
    decreases l.len() + r.len(),
{
    let d = spec_set_difference(l, r);
    if l.len() == 0 {
        assert forall|x: K| #[trigger] d.contains(x) <==> (l.contains(x) && !r.contains(x)) by {}
    } else if r.len() == 0 {
        assert forall|x: K| #[trigger] d.contains(x) <==> (l.contains(x) && !r.contains(x)) by {}
    } else {
        lemma_increasing_tail(l);
        lemma_increasing_tail(r);
        let (l0, r0) = (l[0], r[0]);
        if l0.precedes(r0) {
            let t = spec_set_difference(l.drop_first(), r);
            lemma_set_difference(l.drop_first(), r);
            assert(d == seq![l0] + t);
            if r.contains(l0) {
                K::lemma_order(l0, r0, l0);
                if l0 != r0 {
                    assert(r.drop_first().contains(l0));
                    K::lemma_order(r0, l0, r0);
                }
            }
            assert forall|x: K| #[trigger] d.contains(x) <==> (l.contains(x) && !r.contains(x)) by {
                if d.contains(x) && x != l0 {
                    let i = choose|i: int| 0 <= i < d.len() && d[i] == x;
                    assert(t[i - 1] == x);
                }
                if t.contains(x) {
                    let i = choose|i: int| 0 <= i < t.len() && t[i] == x;
                    assert(d[i + 1] == x);
                }
                assert(d[0] == l0);
            }
            assert forall|i: int, j: int| 0 <= i < j < d.len() implies (#[trigger] d[i]).precedes(#[trigger] d[j]) by {
                assert(d[j] == t[j - 1]);
                if i > 0 {
                    assert(d[i] == t[i - 1]);
                } else {
                    assert(t.contains(t[j - 1]));
                }
            }
        } else if l0 == r0 {
            lemma_set_difference(l.drop_first(), r.drop_first());
            assert forall|x: K| #[trigger] d.contains(x) <==> (l.contains(x) && !r.contains(x)) by {
                if x == l0 {
                    assert(r[0] == x);
                }
            }
        } else {
            K::lemma_order(l0, r0, l0);
            lemma_set_difference(l, r.drop_first());
            assert forall|x: K| #[trigger] d.contains(x) <==> (l.contains(x) && !r.contains(x)) by {
                if x == r0 && l.contains(x) {
                    if x != l0 {
                        assert(l.drop_first().contains(x));
                        K::lemma_order(l0, r0, l0);
                    }
                }
            }
        }
    }
}

/// Law: on increasing sequences, the symmetric difference holds exactly the items found in one
/// of them but not both, in increasing order.
pub proof fn lemma_sym_difference<K: Ordered>(l: Seq<K>, r: Seq<K>)
    requires
        increasing(l),
        increasing(r),
    ensures
        increasing(spec_sym_difference(l, r)),
        forall|x: K| #[trigger] spec_sym_difference(l, r).contains(x) <==> (l.contains(x) != r.contains(x)),
    decreases l.len() + r.len(),
{
    let d = spec_sym_difference(l, r);
    if l.len() == 0 {
        assert forall|x: K| #[trigger] d.contains(x) <==> (l.contains(x) != r.contains(x)) by {}
    } else if r.len() == 0 {
        assert forall|x: K| #[trigger] d.contains(x) <==> (l.contains(x) != r.contains(x)) by {}
    } else {
        lemma_increasing_tail(l);
        lemma_increasing_tail(r);
        let (l0, r0) = (l[0], r[0]);
        if l0.precedes(r0) {
            let t = spec_sym_difference(l.drop_first(), r);
            lemma_sym_difference(l.drop_first(), r);
            assert(d == seq![l0] + t);
            if r.contains(l0) {
                K::lemma_order(l0, r0, l0);
                if l0 != r0 {
                    assert(r.drop_first().contains(l0));
                    K::lemma_order(r0, l0, r0);
                }
            }
            assert forall|x: K| #[trigger] d.contains(x) <==> (l.contains(x) != r.contains(x)) by {
                if d.contains(x) && x != l0 {
                    let i = choose|i: int| 0 <= i < d.len() && d[i] == x;
                    assert(t[i - 1] == x);
                }
                if t.contains(x) {
                    let i = choose|i: int| 0 <= i < t.len() && t[i] == x;
                    assert(d[i + 1] == x);
                }
                assert(d[0] == l0);
            }
            assert forall|i: int, j: int| 0 <= i < j < d.len() implies (#[trigger] d[i]).precedes(#[trigger] d[j]) by {
                assert(d[j] == t[j - 1]);
                if i > 0 {
                    assert(d[i] == t[i - 1]);
                } else {
                    assert(t.contains(t[j - 1]));
                    if r.contains(t[j - 1]) && t[j - 1] != r0 {
                        K::lemma_order(l0, r0, t[j - 1]);
                    }
                }
            }
        } else if l0 == r0 {
            lemma_sym_difference(l.drop_first(), r.drop_first());
            assert forall|x: K| #[trigger] d.contains(x) <==> (l.contains(x) != r.contains(x)) by {
                if x == l0 {
                    assert(r[0] == x);
                }
            }
        } else {
            K::lemma_order(l0, r0, l0);
            let t = spec_sym_difference(l, r.drop_first());
            lemma_sym_difference(l, r.drop_first());
            assert(d == seq![r0] + t);
            if l.contains(r0) {
                if r0 != l0 {
                    assert(l.drop_first().contains(r0));
                    K::lemma_order(l0, r0, l0);
                }
            }
            assert forall|x: K| #[trigger] d.contains(x) <==> (l.contains(x) != r.contains(x)) by {
                if d.contains(x) && x != r0 {
                    let i = choose|i: int| 0 <= i < d.len() && d[i] == x;
                    assert(t[i - 1] == x);
                }
                if t.contains(x) {
                    let i = choose|i: int| 0 <= i < t.len() && t[i] == x;
                    assert(d[i + 1] == x);
                }
                assert(d[0] == r0);
            }
            assert forall|i: int, j: int| 0 <= i < j < d.len() implies (#[trigger] d[i]).precedes(#[trigger] d[j]) by {
                assert(d[j] == t[j - 1]);
                if i > 0 {
                    assert(d[i] == t[i - 1]);
                } else {
                    assert(t.contains(t[j - 1]));
                    if l.contains(t[j - 1]) && t[j - 1] != l0 {
                        K::lemma_order(r0, l0, t[j - 1]);
                    }
                }
            }
        }
    }
}

} // verus!
