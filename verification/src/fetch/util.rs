use vstd::prelude::*;

verus! {

/// Clones the values behind a tuple of references: `(&T, &U)` becomes `(T, U)`.
pub trait TupleCloned: Sized {
    /// The tuple of owned values.
    type Cloned;

    /// Whether `r` holds clones of the values behind `self`.
    spec fn is_cloned(self, r: Self::Cloned) -> bool;

    /// Clones each value.
    fn cloned(self) -> (r: Self::Cloned)
        ensures
            self.is_cloned(r),
    ;
}

impl<'a, T: Clone> TupleCloned for &'a T {
    type Cloned = T;

    open spec fn is_cloned(self, r: T) -> bool {
        vstd::pervasive::cloned(*self, r)
    }

    fn cloned(self) -> (r: T) {
        T::clone(self)
    }
}

impl<A: TupleCloned> TupleCloned for (A,) {
    type Cloned = (A::Cloned,);

    open spec fn is_cloned(self, r: (A::Cloned,)) -> bool {
        self.0.is_cloned(r.0)
    }

    fn cloned(self) -> (r: (A::Cloned,)) {
        (self.0.cloned(),)
    }
}

impl<A: TupleCloned, B: TupleCloned> TupleCloned for (A, B) {
    type Cloned = (A::Cloned, B::Cloned);

    open spec fn is_cloned(self, r: (A::Cloned, B::Cloned)) -> bool {
        self.0.is_cloned(r.0) && self.1.is_cloned(r.1)
    }

    fn cloned(self) -> (r: (A::Cloned, B::Cloned)) {
        (self.0.cloned(), self.1.cloned())
    }
}

impl<A: TupleCloned, B: TupleCloned, C: TupleCloned> TupleCloned for (A, B, C) {
    type Cloned = (A::Cloned, B::Cloned, C::Cloned);

    open spec fn is_cloned(self, r: (A::Cloned, B::Cloned, C::Cloned)) -> bool {
        self.0.is_cloned(r.0) && self.1.is_cloned(r.1) && self.2.is_cloned(r.2)
    }

    fn cloned(self) -> (r: (A::Cloned, B::Cloned, C::Cloned)) {
        (self.0.cloned(), self.1.cloned(), self.2.cloned())
    }
}

/// Appends a value to either end of a tuple.
pub trait TupleCombine<T>: Sized {
    /// The tuple with the value at its end.
    type PushRight;

    /// The tuple with the value at its start.
    type PushLeft;

    /// The tuple with `value` appended.
    spec fn spec_push_right(self, value: T) -> Self::PushRight;

    /// The tuple with `value` prepended.
    spec fn spec_push_left(self, value: T) -> Self::PushLeft;

    /// Appends `value`.
    fn push_right(self, value: T) -> (r: Self::PushRight)
        ensures
            r == self.spec_push_right(value),
    ;

    /// Prepends `value`.
    fn push_left(self, value: T) -> (r: Self::PushLeft)
        ensures
            r == self.spec_push_left(value),
    ;
}

impl<T> TupleCombine<T> for () {
    type PushRight = (T,);
    type PushLeft = (T,);

    open spec fn spec_push_right(self, value: T) -> (T,) {
        (value,)
    }

    open spec fn spec_push_left(self, value: T) -> (T,) {
        (value,)
    }

    fn push_right(self, value: T) -> (r: (T,)) {
        (value,)
    }

    fn push_left(self, value: T) -> (r: (T,)) {
        (value,)
    }
}

impl<A, T> TupleCombine<T> for (A,) {
    type PushRight = (A, T);
    type PushLeft = (T, A);

    open spec fn spec_push_right(self, value: T) -> (A, T) {
        (self.0, value)
    }

    open spec fn spec_push_left(self, value: T) -> (T, A) {
        (value, self.0)
    }

    fn push_right(self, value: T) -> (r: (A, T)) {
        (self.0, value)
    }

    fn push_left(self, value: T) -> (r: (T, A)) {
        (value, self.0)
    }
}

impl<A, B, T> TupleCombine<T> for (A, B) {
    type PushRight = (A, B, T);
    type PushLeft = (T, A, B);

    open spec fn spec_push_right(self, value: T) -> (A, B, T) {
        (self.0, self.1, value)
    }

    open spec fn spec_push_left(self, value: T) -> (T, A, B) {
        (value, self.0, self.1)
    }

    fn push_right(self, value: T) -> (r: (A, B, T)) {
        (self.0, self.1, value)
    }

    fn push_left(self, value: T) -> (r: (T, A, B)) {
        (value, self.0, self.1)
    }
}

impl<A, B, C, T> TupleCombine<T> for (A, B, C) {
    type PushRight = (A, B, C, T);
    type PushLeft = (T, A, B, C);

    open spec fn spec_push_right(self, value: T) -> (A, B, C, T) {
        (self.0, self.1, self.2, value)
    }

    open spec fn spec_push_left(self, value: T) -> (T, A, B, C) {
        (value, self.0, self.1, self.2)
    }

    fn push_right(self, value: T) -> (r: (A, B, C, T)) {
        (self.0, self.1, self.2, value)
    }

    fn push_left(self, value: T) -> (r: (T, A, B, C)) {
        (value, self.0, self.1, self.2)
    }
}

} // verus!
