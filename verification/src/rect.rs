//! An axis-aligned rectangle given by its four edges.

use vstd::prelude::*;

verus! {

pub struct Rect<T> {
    pub left: T,
    pub top: T,
    pub right: T,
    pub bottom: T,
}

impl<T> Rect<T> {
    pub fn new(left: T, top: T, right: T, bottom: T) -> (r: Self)
        ensures
            r.left == left,
            r.top == top,
            r.right == right,
            r.bottom == bottom,
    {
        Self { left, top, right, bottom }
    }
}

impl<T> From<(T, T, T, T)> for Rect<T> {
    fn from(tuple: (T, T, T, T)) -> (r: Self) {
        Rect::new(tuple.0, tuple.1, tuple.2, tuple.3)
    }
}

impl<T> vstd::std_specs::convert::FromSpecImpl<(T, T, T, T)> for Rect<T> {
    open spec fn obeys_from_spec() -> bool {
        true
    }

    open spec fn from_spec(tuple: (T, T, T, T)) -> Self {
        Rect { left: tuple.0, top: tuple.1, right: tuple.2, bottom: tuple.3 }
    }
}

} // verus!
