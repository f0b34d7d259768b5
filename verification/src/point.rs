//! A point whose two coordinates may have different types.

use vstd::prelude::*;

verus! {

/// A pair of coordinates of possibly different types.
pub struct Point<T, U> {
    pub x: T,
    pub y: U,
}

impl<T, U> Point<T, U> {
    /// Combine two points: keep our `x`, take the other's `y`.
    pub fn mixup<V, W>(self, other: Point<V, W>) -> (r: Point<T, W>)
        ensures
            r.x == self.x,
            r.y == other.y,
    {
        Point { x: self.x, y: other.y }
    }
}

} // verus!
