//! A two-dimensional point.

use vstd::prelude::*;

verus! {

/// A point with coordinates of type `T`.
#[derive(Clone, Copy, Debug, PartialEq, Eq)]
pub struct MyPoint<T> {
    pub x: T,
    pub y: T,
}

impl<T> MyPoint<T> {
    /// Builds the point `(x, y)`.
    pub fn new(x: T, y: T) -> (p: Self)
        ensures
            p.x == x,
            p.y == y,
    {
        MyPoint { x, y }
    }
}

} // verus!
