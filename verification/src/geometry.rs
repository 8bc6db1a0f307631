//! Points and sizes in the plane.

use vstd::prelude::*;

verus! {

/// An ordered pair, used for positions and for sizes alike.
pub struct Vector2D<T: Ord + Copy> {
    pub x: T,
    pub y: T,
}

impl<T: Ord + Copy> Vector2D<T> {
    pub fn new(x: T, y: T) -> (v: Self)
        ensures
            v.x == x,
            v.y == y,
    {
        Self { x, y }
    }

    pub fn x(&self) -> (x: T)
        ensures
            x == self.x,
    {
        self.x
    }

    pub fn y(&self) -> (y: T)
        ensures
            y == self.y,
    {
        self.y
    }
}

} // verus!
