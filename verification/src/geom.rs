use vstd::prelude::*;

verus! {

/// An immutable 2D integer position. Equality and hashing are structural
/// (the `x`, `y` pair); positions are created ad hoc and never mutated.
#[derive(Copy, Clone, PartialEq, Eq, Structural, Hash, Debug)]
pub struct Position {
    pub x: i32,
    pub y: i32,
}

impl Position {
    /// A new position translated by `factor`, component-wise.
    pub fn shift(&self, factor: &Position) -> (r: Position)
        requires
            i32::MIN <= self.x + factor.x <= i32::MAX,
            i32::MIN <= self.y + factor.y <= i32::MAX,
        ensures
            r.x == self.x + factor.x,
            r.y == self.y + factor.y,
    {
        Position { x: self.x + factor.x, y: self.y + factor.y }
    }
}

/// The rectangular extent `[0, width) x [0, height)` of a world's grid,
/// immutable once a world is constructed.
#[derive(Copy, Clone, PartialEq, Eq, Structural, Debug)]
pub struct Dimension {
    pub width: i32,
    pub height: i32,
}

impl Dimension {
    pub fn new(width: i32, height: i32) -> (r: Dimension)
        ensures
            r.width == width,
            r.height == height,
    {
        Dimension { width, height }
    }
}

} // verus!
