use vstd::prelude::*;

verus! {

/// A rendered coordinate, in display columns (`x`) and rows (`y`).
#[derive(Clone, Copy, PartialEq, Eq, Structural, Debug)]
pub struct Position {
    pub x: u32,
    pub y: u32,
}

impl Position {
    /// One row up, stopping at row 0.
    pub fn top(&self) -> (r: Position)
        ensures
            r.x == self.x,
            r.y == if self.y == 0 { 0 } else { (self.y - 1) as u32 },
    {
        Position { x: self.x, y: self.y.saturating_sub(1) }
    }

    /// One column right, stopping at the largest column.
    pub fn right(&self) -> (r: Position)
        ensures
            r.x == if self.x == u32::MAX { u32::MAX } else { (self.x + 1) as u32 },
            r.y == self.y,
    {
        Position { x: self.x.saturating_add(1), y: self.y }
    }

    /// One row down, stopping at the largest row.
    pub fn bottom(&self) -> (r: Position)
        ensures
            r.x == self.x,
            r.y == if self.y == u32::MAX { u32::MAX } else { (self.y + 1) as u32 },
    {
        Position { x: self.x, y: self.y.saturating_add(1) }
    }

    /// One column left, stopping at column 0.
    pub fn left(&self) -> (r: Position)
        ensures
            r.x == if self.x == 0 { 0 } else { (self.x - 1) as u32 },
            r.y == self.y,
    {
        Position { x: self.x.saturating_sub(1), y: self.y }
    }

    pub fn new(x: u32, y: u32) -> (r: Position)
        ensures
            r == (Position { x, y }),
    {
        Position { x, y }
    }
}

} // verus!
