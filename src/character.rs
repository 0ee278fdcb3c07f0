use vstd::prelude::*;
use crate::location::Location;
use crate::position::Position;

verus! {

/// What a document knows of one of its characters: its place in the buffer,
/// its display width, its logical location and its rendered position.
#[derive(Clone, Copy, PartialEq, Eq, Structural, Debug)]
pub struct Character {
    pub index: usize,
    pub char: char,
    pub width: u32,
    pub position: Position,
    pub location: Location,
}

} // verus!
