use vstd::prelude::*;

verus! {

/// A point in world units, which coincide with pixel units.
#[derive(Clone, Copy, Debug, PartialEq, Eq, Structural)]
pub struct Position {
    pub x: u32,
    pub y: u32,
}

impl Position {
    pub fn new(x: u32, y: u32) -> (r: Position)
        ensures
            r.x == x,
            r.y == y,
    {
        Position { x, y }
    }
}

impl From<(u32, u32)> for Position {
    fn from(position: (u32, u32)) -> (r: Position)
        ensures
            r.x == position.0,
            r.y == position.1,
    {
        Position { x: position.0, y: position.1 }
    }
}

impl vstd::std_specs::convert::FromSpecImpl<(u32, u32)> for Position {
    open spec fn obeys_from_spec() -> bool {
        true
    }

    open spec fn from_spec(position: (u32, u32)) -> Position {
        Position { x: position.0, y: position.1 }
    }
}

/// An axis-aligned rectangle: its top-left corner and its extent.
#[derive(Clone, Copy, Debug, PartialEq, Eq, Structural)]
pub struct Square {
    pub length: u32,
    pub height: u32,
    pub position: Position,
}

impl Square {
    pub fn new(length: u32, height: u32, position: Position) -> (r: Square)
        ensures
            r.length == length,
            r.height == height,
            r.position == position,
    {
        Square { length, height, position }
    }
}

/// A segment between two positions, handed to the line rasteriser.
#[derive(Clone, Copy, Debug, PartialEq, Eq, Structural)]
pub struct Line {
    pub pos_1: Position,
    pub pos_2: Position,
}

impl Line {
    pub fn new(pos_1: Position, pos_2: Position) -> (r: Line)
        ensures
            r.pos_1 == pos_1,
            r.pos_2 == pos_2,
    {
        Line { pos_1, pos_2 }
    }
}

} // verus!
