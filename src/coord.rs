use vstd::prelude::*;

verus! {

/// An integer grid position. Arithmetic on positions wraps around at the
/// bounds of `i32`, so that every step is defined.
#[derive(Debug, Clone, Copy, PartialEq, Eq, Structural, Hash)]
pub struct Coord {
    pub x: i32,
    pub y: i32,
}

/// The position `(x, y)`.
pub open spec fn coord_of(x: i32, y: i32) -> Coord {
    Coord { x, y }
}

/// Component-wise sum, wrapping at the bounds of `i32`.
pub open spec fn add_spec(a: Coord, b: Coord) -> Coord {
    Coord {
        x: vstd::wrapping::i32_specs::wrapping_add(a.x, b.x),
        y: vstd::wrapping::i32_specs::wrapping_add(a.y, b.y),
    }
}

/// Component-wise difference, wrapping at the bounds of `i32`.
pub open spec fn sub_spec(a: Coord, b: Coord) -> Coord {
    Coord {
        x: vstd::wrapping::i32_specs::wrapping_sub(a.x, b.x),
        y: vstd::wrapping::i32_specs::wrapping_sub(a.y, b.y),
    }
}

impl Coord {
    pub fn new(x: i32, y: i32) -> (r: Coord)
        ensures
            r == coord_of(x, y),
    {
        Coord { x, y }
    }

    /// The key under which a position is stored in the board's index.
    pub open spec fn key(self) -> (i32, i32) {
        (self.x, self.y)
    }

    pub fn as_key(&self) -> (r: (i32, i32))
        ensures
            r == self.key(),
    {
        (self.x, self.y)
    }

    pub fn add(self, other: Coord) -> (r: Coord)
        ensures
            r == add_spec(self, other),
    {
        Coord { x: self.x.wrapping_add(other.x), y: self.y.wrapping_add(other.y) }
    }

    pub fn sub(self, other: Coord) -> (r: Coord)
        ensures
            r == sub_spec(self, other),
    {
        Coord { x: self.x.wrapping_sub(other.x), y: self.y.wrapping_sub(other.y) }
    }
}

} // verus!
