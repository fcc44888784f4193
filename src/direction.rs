use vstd::prelude::*;

use crate::coord::{add_spec, coord_of, sub_spec, Coord};

verus! {

/// An absolute direction on the grid. `Up` is towards larger `y`.
#[derive(Debug, Clone, Copy, PartialEq, Eq, Structural)]
pub enum Dir {
    Up,
    Down,
    Left,
    Right,
}

/// A direction relative to where an actor is facing.
#[derive(Debug, Clone, Copy, PartialEq, Eq, Structural)]
pub enum RelDir {
    Front,
    Back,
    Left,
    Right,
}

/// A quarter turn clockwise: Up, Right, Down, Left, Up.
pub open spec fn rotate_spec(d: Dir) -> Dir {
    match d {
        Dir::Up => Dir::Right,
        Dir::Right => Dir::Down,
        Dir::Down => Dir::Left,
        Dir::Left => Dir::Up,
    }
}

/// The absolute direction that lies at `r` from an actor facing `d`: no,
/// one, two or three quarter turns clockwise for Front, Right, Back and Left.
pub open spec fn apply_relative_spec(d: Dir, r: RelDir) -> Dir {
    match r {
        RelDir::Front => d,
        RelDir::Right => rotate_spec(d),
        RelDir::Back => rotate_spec(rotate_spec(d)),
        RelDir::Left => rotate_spec(rotate_spec(rotate_spec(d))),
    }
}

/// The unit step of a direction.
pub open spec fn step_of(d: Dir) -> Coord {
    match d {
        Dir::Up => coord_of(0, 1),
        Dir::Down => coord_of(0, -1i32),
        Dir::Left => coord_of(-1i32, 0),
        Dir::Right => coord_of(1, 0),
    }
}

/// The neighbour of `c` in direction `d`.
pub open spec fn apply_to_spec(d: Dir, c: Coord) -> Coord {
    add_spec(c, step_of(d))
}

/// The position at offset `rel` from `base`, for an actor facing `d`; the
/// offset is given as seen by an actor facing right.
pub open spec fn rel_coord_to_coord_spec(d: Dir, base: Coord, rel: Coord) -> Coord {
    match d {
        Dir::Up => add_spec(base, coord_of(vstd::wrapping::i32_specs::wrapping_sub(0, rel.y), rel.x)),
        Dir::Down => add_spec(base, coord_of(rel.y, vstd::wrapping::i32_specs::wrapping_sub(0, rel.x))),
        Dir::Right => add_spec(base, rel),
        Dir::Left => sub_spec(base, rel),
    }
}

impl Dir {
    pub fn rotate(self) -> (r: Dir)
        ensures
            r == rotate_spec(self),
    {
        match self {
            Dir::Up => Dir::Right,
            Dir::Right => Dir::Down,
            Dir::Down => Dir::Left,
            Dir::Left => Dir::Up,
        }
    }

    // Behind from Left is Right, Left of Left is Behind, Front of Front is Front.
    pub fn apply_relative(self, rel_dir: RelDir) -> (r: Dir)
        ensures
            r == apply_relative_spec(self, rel_dir),
    {
        match rel_dir {
            RelDir::Front => self,
            RelDir::Back => self.rotate().rotate(),
            RelDir::Left => self.rotate().rotate().rotate(),
            RelDir::Right => self.rotate(),
        }
    }

    pub fn apply_to(self, coord: Coord) -> (r: Coord)
        ensures
            r == apply_to_spec(self, coord),
    {
        match self {
            Dir::Up => coord.add(Coord::new(0, 1)),
            Dir::Down => coord.sub(Coord::new(0, 1)),
            Dir::Left => coord.sub(Coord::new(1, 0)),
            Dir::Right => coord.add(Coord::new(1, 0)),
        }
    }

    // (1,0) is to the right, (0,1) is down.
    pub fn rel_coord_to_coord(self, base_coord: Coord, rel_coord: Coord) -> (r: Coord)
        ensures
            r == rel_coord_to_coord_spec(self, base_coord, rel_coord),
    {
        match self {
            Dir::Up => base_coord.add(Coord::new(0i32.wrapping_sub(rel_coord.y), rel_coord.x)),
            Dir::Down => base_coord.add(Coord::new(rel_coord.y, 0i32.wrapping_sub(rel_coord.x))),
            Dir::Right => base_coord.add(rel_coord),
            Dir::Left => base_coord.sub(rel_coord),
        }
    }
}

/// Four quarter turns bring every direction back to itself.
pub proof fn lemma_rotate_four_times(d: Dir)
    ensures
        rotate_spec(rotate_spec(rotate_spec(rotate_spec(d)))) == d,
{
}

/// Turning right and then left leaves every direction as it was.
pub proof fn lemma_right_then_left(d: Dir)
    ensures
        apply_relative_spec(apply_relative_spec(d, RelDir::Right), RelDir::Left) == d,
{
}

} // verus!
