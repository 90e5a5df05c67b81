//! The axes and the six directions of the block grid.

use vstd::prelude::*;

verus! {

/// One of the three axes.
#[derive(Debug, Copy, Clone, PartialEq, Eq, Hash, Structural)]
pub enum Axis {
    X,
    Y,
    Z,
}

impl Axis {
    /// The lower-case name of the axis.
    pub fn as_string(&self) -> (r: &'static str)
        ensures
            r@ == match *self {
                Axis::X => "x"@,
                Axis::Y => "y"@,
                Axis::Z => "z"@,
            },
    {
        match *self {
            Axis::X => "x",
            Axis::Y => "y",
            Axis::Z => "z",
        }
    }

    /// The place of the axis in the order in which rotations are applied:
    /// y first, then x, then z.
    pub fn index(&self) -> (r: usize)
        ensures
            r == match *self {
                Axis::Y => 0usize,
                Axis::X => 1usize,
                Axis::Z => 2usize,
            },
    {
        match *self {
            Axis::Y => 0,
            Axis::Z => 2,
            Axis::X => 1,
        }
    }
}

impl Default for Axis {
    fn default() -> (r: Axis)
        ensures
            r == Axis::X,
    {
        Axis::X
    }
}

/// One of the six directions in which a block has a face.
#[derive(Debug, Copy, Clone, PartialEq, Eq, Hash, Structural)]
pub enum Direction {
    Down,
    Up,
    North,
    South,
    West,
    East,
}

/// A kind of block, named by its identifier.
#[derive(Debug, Clone, PartialEq, Eq, Hash)]
pub struct BlockType {
    pub id: String,
}

impl BlockType {
    /// The directory, below the assets, that holds the textures of blocks.
    pub fn get_texture_paths(&self) -> (r: &'static str)
        ensures
            r@ == "1.20.4/assets/minecraft/textures/block/"@,
    {
        "1.20.4/assets/minecraft/textures/block/"
    }
}

} // verus!
