//! Resource blocks that are not attached to any organism.

use vstd::prelude::*;

verus! {

/// What a free block is: food restores energy when eaten, a wall is inert.
#[derive(Clone, Copy, Debug, PartialEq, Eq, Structural)]
pub enum BlockType {
    Food,
    Wall,
}

/// A block resting at an absolute world position.
#[derive(Clone, Copy, Debug, PartialEq, Eq, Structural)]
pub struct Block {
    pub block_type: BlockType,
    pub x: i8,
    pub y: i8,
    pub z: i8,
}

impl Block {
    pub open spec fn is_food(&self) -> bool {
        self.block_type == BlockType::Food
    }

    pub fn new(block_type: BlockType, x: i8, y: i8, z: i8) -> (b: Block)
        ensures
            b == (Block { block_type, x, y, z }),
    {
        Block { block_type, x, y, z }
    }
}

} // verus!
