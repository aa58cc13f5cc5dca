//! Blocks: the opaque payload stored in a chunk cell.
//!
//! The rest of the library never interprets a block beyond present/absent; a
//! cell of a chunk holds `Option<Block>`.

use vstd::prelude::*;

verus! {

/// The kind tag of a block.
#[derive(Clone, Copy, PartialEq, Eq, Structural, Debug, Default)]
pub enum BlockType {
    #[default]
    AIR,
    BEDROCK,
    GRASS,
}

/// A single block: a type tag (room for per-block data later).
#[derive(Clone, Copy, PartialEq, Eq, Structural, Debug, Default)]
pub struct Block {
    block_type: BlockType,
}

impl Block {
    /// The block's type tag.
    pub closed spec fn ty(self) -> BlockType {
        self.block_type
    }

    pub fn new(block_type: BlockType) -> (r: Self)
        ensures
            r.ty() == block_type,
    {
        Self { block_type }
    }

    pub fn get_block_type(&self) -> (r: BlockType)
        ensures
            r == self.ty(),
    {
        self.block_type
    }
}

} // verus!
