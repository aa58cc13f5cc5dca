//! A chunk: a fixed-size cubic container of optional blocks plus an opaque
//! metadata value.
//!
//! A chunk is self-contained: it does not know its own grid position (the
//! chunk store supplies that context). Cells are addressed by
//! [`ChunkBlockPos`], which is already validated, so indexing cannot fail.

use vstd::prelude::*;
use crate::block::Block;
use crate::coords::{local_in_range, scan_index, ChunkBlockPos, LocalCoords};
use crate::coords::lemma_index_round_trip;

verus! {

/// A cubic `CHUNK_SIZE^3` container of optional blocks, with a metadata
/// value of the caller's choosing attached.
pub struct Chunk<M> {
    metadata: M,
    blocks: Vec<Option<Block>>,
}

impl<M> Chunk<M> {
    #[verifier::type_invariant]
    spec fn inv(self) -> bool {
        self.blocks.len() == 4096
    }

    /// The metadata value this chunk was created with.
    pub closed spec fn meta(self) -> M {
        self.metadata
    }

    /// The content of the cell at local coordinates `l`.
    pub closed spec fn cell(self, l: LocalCoords) -> Option<Block>
        recommends
            local_in_range(l),
    {
        self.blocks@[scan_index(l)]
    }

    /// A chunk with every cell empty.
    pub fn new(metadata: M) -> (r: Self)
        ensures
            r.meta() == metadata,
            forall|l: LocalCoords| local_in_range(l) ==> #[trigger] r.cell(l) is None,
    {
        let mut blocks: Vec<Option<Block>> = Vec::new();
        for i in 0..4096usize
            invariant
                blocks.len() == i,
                forall|j: int| 0 <= j < i ==> #[trigger] blocks@[j] is None,
        {
            blocks.push(None);
        }
        let r = Self { metadata, blocks };
        proof {
            assert forall|l: LocalCoords| local_in_range(l) implies #[trigger] r.cell(l)
                is None by {
                lemma_index_round_trip(l);
            }
        }
        r
    }

    pub fn get_metadata(&self) -> (r: &M)
        ensures
            *r == self.meta(),
    {
        &self.metadata
    }

    /// Read access to the cell at `pos`.
    pub fn get(&self, pos: &ChunkBlockPos) -> (r: &Option<Block>)
        ensures
            *r == self.cell(pos@),
    {
        proof {
            use_type_invariant(self);
        }
        let i = pos.index();
        &self.blocks[i]
    }

    /// Overwrite the cell at `pos`; every other cell and the metadata keep
    /// their value.
    pub fn set(&mut self, pos: &ChunkBlockPos, value: Option<Block>)
        ensures
            final(self).meta() == old(self).meta(),
            final(self).cell(pos@) == value,
            forall|l: LocalCoords|
                local_in_range(l) && l != pos@ ==> #[trigger] final(self).cell(l) == old(
                    self,
                ).cell(l),
    {
        proof {
            use_type_invariant(&*self);
            use_type_invariant(pos);
        }
        let i = pos.index();
        self.blocks[i] = value;
        proof {
            lemma_index_round_trip(pos@);
            assert forall|l: LocalCoords| local_in_range(l) && l != pos@ implies #[trigger] self
                .cell(l) == old(self).cell(l) by {
                lemma_index_round_trip(l);
            }
        }
    }
}

} // verus!
