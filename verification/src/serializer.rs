use crate::chunk::Chunk;
use crate::smooth_grid::world_encoding;
use crate::smooth_grid::SmoothGrid;
use vstd::prelude::*;

verus! {

/// What has an encoded form.
pub trait TerrainSerializer {
    /// The encoded form.
    spec fn encoding(&self) -> Seq<u8>;

    /// Writes the encoded form.
    fn encode(&self) -> (bytes: Vec<u8>)
        ensures
            bytes@ == self.encoding(),
    ;
}

impl TerrainSerializer for Chunk {
    open spec fn encoding(&self) -> Seq<u8> {
        self@.encoding()
    }

    fn encode(&self) -> (bytes: Vec<u8>) {
        Chunk::encode(self)
    }
}

impl TerrainSerializer for SmoothGrid {
    open spec fn encoding(&self) -> Seq<u8> {
        world_encoding(self@)
    }

    fn encode(&self) -> (bytes: Vec<u8>) {
        SmoothGrid::encode(self)
    }
}

/// Two chunks that hold the same voxels at the same coordinates over the
/// same base material have the same encoded form.
pub proof fn lemma_chunk_encoding_is_determined(first: Chunk, second: Chunk)
    requires
        first@ == second@,
    ensures
        first.encoding() == second.encoding(),
{
}

/// Two worlds that hold the same chunks at the same positions have the
/// same encoded form, however each came to hold them.
pub proof fn lemma_world_encoding_is_determined(first: SmoothGrid, second: SmoothGrid)
    requires
        first@ == second@,
    ensures
        first.encoding() == second.encoding(),
{
}

} // verus!
