use vstd::prelude::*;
use std::collections::HashMap;
use crate::util::coords::{SignedCoord2D, SignedCoord3D};
use crate::world::chunk::UnpackedChunkData;
use crate::world::heightmap::Heightmap;

verus! {

/// The chunks of the world at each LOD and the heightmaps of its columns, each kept by its
/// coordinate, together with scratch chunks lent out while generating.
pub struct World {
    lods: Vec<HashMap<SignedCoord3D, UnpackedChunkData>>,
    heightmaps: HashMap<SignedCoord2D, Heightmap>,
    temp_chunks: Vec<UnpackedChunkData>,
    temp_chunks_in_use: usize,
}

impl World {
    /// The number of LODs that hold chunks.
    pub closed spec fn num_lods(&self) -> nat {
        self.lods@.len()
    }

    /// The number of stored heightmaps.
    pub closed spec fn num_heightmaps(&self) -> nat {
        self.heightmaps@.len()
    }

    /// The number of scratch chunks in use.
    pub closed spec fn scratch_in_use(&self) -> nat {
        self.temp_chunks_in_use as nat
    }

    /// A world that holds nothing yet.
    pub fn new() -> (r: World)
        ensures
            r.num_lods() == 0,
            r.num_heightmaps() == 0,
            r.scratch_in_use() == 0,
    {
        World {
            lods: Vec::new(),
            heightmaps: HashMap::new(),
            temp_chunks: Vec::new(),
            temp_chunks_in_use: 0,
        }
    }
}

/// A world that holds nothing yet.
pub fn make_world() -> (r: World)
    ensures
        r.num_lods() == 0,
        r.num_heightmaps() == 0,
        r.scratch_in_use() == 0,
{
    World::new()
}

} // verus!
