use vstd::prelude::*;
use crate::util::coords::{coord_to_index_2d, index_2d};
use crate::world::chunk::CHUNK_SIZE;

verus! {

/// The number of columns of a chunk.
pub const CHUNK_AREA: usize = 16384;

/// The terrain height of each column of a chunk, X first.
pub struct Heightmap {
    pub(crate) data: Vec<isize>,
}

impl Heightmap {
    /// The heights, one per column, X first.
    pub closed spec fn heights(&self) -> Seq<isize> {
        self.data@
    }

    /// A heightmap of zero heights.
    pub fn new() -> (r: Heightmap)
        ensures
            r.heights() == Seq::new(CHUNK_AREA as nat, |i: int| 0isize),
    {
        let r = Heightmap { data: vec![0; CHUNK_SIZE * CHUNK_SIZE] };
        assert(r.data@ =~= Seq::new(CHUNK_AREA as nat, |i: int| 0isize));
        r
    }

    /// Sets the height of the column stored at `index`.
    pub(crate) fn set(&mut self, index: usize, height: isize)
        requires
            index < old(self).heights().len(),
        ensures
            final(self).heights() == old(self).heights().update(index as int, height),
    {
        self.data.set(index, height);
    }

    /// The height of the column at `coord`.
    pub fn get(&self, coord: &(usize, usize)) -> (r: isize)
        requires
            index_2d(coord.0 as int, coord.1 as int, 128) < self.heights().len(),
        ensures
            r == self.heights()[index_2d(coord.0 as int, coord.1 as int, 128)],
    {
        // Taking the length brings its bound (it fits in a usize) into the proof.
        let _len = self.data.len();
        self.data[coord_to_index_2d(coord, CHUNK_SIZE)]
    }
}

} // verus!
