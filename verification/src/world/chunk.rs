use vstd::prelude::*;
use crate::render::materials::{packed, Material};
use crate::util::coords::{
    coord_to_index_3d, index_3d, index_3d_fits, lemma_index_3d_split, offset_coord_3d, Coord3D,
};
use crate::util::iter::{coord_iter_3d, CoordIter3D};

verus! {

/// The index of the LOD that takes up an entire chunk.
pub const MAX_LOD: usize = 7;

/// The side of a chunk in voxels (two to the power `MAX_LOD`).
pub const CHUNK_SIZE: usize = 128;

/// The number of voxels in a chunk.
pub const CHUNK_VOLUME: usize = 2097152;

/// The place that the `k`-th voxel of a chunk (in X-first order) takes in a cubic grid of side
/// `stride` when the chunk is placed at `offset`.
pub open spec fn chunk_target_index(k: int, stride: usize, offset: Coord3D) -> int {
    index_3d(
        k % 128 + offset.0,
        (k / 128) % 128 + offset.1,
        (k / 128) / 128 + offset.2,
        stride as int,
        stride as int,
    )
}

/// Whether placing a chunk at `offset` in a grid of side `stride` stays inside a sequence of
/// length `len`, with every coordinate and index computed without overflow.
pub open spec fn chunk_fits(len: int, stride: usize, offset: Coord3D) -> bool {
    &&& offset.0 + 127 <= usize::MAX
    &&& offset.1 + 127 <= usize::MAX
    &&& offset.2 + 127 <= usize::MAX
    &&& chunk_target_index(CHUNK_VOLUME - 1, stride, offset) < len
}

/// `target` after the voxels `0..n` of a chunk, whose `k`-th voxel is `voxel(k)`, have been
/// written in order to their places for a chunk placed at `offset` in a grid of side `stride`.
/// Where places coincide, the later voxel wins.
pub open spec fn chunk_scatter<T>(
    target: Seq<T>,
    stride: usize,
    offset: Coord3D,
    voxel: spec_fn(int) -> T,
    n: nat,
) -> Seq<T>
    decreases n,
{
    if n == 0 {
        target
    } else {
        chunk_scatter(target, stride, offset, voxel, (n - 1) as nat).update(
            chunk_target_index(n - 1, stride, offset),
            voxel(n - 1),
        )
    }
}

/// The voxels of a chunk stored in X-first order.
pub open spec fn stored_voxels<T>(values: Seq<T>) -> spec_fn(int) -> T {
    |k: int| values[k]
}

/// The same value for every voxel.
pub open spec fn uniform_voxels<T>(value: T) -> spec_fn(int) -> T {
    |k: int| value
}

proof fn lemma_chunk_scatter_len<T>(
    target: Seq<T>,
    stride: usize,
    offset: Coord3D,
    voxel: spec_fn(int) -> T,
    n: nat,
)
    requires
        n <= CHUNK_VOLUME,
        chunk_fits(target.len() as int, stride, offset),
        target.len() <= usize::MAX,
    ensures
        chunk_scatter(target, stride, offset, voxel, n).len() == target.len(),
    decreases n,
{
    if n > 0 {
        lemma_chunk_scatter_len(target, stride, offset, voxel, (n - 1) as nat);
        lemma_chunk_index_bound(n - 1, stride, offset);
    }
}

proof fn lemma_index_monotone(a: int, b: int, c: int, ma: int, mb: int, mc: int, s: int)
    requires
        0 <= a <= ma,
        0 <= b <= mb,
        0 <= c <= mc,
        s >= 0,
        mb <= usize::MAX,
        index_3d(ma, mb, mc, s, s) <= usize::MAX,
    ensures
        0 <= index_3d(a, b, c, s, s) <= index_3d(ma, mb, mc, s, s),
        index_3d_fits(a, b, c, s, s),
{
    assert(0 <= c * s <= mc * s) by (nonlinear_arith)
        requires 0 <= c <= mc, s >= 0;
    assert(0 <= (c * s + b) * s <= (mc * s + mb) * s) by (nonlinear_arith)
        requires 0 <= c * s <= mc * s, 0 <= b <= mb, s >= 0;
    if s >= 1 {
        assert(mc * s <= mc * s + mb <= (mc * s + mb) * s) by (nonlinear_arith)
            requires mc * s >= 0, mb >= 0, s >= 1;
    } else {
        assert(c * s == 0 && (c * s + b) * s == 0) by (nonlinear_arith)
            requires s == 0;
    }
}

/// Where the coordinates of the `k`-th voxel of a chunk lie.
proof fn lemma_chunk_coord(k: int)
    requires
        0 <= k < CHUNK_VOLUME,
    ensures
        0 <= k % 128 < 128,
        0 <= (k / 128) % 128 < 128,
        0 <= (k / 128) / 128 < 128,
{
    vstd::arithmetic::div_mod::lemma_mod_pos_bound(k, 128);
    vstd::arithmetic::div_mod::lemma_div_pos_is_pos(k, 128);
    vstd::arithmetic::div_mod::lemma_mod_pos_bound(k / 128, 128);
    vstd::arithmetic::div_mod::lemma_div_pos_is_pos(k / 128, 128);
    vstd::arithmetic::div_mod::lemma_div_denominator(k, 128, 128);
    vstd::arithmetic::div_mod::lemma_multiply_divide_lt(k, 16384, 128);
}

/// Every voxel of a chunk lands no further than the last one.
proof fn lemma_chunk_index_bound(k: int, stride: usize, offset: Coord3D)
    requires
        0 <= k < CHUNK_VOLUME,
        chunk_fits(usize::MAX + 1, stride, offset),

    ensures
        0 <= chunk_target_index(k, stride, offset) <= chunk_target_index(
            CHUNK_VOLUME - 1,
            stride,
            offset,
        ),
        index_3d_fits(
            k % 128 + offset.0,
            (k / 128) % 128 + offset.1,
            (k / 128) / 128 + offset.2,
            stride as int,
            stride as int,
        ),
{
    lemma_chunk_coord(k);
    vstd::arithmetic::div_mod::lemma_fundamental_div_mod_converse(CHUNK_VOLUME - 1, 128, 16383, 127);
    vstd::arithmetic::div_mod::lemma_fundamental_div_mod_converse(16383, 128, 127, 127);
    lemma_index_monotone(
        k % 128 + offset.0,
        (k / 128) % 128 + offset.1,
        (k / 128) / 128 + offset.2,
        127 + offset.0,
        127 + offset.1,
        127 + offset.2,
        stride as int,
    );
}

/// One chunk's worth of render data: for each voxel its packed material and the LOD level
/// at which the raytracer finds something there.
#[derive(Clone, PartialEq)]
pub struct PackedChunkData {
    pub minefield: Vec<u8>,
    pub materials: Vec<u32>,
}

impl PackedChunkData {
    pub fn new() -> (r: PackedChunkData)
        ensures
            r.minefield@ == Seq::new(CHUNK_VOLUME as nat, |i: int| 0u8),
            r.materials@ == Seq::new(CHUNK_VOLUME as nat, |i: int| 0u32),
    {
        let r = PackedChunkData { minefield: vec![0; CHUNK_VOLUME], materials: vec![0; CHUNK_VOLUME] };
        assert(r.minefield@ =~= Seq::new(CHUNK_VOLUME as nat, |i: int| 0u8));
        assert(r.materials@ =~= Seq::new(CHUNK_VOLUME as nat, |i: int| 0u32));
        r
    }

    /// Writes the packed materials of the chunk into a cubic grid of side `target_stride`, with
    /// the chunk placed at `target_offset`.
    pub fn copy_materials(&self, target: &mut [u32], target_stride: usize, target_offset: &Coord3D)
        requires
            self.materials@.len() >= CHUNK_VOLUME,
            chunk_fits(old(target)@.len() as int, target_stride, *target_offset),
        ensures
            final(target)@ == chunk_scatter(
                old(target)@,
                target_stride,
                *target_offset,
                stored_voxels(self.materials@),
                CHUNK_VOLUME as nat,
            ),
    {
        scatter_chunk(target, target_stride, target_offset, &self.materials);
    }

    /// Writes the minefield of the chunk into a cubic grid of side `target_stride`, with the
    /// chunk placed at `target_offset`.
    pub fn copy_minefield(&self, target: &mut [u8], target_stride: usize, target_offset: &Coord3D)
        requires
            self.minefield@.len() >= CHUNK_VOLUME,
            chunk_fits(old(target)@.len() as int, target_stride, *target_offset),
        ensures
            final(target)@ == chunk_scatter(
                old(target)@,
                target_stride,
                *target_offset,
                stored_voxels(self.minefield@),
                CHUNK_VOLUME as nat,
            ),
    {
        scatter_chunk(target, target_stride, target_offset, &self.minefield);
    }
}

/// A chunk as the renderer receives it: either empty at some scale, or with its data.
pub enum PackedChunk {
    Empty { scale: u8 },
    NonEmpty(PackedChunkData),
}

impl PackedChunk {
    /// Writes the packed materials of the chunk into a cubic grid of side `target_stride`, with
    /// the chunk placed at `target_offset`; an empty chunk writes zero (the packed form of air)
    /// everywhere.
    pub fn copy_materials(&self, target: &mut [u32], target_stride: usize, target_offset: &Coord3D)
        requires
            self matches PackedChunk::NonEmpty(data) ==> data.materials@.len() >= CHUNK_VOLUME,
            chunk_fits(old(target)@.len() as int, target_stride, *target_offset),
        ensures
            final(target)@ == chunk_scatter(
                old(target)@,
                target_stride,
                *target_offset,
                match self {
                    PackedChunk::NonEmpty(data) => stored_voxels(data.materials@),
                    PackedChunk::Empty { .. } => uniform_voxels(0u32),
                },
                CHUNK_VOLUME as nat,
            ),
    {
        if let Self::NonEmpty(data) = self {
            data.copy_materials(target, target_stride, target_offset);
        } else {
            // Write zero, the packed form of air, to every value.
            fill_chunk(target, target_stride, target_offset, 0);
        }
    }

    /// Writes the minefield of the chunk into a cubic grid of side `target_stride`, with the
    /// chunk placed at `target_offset`; an empty chunk writes a chunk-sized LOD everywhere.
    pub fn copy_minefield(&self, target: &mut [u8], target_stride: usize, target_offset: &Coord3D)
        requires
            self matches PackedChunk::NonEmpty(data) ==> data.minefield@.len() >= CHUNK_VOLUME,
            self matches PackedChunk::Empty { scale } ==> MAX_LOD + *scale <= u8::MAX,
            chunk_fits(old(target)@.len() as int, target_stride, *target_offset),
        ensures
            final(target)@ == chunk_scatter(
                old(target)@,
                target_stride,
                *target_offset,
                match self {
                    PackedChunk::NonEmpty(data) => stored_voxels(data.minefield@),
                    PackedChunk::Empty { scale } => uniform_voxels((MAX_LOD + *scale) as u8),
                },
                CHUNK_VOLUME as nat,
            ),
    {
        match self {
            Self::NonEmpty(data) => {
                data.copy_minefield(target, target_stride, target_offset);
            },
            Self::Empty { scale } => {
                // Write a chunk-sized LOD to every value.
                fill_chunk(target, target_stride, target_offset, MAX_LOD as u8 + *scale);
            },
        }
    }
}

/// Walks the voxels of a chunk and writes one value to each of their places in the target.
fn fill_chunk<T: Copy>(target: &mut [T], target_stride: usize, target_offset: &Coord3D, value: T)
    requires
        chunk_fits(old(target)@.len() as int, target_stride, *target_offset),
    ensures
        final(target)@ == chunk_scatter(
            old(target)@,
            target_stride,
            *target_offset,
            uniform_voxels(value),
            CHUNK_VOLUME as nat,
        ),
{
    let ghost original = target@;
    // Taking the length brings its bound (it fits in a usize) into the proof.
    let _target_len = target.len();
    let ghost voxel = uniform_voxels(value);
    let mut iter = coord_iter_3d(CHUNK_SIZE);
    let ghost mut k: int = 0;
    loop
        invariant_except_break
            iter.in_grid(),
            iter.size() == CHUNK_SIZE,
            iter.position() == k,
        invariant
            chunk_fits(original.len() as int, target_stride, *target_offset),
            original.len() <= usize::MAX,
            0 <= k <= CHUNK_VOLUME,
            target@ == chunk_scatter(original, target_stride, *target_offset, voxel, k as nat),
            voxel == uniform_voxels(value),
        ensures
            k == CHUNK_VOLUME,
        decreases CHUNK_VOLUME - k,
    {
        proof {
            iter.lemma_next_in_order();
            lemma_chunk_scatter_len(original, target_stride, *target_offset, voxel, k as nat);
            let s = iter.size() as int;
            assert(s * s * s == CHUNK_VOLUME) by (nonlinear_arith)
                requires s == 128;
        }
        let next = iter.next();
        match next {
            None => {
                break;
            },
            Some(coord) => {
                proof {
                    lemma_index_3d_split(coord.0 as int, coord.1 as int, coord.2 as int, 128, 128);
                    lemma_chunk_index_bound(k, target_stride, *target_offset);
                }
                let target_index = coord_to_index_3d(
                    &offset_coord_3d(&coord, target_offset),
                    target_stride,
                );
                target[target_index] = value;
                proof {
                    k = k + 1;
                }
            },
        }
    }
}

/// A chunk as the world holds it: one material per voxel, at a scale.
#[derive(Clone, PartialEq)]
pub struct UnpackedChunkData {
    pub materials: Vec<Material>,
    pub scale: u8,
}

impl UnpackedChunkData {
    /// Scale is what sized block one voxel in this chunk represents. 0 = smallest unit, 1 = double,
    /// 2 = quadruple, 3 = 8x and so on. It basically offsets every LOD value computed for the
    /// minefield in the pack function.
    pub fn new(scale: u8) -> (r: UnpackedChunkData)
        ensures
            r.materials@ == Seq::new(CHUNK_VOLUME as nat, |i: int| Material::air_spec()),
            r.scale == scale,
    {
        let r = UnpackedChunkData { materials: vec![Material::air(); CHUNK_VOLUME], scale };
        assert(r.materials@ =~= Seq::new(CHUNK_VOLUME as nat, |i: int| Material::air_spec()));
        r
    }

    /// Sets the voxel at `coord` (X first, within a chunk of side `CHUNK_SIZE`).
    pub fn set_block(&mut self, coord: &Coord3D, value: Material)
        requires
            index_3d_fits(coord.0 as int, coord.1 as int, coord.2 as int, 128, 128),
            index_3d(coord.0 as int, coord.1 as int, coord.2 as int, 128, 128)
                < old(self).materials@.len(),
        ensures
            final(self).materials@ == old(self).materials@.update(
                index_3d(coord.0 as int, coord.1 as int, coord.2 as int, 128, 128),
                value,
            ),
            final(self).scale == old(self).scale,
    {
        let index = coord_to_index_3d(coord, CHUNK_SIZE);
        self.materials.set(index, value);
    }

    /// Sets every voxel of the chunk to `value`.
    pub fn fill(&mut self, value: &Material)
        requires
            old(self).materials@.len() >= CHUNK_VOLUME,
        ensures
            final(self).materials@.len() == old(self).materials@.len(),
            forall|i: int| 0 <= i < CHUNK_VOLUME ==> final(self).materials@[i] == *value,
            forall|i: int|
                CHUNK_VOLUME <= i < old(self).materials@.len() ==> final(self).materials@[i]
                    == old(self).materials@[i],
            final(self).scale == old(self).scale,
    {
        let mut index: usize = 0;
        while index < CHUNK_VOLUME
            invariant
                index <= CHUNK_VOLUME,
                old(self).materials@.len() >= CHUNK_VOLUME,
                self.materials@.len() == old(self).materials@.len(),
                forall|i: int| 0 <= i < index ==> self.materials@[i] == *value,
                forall|i: int|
                    index <= i < old(self).materials@.len() ==> self.materials@[i]
                        == old(self).materials@[i],
                self.scale == old(self).scale,
            decreases CHUNK_VOLUME - index,
        {
            self.materials.set(index, value.clone());
            index = index + 1;
        }
    }
}

/// Walks the voxels of a chunk and writes each one to its place in the target.
fn scatter_chunk<T: Copy>(target: &mut [T], target_stride: usize, target_offset: &Coord3D, source: &Vec<T>)
    requires
        source@.len() >= CHUNK_VOLUME,
        chunk_fits(old(target)@.len() as int, target_stride, *target_offset),
    ensures
        final(target)@ == chunk_scatter(
            old(target)@,
            target_stride,
            *target_offset,
            stored_voxels(source@),
            CHUNK_VOLUME as nat,
        ),
{
    let ghost original = target@;
    // Taking the length brings its bound (it fits in a usize) into the proof.
    let _target_len = target.len();
    let ghost voxel = stored_voxels(source@);
    let mut iter = coord_iter_3d(CHUNK_SIZE);
    let ghost mut k: int = 0;
    loop
        invariant_except_break
            iter.in_grid(),
            iter.size() == CHUNK_SIZE,
            iter.position() == k,
        invariant
            source@.len() >= CHUNK_VOLUME,
            chunk_fits(original.len() as int, target_stride, *target_offset),
            original.len() <= usize::MAX,
            0 <= k <= CHUNK_VOLUME,
            target@ == chunk_scatter(original, target_stride, *target_offset, voxel, k as nat),
            voxel == stored_voxels(source@),
        ensures
            k == CHUNK_VOLUME,
        decreases CHUNK_VOLUME - k,
    {
        proof {
            iter.lemma_next_in_order();
            lemma_chunk_scatter_len(original, target_stride, *target_offset, voxel, k as nat);
            let s = iter.size() as int;
            assert(s * s * s == CHUNK_VOLUME) by (nonlinear_arith)
                requires s == 128;
        }
        let next = iter.next();
        match next {
            None => {
                break;
            },
            Some(coord) => {
                proof {
                    lemma_index_3d_split(coord.0 as int, coord.1 as int, coord.2 as int, 128, 128);
                    lemma_chunk_index_bound(k, target_stride, *target_offset);
                }
                let source_index = coord_to_index_3d(&coord, CHUNK_SIZE);
                let target_coord = offset_coord_3d(&coord, target_offset);
                let target_index = coord_to_index_3d(&target_coord, target_stride);
                target[target_index] = source[source_index];
                proof {
                    k = k + 1;
                }
            },
        }
    }
}

} // verus!
