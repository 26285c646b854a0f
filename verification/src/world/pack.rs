use vstd::prelude::*;
use crate::render::materials::{packed, Material};
use crate::util::coords::{
    coord_to_index_3d, index_3d, index_3d_fits, index_to_coord_3d, lemma_index_3d_split,
    shrink_coord_3d, Coord3D,
};
use crate::world::chunk::{PackedChunkData, UnpackedChunkData, CHUNK_SIZE, CHUNK_VOLUME, MAX_LOD};

verus! {

/// How many voxels of a chunk one cell of LOD level `l` spans along each axis.
pub open spec fn level_span(l: int) -> int {
    if l <= 0 {
        2
    } else if l == 1 {
        4
    } else if l == 2 {
        8
    } else if l == 3 {
        16
    } else if l == 4 {
        32
    } else if l == 5 {
        64
    } else if l == 6 {
        128
    } else {
        256
    }
}

/// How many cells of LOD level `l` a chunk holds along each axis.
pub open spec fn level_stride(l: int) -> int {
    if l <= 0 {
        64
    } else if l == 1 {
        32
    } else if l == 2 {
        16
    } else if l == 3 {
        8
    } else if l == 4 {
        4
    } else if l == 5 {
        2
    } else if l == 6 {
        1
    } else {
        0
    }
}

/// Where the cells of LOD level `l` start when all levels are stored one after the other.
spec fn level_offset(l: int) -> int {
    if l <= 0 {
        0
    } else if l == 1 {
        262144
    } else if l == 2 {
        294912
    } else if l == 3 {
        299008
    } else if l == 4 {
        299520
    } else if l == 5 {
        299584
    } else if l == 6 {
        299592
    } else {
        299593
    }
}

/// The number of cells of all LOD levels together.
const LOD_CELLS: usize = 299593;

/// The level that the stored cell `i` belongs to.
spec fn level_of(i: int) -> int {
    if i < 262144 {
        0
    } else if i < 294912 {
        1
    } else if i < 299008 {
        2
    } else if i < 299520 {
        3
    } else if i < 299584 {
        4
    } else if i < 299592 {
        5
    } else {
        6
    }
}

/// The coordinate of the `k`-th voxel of a chunk (X first).
pub open spec fn voxel_coord(k: int) -> (int, int, int) {
    (k % 128, (k / 128) % 128, (k / 128) / 128)
}

/// The cell of LOD level `l` that holds the `k`-th voxel of a chunk.
pub open spec fn lod_cell(l: int, k: int) -> (int, int, int) {
    let c = voxel_coord(k);
    (c.0 / level_span(l), c.1 / level_span(l), c.2 / level_span(l))
}

/// Where the cell of level `l` that holds voxel `k` is stored.
spec fn cell_slot(l: int, k: int) -> int {
    let c = lod_cell(l, k);
    level_offset(l) + index_3d(c.0, c.1, c.2, level_stride(l), level_stride(l))
}

/// Whether some solid voxel among the first `n` has the stored cell `i` at its level.
spec fn marked(m: Seq<Material>, i: int, n: int) -> bool {
    exists|j: int| 0 <= j < n && m[j].solid && #[trigger] cell_slot(level_of(i), j) == i
}

/// Whether the cell of LOD level `l` that holds voxel `k` holds a solid voxel.
pub open spec fn occupied(m: Seq<Material>, l: int, k: int) -> bool {
    exists|j: int| 0 <= j < CHUNK_VOLUME && m[j].solid && #[trigger] lod_cell(l, j) == lod_cell(l, k)
}

/// Whether the chunk holds any solid voxel.
pub open spec fn any_solid(m: Seq<Material>) -> bool {
    exists|j: int| 0 <= j < CHUNK_VOLUME && #[trigger] m[j].solid
}

/// The lowest LOD level, from `l` on, whose cell around voxel `k` holds a solid voxel (the
/// whole-chunk level when none below does).
pub open spec fn first_occupied_level(m: Seq<Material>, k: int, l: int) -> int
    decreases 6 - l,
{
    if l >= 6 {
        6
    } else if occupied(m, l, k) {
        l
    } else {
        first_occupied_level(m, k, l + 1)
    }
}

/// The minefield value of voxel `k`: the chunk's scale for a solid voxel, otherwise the scale
/// plus one plus the lowest LOD level whose cell around it holds something; for a chunk with no
/// solid voxel, the scale plus `MAX_LOD` everywhere.
pub open spec fn minefield_value(m: Seq<Material>, scale: u8, k: int) -> int {
    if !any_solid(m) {
        scale + MAX_LOD
    } else if m[k].solid {
        scale as int
    } else {
        scale + 1 + first_occupied_level(m, k, 0)
    }
}

/// The packed material of voxel `k`: its own, or air's for a chunk with no solid voxel.
pub open spec fn material_value(m: Seq<Material>, k: int) -> u32 {
    if !any_solid(m) {
        packed(Material::air_spec())
    } else {
        packed(m[k])
    }
}

/// Whether every minefield value of the chunk fits in a byte.
pub open spec fn pack_fits(m: Seq<Material>, scale: u8) -> bool {
    if any_solid(m) {
        forall|k: int|
            0 <= k < CHUNK_VOLUME && !(#[trigger] m[k]).solid ==> scale + 1
                + first_occupied_level(m, k, 0) <= u8::MAX
    } else {
        scale + MAX_LOD <= u8::MAX
    }
}

proof fn lemma_voxel_coord(k: int)
    requires
        0 <= k < CHUNK_VOLUME,
    ensures
        0 <= voxel_coord(k).0 < 128,
        0 <= voxel_coord(k).1 < 128,
        0 <= voxel_coord(k).2 < 128,
        index_3d(voxel_coord(k).0, voxel_coord(k).1, voxel_coord(k).2, 128, 128) == k,
{
    crate::util::coords::lemma_index_3d_join(k, 128, 128, 128);
}

/// A cell of level `l` lies inside the grid of that level, and the cell one level up is its
/// half.
proof fn lemma_lod_cell(l: int, k: int)
    requires
        0 <= l <= 6,
        0 <= k < CHUNK_VOLUME,
    ensures
        0 <= lod_cell(l, k).0 < level_stride(l),
        0 <= lod_cell(l, k).1 < level_stride(l),
        0 <= lod_cell(l, k).2 < level_stride(l),
        lod_cell(l + 1, k) == (lod_cell(l, k).0 / 2, lod_cell(l, k).1 / 2, lod_cell(l, k).2 / 2),
        level_offset(l) <= cell_slot(l, k) < level_offset(l + 1),
        level_of(cell_slot(l, k)) == l,
{
    lemma_voxel_coord(k);
    let c = voxel_coord(k);
    let d = level_span(l);
    assert(level_stride(l) * d == 128);
    vstd::arithmetic::div_mod::lemma_div_pos_is_pos(c.0, d);
    vstd::arithmetic::div_mod::lemma_div_pos_is_pos(c.1, d);
    vstd::arithmetic::div_mod::lemma_div_pos_is_pos(c.2, d);
    vstd::arithmetic::div_mod::lemma_multiply_divide_lt(c.0, d, level_stride(l));
    vstd::arithmetic::div_mod::lemma_multiply_divide_lt(c.1, d, level_stride(l));
    vstd::arithmetic::div_mod::lemma_multiply_divide_lt(c.2, d, level_stride(l));
    vstd::arithmetic::div_mod::lemma_div_denominator(c.0, d, 2);
    vstd::arithmetic::div_mod::lemma_div_denominator(c.1, d, 2);
    vstd::arithmetic::div_mod::lemma_div_denominator(c.2, d, 2);
    let cl = lod_cell(l, k);
    let s = level_stride(l);
    crate::util::coords::lemma_index_3d_bound(cl.0, cl.1, cl.2, s, s, s);
    assert(level_offset(l) + s * s * s == level_offset(l + 1)) by {
        if l == 0 {
            assert(s * s * s == 262144) by (nonlinear_arith) requires s == 64;
        } else if l == 1 {
            assert(s * s * s == 32768) by (nonlinear_arith) requires s == 32;
        } else if l == 2 {
            assert(s * s * s == 4096) by (nonlinear_arith) requires s == 16;
        } else if l == 3 {
            assert(s * s * s == 512) by (nonlinear_arith) requires s == 8;
        } else if l == 4 {
            assert(s * s * s == 64) by (nonlinear_arith) requires s == 4;
        } else if l == 5 {
            assert(s * s * s == 8) by (nonlinear_arith) requires s == 2;
        } else {
            assert(s * s * s == 1) by (nonlinear_arith) requires s == 1;
        }
    }
}

/// Two voxels share a stored cell of level `l` exactly when they share the cell.
proof fn lemma_cell_slot_eq(l: int, j: int, k: int)
    requires
        0 <= l <= 6,
        0 <= j < CHUNK_VOLUME,
        0 <= k < CHUNK_VOLUME,
    ensures
        (cell_slot(l, j) == cell_slot(l, k)) == (lod_cell(l, j) == lod_cell(l, k)),
{
    lemma_lod_cell(l, j);
    lemma_lod_cell(l, k);
    let (a, b) = (lod_cell(l, j), lod_cell(l, k));
    let s = level_stride(l);
    if cell_slot(l, j) == cell_slot(l, k) {
        lemma_index_3d_split(a.0, a.1, a.2, s, s);
        lemma_index_3d_split(b.0, b.1, b.2, s, s);
    }
}

/// Voxels that share a cell share every cell above it.
proof fn lemma_cell_ancestors(l: int, l2: int, j: int, k: int)
    requires
        0 <= l <= l2 <= 6,
        0 <= j < CHUNK_VOLUME,
        0 <= k < CHUNK_VOLUME,
        lod_cell(l, j) == lod_cell(l, k),
    ensures
        lod_cell(l2, j) == lod_cell(l2, k),
    decreases l2 - l,
{
    if l < l2 {
        lemma_lod_cell(l, j);
        lemma_lod_cell(l, k);
        lemma_cell_ancestors(l + 1, l2, j, k);
    }
}

/// A stored cell is marked by the whole chunk exactly when its cell is occupied.
proof fn lemma_marked_occupied(m: Seq<Material>, l: int, k: int)
    requires
        0 <= l <= 6,
        0 <= k < CHUNK_VOLUME,
        m.len() >= CHUNK_VOLUME,
    ensures
        marked(m, cell_slot(l, k), CHUNK_VOLUME as int) == occupied(m, l, k),
{
    lemma_lod_cell(l, k);
    if marked(m, cell_slot(l, k), CHUNK_VOLUME as int) {
        let j = choose|j: int|
            0 <= j < CHUNK_VOLUME && m[j].solid && #[trigger] cell_slot(level_of(cell_slot(l, k)), j)
                == cell_slot(l, k);
        lemma_cell_slot_eq(l, j, k);
        assert(lod_cell(l, j) == lod_cell(l, k));
    }
    if occupied(m, l, k) {
        let j = choose|j: int|
            0 <= j < CHUNK_VOLUME && m[j].solid && #[trigger] lod_cell(l, j) == lod_cell(l, k);
        lemma_cell_slot_eq(l, j, k);
        assert(cell_slot(level_of(cell_slot(l, k)), j) == cell_slot(l, k));
    }
}

/// The whole-chunk cell is occupied exactly when the chunk holds a solid voxel.
proof fn lemma_top_occupied(m: Seq<Material>, k: int)
    requires
        0 <= k < CHUNK_VOLUME,
        m.len() >= CHUNK_VOLUME,
    ensures
        occupied(m, 6, k) == any_solid(m),
        cell_slot(6, k) == 299592,
{
    lemma_lod_cell(6, k);
    assert(lod_cell(6, k) == (0int, 0int, 0int));
    if any_solid(m) {
        let j = choose|j: int| 0 <= j < CHUNK_VOLUME && #[trigger] m[j].solid;
        lemma_lod_cell(6, j);
        assert(lod_cell(6, j) == lod_cell(6, k));
    }
    assert(index_3d(0, 0, 0, 1, 1) == 0);
}

/// Marks, for one solid voxel, the cells of every level that hold it, going up from the
/// smallest until a cell that is already marked (whose ancestors are then marked as well).
fn mark_voxel(lods: &mut Vec<bool>, m: &Vec<Material>, index: usize)
    requires
        m@.len() >= CHUNK_VOLUME,
        index < CHUNK_VOLUME,
        m@[index as int].solid,
        old(lods)@.len() == LOD_CELLS,
        forall|i: int| 0 <= i < LOD_CELLS ==> old(lods)@[i] == marked(m@, i, index as int),
    ensures
        final(lods)@.len() == LOD_CELLS,
        forall|i: int| 0 <= i < LOD_CELLS ==> final(lods)@[i] == marked(m@, i, index + 1),
{
    let ghost k = index as int;
    let coord = index_to_coord_3d(index, CHUNK_SIZE);
    proof {
        lemma_voxel_coord(k);
        vstd::arithmetic::div_mod::lemma_div_denominator(coord.0 as int, 1, 2);
    }
    let mut lod_coord = shrink_coord_3d(&coord, 2);
    let mut lod_stride: usize = CHUNK_SIZE / 2;
    let mut lod_offset: usize = 0;
    let mut lod: usize = 0;
    while lod < MAX_LOD
        invariant_except_break
            lod <= MAX_LOD,
            lod_stride == level_stride(lod as int),
            lod_offset == level_offset(lod as int),
            lod < MAX_LOD ==> lod_coord == (
                lod_cell(lod as int, k).0 as usize,
                lod_cell(lod as int, k).1 as usize,
                lod_cell(lod as int, k).2 as usize,
            ),
            forall|i: int|
                0 <= i < LOD_CELLS ==> lods@[i] == (marked(m@, i, k) || (level_of(i) < lod
                    && i == cell_slot(level_of(i), k))),
        invariant
            m@.len() >= CHUNK_VOLUME,
            0 <= k < CHUNK_VOLUME,
            m@[k].solid,
            lods@.len() == LOD_CELLS,
        ensures
            forall|i: int| 0 <= i < LOD_CELLS ==> lods@[i] == marked(m@, i, k + 1),
        decreases MAX_LOD - lod,
    {
        proof {
            lemma_lod_cell(lod as int, k);
        }
        let cell_index = coord_to_index_3d(&lod_coord, lod_stride);
        let slot = lod_offset + cell_index;
        assert(slot == cell_slot(lod as int, k));
        if lods[slot] {
            proof {
                // The cell is marked by an earlier voxel, which then marks every cell above.
                let l = lod as int;
                assert(level_of(slot as int) == l);
                let j = choose|j: int|
                    0 <= j < k && m@[j].solid && #[trigger] cell_slot(level_of(slot as int), j)
                        == slot;
                lemma_cell_slot_eq(l, j, k);
                assert forall|i: int| 0 <= i < LOD_CELLS implies lods@[i] == marked(
                    m@,
                    i,
                    k + 1,
                ) by {
                    if i == cell_slot(level_of(i), k) && level_of(i) >= l {
                        lemma_lod_cell(level_of(i), k);
                        lemma_cell_ancestors(l, level_of(i), j, k);
                        lemma_cell_slot_eq(level_of(i), j, k);
                        assert(cell_slot(level_of(i), j) == i);
                    }
                    if marked(m@, i, k + 1) && !marked(m@, i, k) {
                        let j2 = choose|j2: int|
                            0 <= j2 < k + 1 && m@[j2].solid && #[trigger] cell_slot(level_of(i), j2)
                                == i;
                        assert(j2 == k);
                    }
                }
            }
            break;
        }
        lods.set(slot, true);
        proof {
            assert forall|i: int| 0 <= i < LOD_CELLS implies lods@[i] == (marked(m@, i, k) || (
            level_of(i) < lod + 1 && i == cell_slot(level_of(i), k))) by {
                if i == slot {
                    assert(level_of(i) == lod);
                }
            }
        }
        lod_coord = shrink_coord_3d(&lod_coord, 2);
        lod_offset = lod_offset + lod_stride * lod_stride * lod_stride;
        lod_stride = lod_stride / 2;
        lod = lod + 1;
    }
    proof {
        if lod == MAX_LOD {
            assert forall|i: int| 0 <= i < LOD_CELLS implies lods@[i] == marked(m@, i, k + 1) by {
                if marked(m@, i, k + 1) && !marked(m@, i, k) {
                    let j2 = choose|j2: int|
                        0 <= j2 < k + 1 && m@[j2].solid && #[trigger] cell_slot(level_of(i), j2)
                            == i;
                    assert(j2 == k);
                }
                if i == cell_slot(level_of(i), k) {
                    assert(cell_slot(level_of(i), k) == i);
                }
            }
        }
    }
}

proof fn lemma_first_level_bounds(m: Seq<Material>, k: int, l: int)
    requires
        0 <= l <= 6,
    ensures
        l <= first_occupied_level(m, k, l) <= 6,
    decreases 6 - l,
{
    if l < 6 {
        lemma_first_level_bounds(m, k, l + 1);
    }
}

/// The minefield value of a voxel that is not solid, in a chunk that holds a solid voxel:
/// walks up the levels until a marked cell.
fn find_level(lods: &Vec<bool>, m: &Vec<Material>, index: usize, scale: u8) -> (r: u8)
    requires
        m@.len() >= CHUNK_VOLUME,
        index < CHUNK_VOLUME,
        !m@[index as int].solid,
        any_solid(m@),
        scale + 1 + first_occupied_level(m@, index as int, 0) <= u8::MAX,
        lods@.len() == LOD_CELLS,
        forall|i: int| 0 <= i < LOD_CELLS ==> lods@[i] == marked(m@, i, CHUNK_VOLUME as int),
    ensures
        r == scale + 1 + first_occupied_level(m@, index as int, 0),
{
    let ghost k = index as int;
    let coord = index_to_coord_3d(index, CHUNK_SIZE);
    proof {
        lemma_voxel_coord(k);
        vstd::arithmetic::div_mod::lemma_div_denominator(coord.0 as int, 1, 2);
        lemma_top_occupied(m@, k);
        lemma_first_level_bounds(m@, k, 0);
    }
    let mut lod_coord = shrink_coord_3d(&coord, 2);
    let mut lod_stride: usize = CHUNK_SIZE / 2;
    let mut lod_offset: usize = 0;
    let mut current_lod: u8 = scale + 1;
    let mut lod: usize = 0;
    let mut result: u8 = 0;
    while lod < MAX_LOD
        invariant_except_break
            lod <= 6,
            lod_stride == level_stride(lod as int),
            lod_offset == level_offset(lod as int),
            lod_coord == (
                lod_cell(lod as int, k).0 as usize,
                lod_cell(lod as int, k).1 as usize,
                lod_cell(lod as int, k).2 as usize,
            ),
            current_lod == scale + 1 + lod,
            first_occupied_level(m@, k, 0) == first_occupied_level(m@, k, lod as int),
        invariant
            m@.len() >= CHUNK_VOLUME,
            0 <= k < CHUNK_VOLUME,
            any_solid(m@),
            occupied(m@, 6, k),
            scale + 1 + first_occupied_level(m@, k, 0) <= u8::MAX,
            lods@.len() == LOD_CELLS,
            forall|i: int| 0 <= i < LOD_CELLS ==> lods@[i] == marked(m@, i, CHUNK_VOLUME as int),
        ensures
            result == scale + 1 + first_occupied_level(m@, k, 0),
        decreases MAX_LOD - lod,
    {
        proof {
            lemma_lod_cell(lod as int, k);
            lemma_marked_occupied(m@, lod as int, k);
        }
        let cell_index = coord_to_index_3d(&lod_coord, lod_stride);
        let slot = lod_offset + cell_index;
        if lods[slot] {
            result = current_lod;
            break;
        }
        proof {
            lemma_first_level_bounds(m@, k, (lod + 1) as int);
        }
        lod_coord = shrink_coord_3d(&lod_coord, 2);
        lod_offset = lod_offset + lod_stride * lod_stride * lod_stride;
        lod_stride = lod_stride / 2;
        current_lod = current_lod + 1;
        lod = lod + 1;
    }
    result
}

impl UnpackedChunkData {
    /// Packs the chunk for the renderer: the packed material of every voxel, and its minefield
    /// value, the LOD level at which the raytracer first finds something around it.
    pub fn pack_into(&self, packed_data: &mut PackedChunkData)
        requires
            self.materials@.len() >= CHUNK_VOLUME,
            old(packed_data).materials@.len() >= CHUNK_VOLUME,
            old(packed_data).minefield@.len() >= CHUNK_VOLUME,
            pack_fits(self.materials@, self.scale),
        ensures
            final(packed_data).materials@.len() == old(packed_data).materials@.len(),
            final(packed_data).minefield@.len() == old(packed_data).minefield@.len(),
            forall|k: int|
                0 <= k < CHUNK_VOLUME ==> final(packed_data).materials@[k] == material_value(
                    self.materials@,
                    k,
                ),
            forall|k: int|
                0 <= k < CHUNK_VOLUME ==> final(packed_data).minefield@[k] == minefield_value(
                    self.materials@,
                    self.scale,
                    k,
                ),
            forall|k: int|
                CHUNK_VOLUME <= k < old(packed_data).materials@.len() ==> final(packed_data).materials@[k] == old(packed_data).materials@[k],
            forall|k: int|
                CHUNK_VOLUME <= k < old(packed_data).minefield@.len() ==> final(packed_data).minefield@[k] == old(packed_data).minefield@[k],
    {
        let ghost m = self.materials@;
        let mut lods: Vec<bool> = vec![false; LOD_CELLS];
        let mut index: usize = 0;
        while index < CHUNK_VOLUME
            invariant
                m == self.materials@,
                m.len() >= CHUNK_VOLUME,
                index <= CHUNK_VOLUME,
                lods@.len() == LOD_CELLS,
                forall|i: int| 0 <= i < LOD_CELLS ==> lods@[i] == marked(m, i, index as int),
                packed_data.materials@.len() == old(packed_data).materials@.len(),
                packed_data.minefield@ == old(packed_data).minefield@,
                old(packed_data).materials@.len() >= CHUNK_VOLUME,
                forall|k: int| 0 <= k < index ==> packed_data.materials@[k] == packed(m[k]),
                forall|k: int|
                    index <= k < old(packed_data).materials@.len() ==> packed_data.materials@[k]
                        == old(packed_data).materials@[k],
            decreases CHUNK_VOLUME - index,
        {
            // If there is a non-empty material at the index, mark the whole chunk as non-empty and
            // modify the LODs accordingly.
            if self.materials[index].solid {
                mark_voxel(&mut lods, &self.materials, index);
            } else {
                proof {
                    assert forall|i: int| 0 <= i < LOD_CELLS implies lods@[i] == marked(
                        m,
                        i,
                        index + 1,
                    ) by {
                        if marked(m, i, index + 1) {
                            let j = choose|j: int|
                                0 <= j < index + 1 && m[j].solid && #[trigger] cell_slot(
                                    level_of(i),
                                    j,
                                ) == i;
                            assert(j != index);
                        }
                    }
                }
            }
            let p = self.materials[index].pack();
            packed_data.materials.set(index, p);
            index = index + 1;
        }
        proof {
            lemma_top_occupied(m, 0);
            lemma_marked_occupied(m, 6, 0);
        }
        // If the whole chunk is empty, just fill the data.
        if !lods[LOD_CELLS - 1] {
            let mut index: usize = 0;
            while index < CHUNK_VOLUME
                invariant
                    m == self.materials@,
                    !any_solid(m),
                    index <= CHUNK_VOLUME,
                    self.scale + MAX_LOD <= u8::MAX,
                    packed_data.materials@.len() == old(packed_data).materials@.len(),
                    packed_data.minefield@.len() == old(packed_data).minefield@.len(),
                    old(packed_data).materials@.len() >= CHUNK_VOLUME,
                    old(packed_data).minefield@.len() >= CHUNK_VOLUME,
                    forall|k: int|
                        0 <= k < index ==> packed_data.materials@[k] == material_value(m, k),
                    forall|k: int|
                        0 <= k < index ==> packed_data.minefield@[k] == minefield_value(
                            m,
                            self.scale,
                            k,
                        ),
                    forall|k: int|
                        CHUNK_VOLUME <= k < old(packed_data).materials@.len()
                            ==> packed_data.materials@[k] == old(packed_data).materials@[k],
                    forall|k: int|
                        index <= k < old(packed_data).minefield@.len()
                            ==> packed_data.minefield@[k] == old(packed_data).minefield@[k],
                decreases CHUNK_VOLUME - index,
            {
                let p = Material::air().pack();
                packed_data.materials.set(index, p);
                packed_data.minefield.set(index, self.scale + MAX_LOD as u8);
                index = index + 1;
            }
            return;
        }
        // Pack the LODs into the minefield.
        let mut index: usize = 0;
        while index < CHUNK_VOLUME
            invariant
                m == self.materials@,
                m.len() >= CHUNK_VOLUME,
                any_solid(m),
                pack_fits(m, self.scale),
                index <= CHUNK_VOLUME,
                lods@.len() == LOD_CELLS,
                forall|i: int| 0 <= i < LOD_CELLS ==> lods@[i] == marked(m, i, CHUNK_VOLUME as int),
                packed_data.materials@.len() == old(packed_data).materials@.len(),
                packed_data.minefield@.len() == old(packed_data).minefield@.len(),
                old(packed_data).minefield@.len() >= CHUNK_VOLUME,
                forall|k: int|
                    0 <= k < CHUNK_VOLUME ==> packed_data.materials@[k] == material_value(m, k),
                forall|k: int|
                    CHUNK_VOLUME <= k < old(packed_data).materials@.len()
                        ==> packed_data.materials@[k] == old(packed_data).materials@[k],
                forall|k: int|
                    0 <= k < index ==> packed_data.minefield@[k] == minefield_value(
                        m,
                        self.scale,
                        k,
                    ),
                forall|k: int|
                    index <= k < old(packed_data).minefield@.len() ==> packed_data.minefield@[k]
                        == old(packed_data).minefield@[k],
            decreases CHUNK_VOLUME - index,
        {
            if self.materials[index].solid {
                packed_data.minefield.set(index, self.scale);
            } else {
                proof {
                    assert(!m[index as int].solid);
                }
                let value = find_level(&lods, &self.materials, index, self.scale);
                packed_data.minefield.set(index, value);
            }
            index = index + 1;
        }
    }
}

} // verus!
