use vstd::prelude::*;
use crate::util::coord_util::{CoordConvertSigned, CoordRepeat, CoordUtil, Axis};
use crate::util::coords::{abs, in_isize, Coord3D, SignedCoord3D};
use crate::util::copy::{bounded_clip_result, volume};
use crate::world::chunk::{PackedChunkData, CHUNK_VOLUME};

verus! {

/// How thick each new slice of terrain data is.
pub const SLICE_SIZE: usize = 16;

/// The side of a chunk of terrain.
pub const CHUNK_SIZE: usize = 128;

/// How many slices make up a chunk.
pub const SLICES_PER_CHUNK: usize = 8;

/// The side of the region of terrain held on the GPU (two chunks).
pub const ROOT_BLOCK_WIDTH: usize = 256;

/// The number of voxels of the region of terrain held on the GPU.
pub const ROOT_BLOCK_VOLUME: usize = 16777216;

/// The number of LODs that the renderer keeps.
pub const NUM_LODS: usize = 4;

/// How many slices make up the region held on the GPU.
pub const SLICES_PER_REGION: usize = 16;

/// The position of one axis in a coordinate.
pub open spec fn axis_index(axis: Axis) -> int {
    match axis {
        Axis::X => 0,
        Axis::Y => 1,
        Axis::Z => 2,
    }
}

/// The origin of the current region and how many slices of the next region have been loaded.
#[derive(Clone, Copy)]
pub struct Position {
    pub origin: SignedCoord3D,
    pub num_loaded_slices: Coord3D,
}

impl Position {
    pub open spec fn default_spec() -> Position {
        Position { origin: (-1isize, -1isize, -1isize), num_loaded_slices: (0usize, 0usize, 0usize) }
    }

    /// Whether no axis has loaded a whole region of slices.
    pub open spec fn wf(self) -> bool {
        &&& self.num_loaded_slices.0 < SLICES_PER_REGION
        &&& self.num_loaded_slices.1 < SLICES_PER_REGION
        &&& self.num_loaded_slices.2 < SLICES_PER_REGION
    }

    /// Where the region of LOD `lod` is rendered: the corner one chunk past the origin, moved on
    /// by the loaded slices, at the scale of the LOD.
    pub open spec fn render_offset_spec(self, lod: int) -> (int, int, int) {
        let f = vstd::arithmetic::power2::pow2(lod as nat) as int;
        (
            ((self.origin.0 + 1) * 128 + self.num_loaded_slices.0 * 16) * f,
            ((self.origin.1 + 1) * 128 + self.num_loaded_slices.1 * 16) * f,
            ((self.origin.2 + 1) * 128 + self.num_loaded_slices.2 * 16) * f,
        )
    }

    pub open spec fn render_offset_fits(self, lod: int) -> bool {
        let f = vstd::arithmetic::power2::pow2(lod as nat) as int;
        &&& in_isize(self.origin.0 + 1)
        &&& in_isize(self.origin.1 + 1)
        &&& in_isize(self.origin.2 + 1)
        &&& in_isize((self.origin.0 + 1) * 128)
        &&& in_isize((self.origin.1 + 1) * 128)
        &&& in_isize((self.origin.2 + 1) * 128)
        &&& self.num_loaded_slices.0 * 16 <= isize::MAX
        &&& self.num_loaded_slices.1 * 16 <= isize::MAX
        &&& self.num_loaded_slices.2 * 16 <= isize::MAX
        &&& in_isize((self.origin.0 + 1) * 128 + self.num_loaded_slices.0 * 16)
        &&& in_isize((self.origin.1 + 1) * 128 + self.num_loaded_slices.1 * 16)
        &&& in_isize((self.origin.2 + 1) * 128 + self.num_loaded_slices.2 * 16)
        &&& in_isize(self.render_offset_spec(lod).0)
        &&& in_isize(self.render_offset_spec(lod).1)
        &&& in_isize(self.render_offset_spec(lod).2)
    }

    pub fn render_offset(&self, lod: isize) -> (r: SignedCoord3D)
        requires
            0 <= lod < 64,
            vstd::arithmetic::power2::pow2(lod as nat) <= isize::MAX,
            self.render_offset_fits(lod as int),
        ensures
            r.0 == self.render_offset_spec(lod as int).0,
            r.1 == self.render_offset_spec(lod as int).1,
            r.2 == self.render_offset_spec(lod as int).2,
    {
        proof {
            vstd::bits::lemma_u64_shl_is_mul(1, lod as u64);
        }
        let scale: isize = (1u64 << (lod as u64)) as isize;
        self.origin.add((1, 1, 1)).scale(CHUNK_SIZE as isize).add(
            self.num_loaded_slices.scale(SLICE_SIZE).signed(),
        ).scale(scale)
    }
}

impl Default for Position {
    fn default() -> (r: Self)
        ensures
            r == Position::default_spec(),
    {
        Self { origin: (-1, -1, -1), num_loaded_slices: (0, 0, 0) }
    }
}

/// Upon consuming this request, the next slice along the specified axis will be uploaded.
#[derive(Clone, Copy)]
pub struct TerrainUploadRequest {
    pub origin: SignedCoord3D,
    /// How many slices to offset in each axis.
    pub num_slices: Coord3D,
    pub axis: Axis,
    /// What position this LOD will be at after the request is completed.
    pub new_position: Position,
}

/// The position after loading one more slice along `axis`: a whole region of slices moves the
/// origin on by a region.
pub open spec fn increased(p: Position, axis: Axis) -> Position {
    let a = axis_index(axis);
    let n = if a == 0 {
        p.num_loaded_slices.0
    } else if a == 1 {
        p.num_loaded_slices.1
    } else {
        p.num_loaded_slices.2
    };
    let wraps = n + 1 == SLICES_PER_REGION;
    let n2: usize = if wraps { 0 } else { (n + 1) as usize };
    let d: int = if wraps { 2 } else { 0 };
    if a == 0 {
        Position {
            origin: ((p.origin.0 + d) as isize, p.origin.1, p.origin.2),
            num_loaded_slices: (n2, p.num_loaded_slices.1, p.num_loaded_slices.2),
        }
    } else if a == 1 {
        Position {
            origin: (p.origin.0, (p.origin.1 + d) as isize, p.origin.2),
            num_loaded_slices: (p.num_loaded_slices.0, n2, p.num_loaded_slices.2),
        }
    } else {
        Position {
            origin: (p.origin.0, p.origin.1, (p.origin.2 + d) as isize),
            num_loaded_slices: (p.num_loaded_slices.0, p.num_loaded_slices.1, n2),
        }
    }
}

/// The position after rewinding one slice along `axis`: rewinding past the start of a region
/// moves the origin back by a region.
pub open spec fn decreased(p: Position, axis: Axis) -> Position {
    let a = axis_index(axis);
    let n = if a == 0 {
        p.num_loaded_slices.0
    } else if a == 1 {
        p.num_loaded_slices.1
    } else {
        p.num_loaded_slices.2
    };
    let wraps = n == 0;
    let n2: usize = if wraps { (SLICES_PER_REGION - 1) as usize } else { (n - 1) as usize };
    let d: int = if wraps { -2 } else { 0 };
    if a == 0 {
        Position {
            origin: ((p.origin.0 + d) as isize, p.origin.1, p.origin.2),
            num_loaded_slices: (n2, p.num_loaded_slices.1, p.num_loaded_slices.2),
        }
    } else if a == 1 {
        Position {
            origin: (p.origin.0, (p.origin.1 + d) as isize, p.origin.2),
            num_loaded_slices: (p.num_loaded_slices.0, n2, p.num_loaded_slices.2),
        }
    } else {
        Position {
            origin: (p.origin.0, p.origin.1, (p.origin.2 + d) as isize),
            num_loaded_slices: (p.num_loaded_slices.0, p.num_loaded_slices.1, n2),
        }
    }
}

/// The offset of the next region along `axis`.
pub open spec fn region_step(axis: Axis) -> SignedCoord3D {
    match axis {
        Axis::X => (2, 0, 0),
        Axis::Y => (0, 2, 0),
        Axis::Z => (0, 0, 2),
    }
}

/// Whether moving a position one region along either way stays within range.
pub open spec fn position_movable(p: Position) -> bool {
    &&& p.wf()
    &&& isize::MIN + 2 <= p.origin.0 <= isize::MAX - 2
    &&& isize::MIN + 2 <= p.origin.1 <= isize::MAX - 2
    &&& isize::MIN + 2 <= p.origin.2 <= isize::MAX - 2
}

/// Which slices of terrain the renderer holds for each LOD, which it has on the GPU, and which
/// uploads are still to be made.
pub struct TerrainUploadManager {
    request_queue: Vec<TerrainUploadRequest>,
    lod_positions: Vec<Position>,
    gpu_lod_positions: Vec<Position>,
}

impl TerrainUploadManager {
    /// The uploads still to be made, oldest first.
    pub closed spec fn requests(&self) -> Seq<TerrainUploadRequest> {
        self.request_queue@
    }

    /// The position that each LOD will be at once its requests are done.
    pub closed spec fn positions(&self) -> Seq<Position> {
        self.lod_positions@
    }

    /// The position that each LOD is at on the GPU.
    pub closed spec fn gpu_positions(&self) -> Seq<Position> {
        self.gpu_lod_positions@
    }

    pub open spec fn wf(&self) -> bool {
        &&& self.positions().len() == NUM_LODS
        &&& self.gpu_positions().len() == NUM_LODS
    }

    pub fn new() -> (r: TerrainUploadManager)
        ensures
            r.wf(),
            r.requests() == Seq::<TerrainUploadRequest>::empty(),
            r.positions() == Seq::new(NUM_LODS as nat, |i: int| Position::default_spec()),
            r.gpu_positions() == Seq::new(NUM_LODS as nat, |i: int| Position::default_spec()),
    {
        let mut lod_positions: Vec<Position> = Vec::new();
        let mut gpu_lod_positions: Vec<Position> = Vec::new();
        let mut i: usize = 0;
        while i < NUM_LODS
            invariant
                i <= NUM_LODS,
                lod_positions@ == Seq::new(i as nat, |j: int| Position::default_spec()),
                gpu_lod_positions@ == Seq::new(i as nat, |j: int| Position::default_spec()),
            decreases NUM_LODS - i,
        {
            lod_positions.push(Position::default());
            gpu_lod_positions.push(Position::default());
            i = i + 1;
            proof {
                assert(lod_positions@ =~= Seq::new(i as nat, |j: int| Position::default_spec()));
                assert(gpu_lod_positions@ =~= Seq::new(i as nat, |j: int| Position::default_spec()));
            }
        }
        TerrainUploadManager { request_queue: Vec::new(), lod_positions, gpu_lod_positions }
    }

    /// Takes the oldest request, if any, to be uploaded; `complete_request` then records its
    /// position as the one on the GPU.
    pub fn setup_next_request(&mut self) -> (r: Option<TerrainUploadRequest>)
        requires
            old(self).wf(),
        ensures
            final(self).wf(),
            final(self).positions() == old(self).positions(),
            final(self).gpu_positions() == old(self).gpu_positions(),
            old(self).requests().len() == 0 ==> r is None && final(self).requests() == old(
                self,
            ).requests(),
            old(self).requests().len() > 0 ==> r == Some(old(self).requests()[0])
                && final(self).requests() == old(self).requests().drop_first(),
    {
        if self.request_queue.len() == 0 {
            return None;
        }
        let request = self.request_queue.remove(0);
        proof {
            assert(self.request_queue@ =~= old(self).requests().drop_first());
        }
        Some(request)
    }

    /// The upload of a request is done: the first LOD is now at the request's position on the GPU.
    pub fn complete_request(&mut self, request: &TerrainUploadRequest)
        requires
            old(self).wf(),
        ensures
            final(self).wf(),
            final(self).requests() == old(self).requests(),
            final(self).positions() == old(self).positions(),
            final(self).gpu_positions() == old(self).gpu_positions().update(0, request.new_position),
    {
        self.gpu_lod_positions.set(0, request.new_position);
    }

    /// Where LOD `lod` is rendered on the GPU.
    pub fn get_render_offset(&self, lod: usize) -> (r: SignedCoord3D)
        requires
            self.wf(),
            lod < NUM_LODS,
            self.gpu_positions()[lod as int].render_offset_fits(lod as int),
        ensures
            r.0 == self.gpu_positions()[lod as int].render_offset_spec(lod as int).0,
            r.1 == self.gpu_positions()[lod as int].render_offset_spec(lod as int).1,
            r.2 == self.gpu_positions()[lod as int].render_offset_spec(lod as int).2,
    {
        proof {
            vstd::arithmetic::power2::lemma2_to64();
        }
        self.gpu_lod_positions[lod].render_offset(lod as isize)
    }

    /// Loads the next slice along `axis` from the next region, then counts it as loaded.
    pub fn request_increase(&mut self, axis: Axis)
        requires
            old(self).wf(),
            position_movable(old(self).positions()[0]),
        ensures
            final(self).wf(),
            final(self).gpu_positions() == old(self).gpu_positions(),
            final(self).positions() == old(self).positions().update(
                0,
                increased(old(self).positions()[0], axis),
            ),
            final(self).requests() == old(self).requests().push(
                TerrainUploadRequest {
                    origin: old(self).positions()[0].origin.add_spec(region_step(axis)),
                    num_slices: old(self).positions()[0].num_loaded_slices,
                    axis,
                    new_position: increased(old(self).positions()[0], axis),
                },
            ),
            forall|lod: int|
                0 <= lod ==> #[trigger] final(self).positions()[0].render_offset_spec(lod)
                    == moved_along(
                    old(self).positions()[0].render_offset_spec(lod),
                    axis,
                    16 * (vstd::arithmetic::power2::pow2(lod as nat) as int),
                ),
            ({
                let o = old(self).positions()[0].origin;
                let r = final(self).requests().last().origin;
                (r.0 as int, r.1 as int, r.2 as int) == moved_along(
                    (o.0 as int, o.1 as int, o.2 as int),
                    axis,
                    (ROOT_BLOCK_WIDTH / CHUNK_SIZE) as int,
                )
            }),
    {
        // Load the next slice then increment the number of loaded slices.
        let old_position = self.lod_positions[0];
        let mut position = old_position;
        match axis {
            Axis::X => {
                position.num_loaded_slices.0 = position.num_loaded_slices.0 + 1;
                if position.num_loaded_slices.0 == ROOT_BLOCK_WIDTH / SLICE_SIZE {
                    position.num_loaded_slices.0 = 0;
                    position.origin.0 = position.origin.0 + (ROOT_BLOCK_WIDTH / CHUNK_SIZE) as isize;
                }
            },
            Axis::Y => {
                position.num_loaded_slices.1 = position.num_loaded_slices.1 + 1;
                if position.num_loaded_slices.1 == ROOT_BLOCK_WIDTH / SLICE_SIZE {
                    position.num_loaded_slices.1 = 0;
                    position.origin.1 = position.origin.1 + (ROOT_BLOCK_WIDTH / CHUNK_SIZE) as isize;
                }
            },
            Axis::Z => {
                position.num_loaded_slices.2 = position.num_loaded_slices.2 + 1;
                if position.num_loaded_slices.2 == ROOT_BLOCK_WIDTH / SLICE_SIZE {
                    position.num_loaded_slices.2 = 0;
                    position.origin.2 = position.origin.2 + (ROOT_BLOCK_WIDTH / CHUNK_SIZE) as isize;
                }
            },
        }
        self.lod_positions.set(0, position);
        // This makes it load the data from the next region instead of the current region.
        let origin_offset: SignedCoord3D = match axis {
            Axis::X => (2, 0, 0),
            Axis::Y => (0, 2, 0),
            Axis::Z => (0, 0, 2),
        };
        self.request_queue.push(
            TerrainUploadRequest {
                origin: old_position.origin.add(origin_offset),
                num_slices: old_position.num_loaded_slices,
                axis,
                new_position: position,
            },
        );
        proof {
            assert forall|lod: int| 0 <= lod implies #[trigger] increased(
                old_position,
                axis,
            ).render_offset_spec(lod) == moved_along(
                old_position.render_offset_spec(lod),
                axis,
                16 * (vstd::arithmetic::power2::pow2(lod as nat) as int),
            ) by {
                lemma_slice_moves_render_offset(old_position, axis, lod);
            }
        }
    }

    /// Rewinds the coordinate to the previous slice along `axis` and then loads it from the
    /// current region.
    pub fn request_decrease(&mut self, axis: Axis)
        requires
            old(self).wf(),
            position_movable(old(self).positions()[0]),
        ensures
            final(self).wf(),
            final(self).gpu_positions() == old(self).gpu_positions(),
            final(self).positions() == old(self).positions().update(
                0,
                decreased(old(self).positions()[0], axis),
            ),
            final(self).requests() == old(self).requests().push(
                TerrainUploadRequest {
                    origin: decreased(old(self).positions()[0], axis).origin,
                    num_slices: decreased(old(self).positions()[0], axis).num_loaded_slices,
                    axis,
                    new_position: decreased(old(self).positions()[0], axis),
                },
            ),
            forall|lod: int|
                0 <= lod ==> #[trigger] final(self).positions()[0].render_offset_spec(lod)
                    == moved_along(
                    old(self).positions()[0].render_offset_spec(lod),
                    axis,
                    -16 * (vstd::arithmetic::power2::pow2(lod as nat) as int),
                ),
    {
        let old_position = self.lod_positions[0];
        let mut position = old_position;
        match axis {
            Axis::X => {
                if position.num_loaded_slices.0 == 0 {
                    position.num_loaded_slices.0 = ROOT_BLOCK_WIDTH / SLICE_SIZE;
                    position.origin.0 = position.origin.0 - (ROOT_BLOCK_WIDTH / CHUNK_SIZE) as isize;
                }
                position.num_loaded_slices.0 = position.num_loaded_slices.0 - 1;
            },
            Axis::Y => {
                if position.num_loaded_slices.1 == 0 {
                    position.num_loaded_slices.1 = ROOT_BLOCK_WIDTH / SLICE_SIZE;
                    position.origin.1 = position.origin.1 - (ROOT_BLOCK_WIDTH / CHUNK_SIZE) as isize;
                }
                position.num_loaded_slices.1 = position.num_loaded_slices.1 - 1;
            },
            Axis::Z => {
                if position.num_loaded_slices.2 == 0 {
                    position.num_loaded_slices.2 = ROOT_BLOCK_WIDTH / SLICE_SIZE;
                    position.origin.2 = position.origin.2 - (ROOT_BLOCK_WIDTH / CHUNK_SIZE) as isize;
                }
                position.num_loaded_slices.2 = position.num_loaded_slices.2 - 1;
            },
        }
        self.lod_positions.set(0, position);
        self.request_queue.push(
            TerrainUploadRequest {
                origin: position.origin,
                num_slices: position.num_loaded_slices,
                axis,
                new_position: position,
            },
        );
        proof {
            assert forall|lod: int| 0 <= lod implies #[trigger] decreased(
                old_position,
                axis,
            ).render_offset_spec(lod) == moved_along(
                old_position.render_offset_spec(lod),
                axis,
                -16 * (vstd::arithmetic::power2::pow2(lod as nat) as int),
            ) by {
                lemma_slice_moves_render_offset(old_position, axis, lod);
            }
        }
    }
}

/// Law: a request to load one more slice along an axis followed by a request to rewind one
/// slice along it leaves the positions as they were, and the second request loads the slice
/// the positions started at.
pub proof fn lemma_increase_then_decrease_requests(
    m0: TerrainUploadManager,
    m1: TerrainUploadManager,
    m2: TerrainUploadManager,
    axis: Axis,
)
    requires
        m0.wf(),
        position_movable(m0.positions()[0]),
        m1.positions() == m0.positions().update(0, increased(m0.positions()[0], axis)),
        m1.requests() == m0.requests().push(
            TerrainUploadRequest {
                origin: m0.positions()[0].origin.add_spec(region_step(axis)),
                num_slices: m0.positions()[0].num_loaded_slices,
                axis,
                new_position: increased(m0.positions()[0], axis),
            },
        ),
        m2.positions() == m1.positions().update(0, decreased(m1.positions()[0], axis)),
        m2.requests() == m1.requests().push(
            TerrainUploadRequest {
                origin: decreased(m1.positions()[0], axis).origin,
                num_slices: decreased(m1.positions()[0], axis).num_loaded_slices,
                axis,
                new_position: decreased(m1.positions()[0], axis),
            },
        ),
    ensures
        m2.positions() == m0.positions(),
        m2.requests().len() == m0.requests().len() + 2,
        m2.requests().last() == (TerrainUploadRequest {
            origin: m0.positions()[0].origin,
            num_slices: m0.positions()[0].num_loaded_slices,
            axis,
            new_position: m0.positions()[0],
        }),
{
    lemma_increase_then_decrease(m0.positions()[0], axis);
    assert(m2.positions() =~= m0.positions());
}

/// Law: loading one more slice and then rewinding one slice along the same axis gives the
/// position back, and both keep the number of loaded slices below a region.
pub proof fn lemma_increase_then_decrease(p: Position, axis: Axis)
    requires
        position_movable(p),
    ensures
        increased(p, axis).wf(),
        decreased(p, axis).wf(),
        decreased(increased(p, axis), axis) == p,
        increased(decreased(p, axis), axis) == p,
{
}

/// The render offset moved by `amount` along `axis`.
pub open spec fn moved_along(o: (int, int, int), axis: Axis, amount: int) -> (int, int, int) {
    match axis {
        Axis::X => (o.0 + amount, o.1, o.2),
        Axis::Y => (o.0, o.1 + amount, o.2),
        Axis::Z => (o.0, o.1, o.2 + amount),
    }
}

/// Law: loading one more slice along an axis moves where the region is rendered one slice on
/// along that axis, and rewinding one slice moves it one slice back, at the scale of the LOD.
pub proof fn lemma_slice_moves_render_offset(p: Position, axis: Axis, lod: int)
    requires
        position_movable(p),
        0 <= lod,
    ensures
        increased(p, axis).render_offset_spec(lod) == moved_along(
            p.render_offset_spec(lod),
            axis,
            16 * (vstd::arithmetic::power2::pow2(lod as nat) as int),
        ),
        decreased(p, axis).render_offset_spec(lod) == moved_along(
            p.render_offset_spec(lod),
            axis,
            -16 * (vstd::arithmetic::power2::pow2(lod as nat) as int),
        ),
{
    let f = vstd::arithmetic::power2::pow2(lod as nat) as int;
    let o = p.render_offset_spec(lod);
    let i = increased(p, axis).render_offset_spec(lod);
    let d = decreased(p, axis).render_offset_spec(lod);
    let base = (
        (p.origin.0 + 1) * 128 + p.num_loaded_slices.0 * 16,
        (p.origin.1 + 1) * 128 + p.num_loaded_slices.1 * 16,
        (p.origin.2 + 1) * 128 + p.num_loaded_slices.2 * 16,
    );
    let bi = (
        (increased(p, axis).origin.0 + 1) * 128 + increased(p, axis).num_loaded_slices.0 * 16,
        (increased(p, axis).origin.1 + 1) * 128 + increased(p, axis).num_loaded_slices.1 * 16,
        (increased(p, axis).origin.2 + 1) * 128 + increased(p, axis).num_loaded_slices.2 * 16,
    );
    let bd = (
        (decreased(p, axis).origin.0 + 1) * 128 + decreased(p, axis).num_loaded_slices.0 * 16,
        (decreased(p, axis).origin.1 + 1) * 128 + decreased(p, axis).num_loaded_slices.1 * 16,
        (decreased(p, axis).origin.2 + 1) * 128 + decreased(p, axis).num_loaded_slices.2 * 16,
    );
    assert(bi == moved_along(base, axis, 16));
    assert(bd == moved_along(base, axis, -16));
    assert(o == (base.0 * f, base.1 * f, base.2 * f));
    assert(i == (bi.0 * f, bi.1 * f, bi.2 * f));
    assert(d == (bd.0 * f, bd.1 * f, bd.2 * f));
    assert((base.0 + 16) * f == base.0 * f + 16 * f) by (nonlinear_arith);
    assert((base.1 + 16) * f == base.1 * f + 16 * f) by (nonlinear_arith);
    assert((base.2 + 16) * f == base.2 * f + 16 * f) by (nonlinear_arith);
    assert((base.0 - 16) * f == base.0 * f + -16 * f) by (nonlinear_arith);
    assert((base.1 - 16) * f == base.1 * f + -16 * f) by (nonlinear_arith);
    assert((base.2 - 16) * f == base.2 * f + -16 * f) by (nonlinear_arith);
}

/// Law: the next region along an axis lies one region (`ROOT_BLOCK_WIDTH / CHUNK_SIZE` chunks)
/// further along that axis and nowhere else.
pub proof fn lemma_region_step_is_along_axis(origin: SignedCoord3D, axis: Axis)
    requires
        origin.0 <= isize::MAX - 2,
        origin.1 <= isize::MAX - 2,
        origin.2 <= isize::MAX - 2,
    ensures
        ({
            let next = origin.add_spec(region_step(axis));
            (next.0 as int, next.1 as int, next.2 as int) == moved_along(
                (origin.0 as int, origin.1 as int, origin.2 as int),
                axis,
                (ROOT_BLOCK_WIDTH / CHUNK_SIZE) as int,
            )
        }),
{
}

/// Which way, if any, LOD 0 is moved to bring a render offset that lies `delta` away from the
/// desired centre closer to it: more than a slice away along X, then Y, then Z, one slice up
/// (`true`) or down (`false`).
pub open spec fn move_step(delta: (int, int, int)) -> Option<(Axis, bool)> {
    if delta.0 > 16 {
        Some((Axis::X, true))
    } else if -delta.0 > 16 {
        Some((Axis::X, false))
    } else if delta.1 > 16 {
        Some((Axis::Y, true))
    } else if -delta.1 > 16 {
        Some((Axis::Y, false))
    } else if delta.2 > 16 {
        Some((Axis::Z, true))
    } else if -delta.2 > 16 {
        Some((Axis::Z, false))
    } else {
        None
    }
}

impl TerrainUploadManager {
    /// The offset from where LOD `lod` is rendered to the desired centre.
    pub open spec fn delta_to(&self, lod: int, desired_center: SignedCoord3D) -> (int, int, int) {
        let o = self.positions()[lod].render_offset_spec(lod);
        (desired_center.0 - o.0, desired_center.1 - o.1, desired_center.2 - o.2)
    }

    /// Whether the distance from LOD `lod` to the desired centre can be worked out in range.
    pub open spec fn delta_fits(&self, lod: int, desired_center: SignedCoord3D) -> bool {
        let d = self.delta_to(lod, desired_center);
        &&& self.positions()[lod].render_offset_fits(lod)
        &&& in_isize(d.0) && in_isize(d.1) && in_isize(d.2)
        &&& d.0 != isize::MIN && d.1 != isize::MIN && d.2 != isize::MIN
    }

    /// Requests a slice that moves LOD 0 towards `desired_center`, judged by how far LOD `lod`
    /// is rendered from it.
    pub fn request_move_lod_towards(&mut self, lod: usize, desired_center: SignedCoord3D)
        requires
            old(self).wf(),
            lod < NUM_LODS,
            old(self).delta_fits(lod as int, desired_center),
            position_movable(old(self).positions()[0]),
        ensures
            final(self).wf(),
            final(self).gpu_positions() == old(self).gpu_positions(),
            match move_step(old(self).delta_to(lod as int, desired_center)) {
                None => final(self).positions() == old(self).positions() && final(self).requests()
                    == old(self).requests(),
                Some((axis, true)) => {
                    &&& final(self).positions() == old(self).positions().update(
                        0,
                        increased(old(self).positions()[0], axis),
                    )
                    &&& final(self).requests() == old(self).requests().push(
                        TerrainUploadRequest {
                            origin: old(self).positions()[0].origin.add_spec(region_step(axis)),
                            num_slices: old(self).positions()[0].num_loaded_slices,
                            axis,
                            new_position: increased(old(self).positions()[0], axis),
                        },
                    )
                },
                Some((axis, false)) => {
                    &&& final(self).positions() == old(self).positions().update(
                        0,
                        decreased(old(self).positions()[0], axis),
                    )
                    &&& final(self).requests() == old(self).requests().push(
                        TerrainUploadRequest {
                            origin: decreased(old(self).positions()[0], axis).origin,
                            num_slices: decreased(old(self).positions()[0], axis).num_loaded_slices,
                            axis,
                            new_position: decreased(old(self).positions()[0], axis),
                        },
                    )
                },
            },
    {
        let current_pos = self.lod_positions[lod];
        proof {
            vstd::arithmetic::power2::lemma2_to64();
        }
        let delta = desired_center.sub(current_pos.render_offset(lod as isize));
        let slice = SLICE_SIZE as isize;
        if delta.0 > slice {
            self.request_increase(Axis::X);
        } else if -delta.0 > slice {
            self.request_decrease(Axis::X);
        } else if delta.1 > slice {
            self.request_increase(Axis::Y);
        } else if -delta.1 > slice {
            self.request_decrease(Axis::Y);
        } else if delta.2 > slice {
            self.request_increase(Axis::Z);
        } else if -delta.2 > slice {
            self.request_decrease(Axis::Z);
        }
    }

    /// Requests a slice that moves LOD 0 towards `desired_center`.
    pub fn request_move_towards(&mut self, desired_center: SignedCoord3D)
        requires
            old(self).wf(),
            old(self).delta_fits(0, desired_center),
            position_movable(old(self).positions()[0]),
        ensures
            final(self).wf(),
            final(self).gpu_positions() == old(self).gpu_positions(),
            match move_step(old(self).delta_to(0, desired_center)) {
                None => final(self).positions() == old(self).positions() && final(self).requests()
                    == old(self).requests(),
                Some((axis, true)) => {
                    &&& final(self).positions() == old(self).positions().update(
                        0,
                        increased(old(self).positions()[0], axis),
                    )
                    &&& final(self).requests() == old(self).requests().push(
                        TerrainUploadRequest {
                            origin: old(self).positions()[0].origin.add_spec(region_step(axis)),
                            num_slices: old(self).positions()[0].num_loaded_slices,
                            axis,
                            new_position: increased(old(self).positions()[0], axis),
                        },
                    )
                },
                Some((axis, false)) => {
                    &&& final(self).positions() == old(self).positions().update(
                        0,
                        decreased(old(self).positions()[0], axis),
                    )
                    &&& final(self).requests() == old(self).requests().push(
                        TerrainUploadRequest {
                            origin: decreased(old(self).positions()[0], axis).origin,
                            num_slices: decreased(old(self).positions()[0], axis).num_loaded_slices,
                            axis,
                            new_position: decreased(old(self).positions()[0], axis),
                        },
                    )
                },
            },
            move_step(old(self).delta_to(0, desired_center)) matches Some((axis, _)) ==> abs(
                along(final(self).delta_to(0, desired_center), axis),
            ) < abs(along(old(self).delta_to(0, desired_center), axis)),
    {
        proof {
            lemma_move_brings_lod0_closer(self.positions()[0], desired_center);
        }
        self.request_move_lod_towards(0, desired_center);
    }
}

/// Law: the move that `move_step` picks follows the sign of the distance to the desired centre:
/// it loads the next slice along an axis only where the centre lies more than a slice further
/// on along it, and rewinds only where it lies more than a slice back; where it picks nothing,
/// the centre lies within a slice on every axis.
pub proof fn lemma_move_step_follows_delta(delta: (int, int, int))
    ensures
        move_step(delta) matches Some((axis, up)) ==> (up ==> along(delta, axis) > SLICE_SIZE)
            && (!up ==> along(delta, axis) < -SLICE_SIZE),
        move_step(delta) is None ==> abs(delta.0) <= SLICE_SIZE && abs(delta.1) <= SLICE_SIZE
            && abs(delta.2) <= SLICE_SIZE,
{
}

/// Law: moving LOD 0 as `move_step` asks brings where it is rendered strictly closer to the
/// desired centre along the chosen axis, and leaves the other axes where they were.
pub proof fn lemma_move_brings_lod0_closer(p: Position, c: SignedCoord3D)
    requires
        position_movable(p),
    ensures
        ({
            let o = p.render_offset_spec(0);
            let d = (c.0 - o.0, c.1 - o.1, c.2 - o.2);
            move_step(d) matches Some((axis, up)) ==> {
                let q = if up { increased(p, axis) } else { decreased(p, axis) };
                let o2 = q.render_offset_spec(0);
                let d2 = (c.0 - o2.0, c.1 - o2.1, c.2 - o2.2);
                &&& abs(along(d2, axis)) < abs(along(d, axis))
                &&& forall|other: Axis| other != axis ==> along(d2, other) == along(d, other)
            }
        }),
{
    let o = p.render_offset_spec(0);
    let d = (c.0 - o.0, c.1 - o.1, c.2 - o.2);
    if let Some((axis, up)) = move_step(d) {
        lemma_slice_moves_render_offset(p, axis, 0);
        vstd::arithmetic::power2::lemma2_to64();
    }
}

/// One copy out of a chunk into the slice that is being uploaded.
#[derive(Clone, Copy)]
pub struct SliceCopy {
    /// The chunk (at LOD 0) to copy from.
    pub chunk: SignedCoord3D,
    /// The size of the data that will be copied.
    pub copy_size: Coord3D,
    /// The coordinate inside the chunk to start copying from.
    pub copy_start: Coord3D,
    /// Where the copy lands in the slice.
    pub target_start: SignedCoord3D,
}

/// Whether a request can be planned in range: each axis has loaded fewer slices than a region,
/// and the chunks it reaches lie within range.
pub open spec fn slice_request_ok(request: TerrainUploadRequest) -> bool {
    &&& request.num_slices.0 < SLICES_PER_REGION
    &&& request.num_slices.1 < SLICES_PER_REGION
    &&& request.num_slices.2 < SLICES_PER_REGION
    &&& request.origin.0 <= isize::MAX - 4
    &&& request.origin.1 <= isize::MAX - 4
    &&& request.origin.2 <= isize::MAX - 4
}

/// The component of a coordinate along an axis.
pub open spec fn along(c: (int, int, int), axis: Axis) -> int {
    match axis {
        Axis::X => c.0,
        Axis::Y => c.1,
        Axis::Z => c.2,
    }
}

/// Which of the 3 by 3 chunks across the slice piece `k` comes from, along each axis.
pub open spec fn piece_offset(axis: Axis, k: int) -> (int, int, int) {
    let (d1, d2) = (k % 3, k / 3);
    match axis {
        Axis::X => (0, d1, d2),
        Axis::Y => (d1, 0, d2),
        Axis::Z => (d1, d2, 0),
    }
}

/// How far into the first chunk copying starts (and how far into the last chunk it reaches),
/// along each axis.
pub open spec fn area_start(request: TerrainUploadRequest) -> (int, int, int) {
    (
        (request.num_slices.0 % 8) as int * 16,
        (request.num_slices.1 % 8) as int * 16,
        (request.num_slices.2 % 8) as int * 16,
    )
}

/// The first chunk that the slice reaches, relative to the request's origin.
pub open spec fn chunk_offset(request: TerrainUploadRequest) -> (int, int, int) {
    ((request.num_slices.0 / 8) as int, (request.num_slices.1 / 8) as int, (request.num_slices.2 / 8) as int)
}

/// Where copying starts inside the chunk on one axis: at the area start in the first chunk.
pub open spec fn piece_start(piece: int, area: int) -> int {
    if piece == 0 { area } else { 0 }
}

/// Where copying ends inside the chunk on one axis that is not the slice's axis: at the area
/// start in the last chunk.
pub open spec fn piece_end(piece: int, area: int) -> int {
    if piece == 2 { area } else { 128 }
}

/// The copy for piece `k` of a request.
pub open spec fn piece_copy(request: TerrainUploadRequest, k: int) -> SliceCopy {
    let p = piece_offset(request.axis, k);
    let c = chunk_offset(request);
    let a = area_start(request);
    let start = (piece_start(p.0, a.0), piece_start(p.1, a.1), piece_start(p.2, a.2));
    let end = match request.axis {
        Axis::X => (start.0 + 16, piece_end(p.1, a.1), piece_end(p.2, a.2)),
        Axis::Y => (piece_end(p.0, a.0), start.1 + 16, piece_end(p.2, a.2)),
        Axis::Z => (piece_end(p.0, a.0), piece_end(p.1, a.1), start.2 + 16),
    };
    let off = match request.axis {
        Axis::X => (0, c.1, c.2),
        Axis::Y => (c.0, 0, c.2),
        Axis::Z => (c.0, c.1, 0),
    };
    let toff = match request.axis {
        Axis::X => (0, start.1, start.2),
        Axis::Y => (start.0, 0, start.2),
        Axis::Z => (start.0, start.1, 0),
    };
    SliceCopy {
        chunk: (
            (p.0 + c.0 + request.origin.0) as isize,
            (p.1 + c.1 + request.origin.1) as isize,
            (p.2 + c.2 + request.origin.2) as isize,
        ),
        copy_size: ((end.0 - start.0) as usize, (end.1 - start.1) as usize, (end.2 - start.2) as usize),
        copy_start: (start.0 as usize, start.1 as usize, start.2 as usize),
        target_start: (
            (((p.0 + off.0) % 2) * 128 + toff.0) as isize,
            (((p.1 + off.1) % 2) * 128 + toff.1) as isize,
            (((p.2 + off.2) % 2) * 128 + toff.2) as isize,
        ),
    }
}

/// The dimensions of the data that will be copied into the buffer and eventually copied to the
/// images on the GPU: one slice thick along the slice's axis.
pub open spec fn slice_shape(axis: Axis) -> Coord3D {
    match axis {
        Axis::X => (16usize, 256usize, 256usize),
        Axis::Y => (256usize, 16usize, 256usize),
        Axis::Z => (256usize, 256usize, 16usize),
    }
}

pub fn slice_data_shape(axis: Axis) -> (r: Coord3D)
    ensures
        r == slice_shape(axis),
{
    match axis {
        Axis::X => (SLICE_SIZE, ROOT_BLOCK_WIDTH, ROOT_BLOCK_WIDTH),
        Axis::Y => (ROOT_BLOCK_WIDTH, SLICE_SIZE, ROOT_BLOCK_WIDTH),
        Axis::Z => (ROOT_BLOCK_WIDTH, ROOT_BLOCK_WIDTH, SLICE_SIZE),
    }
}

/// The copy for one piece of the slice that a request uploads.
#[verifier::rlimit(100)]
fn plan_piece(request: &TerrainUploadRequest, d1: usize, d2: usize) -> (r: SliceCopy)
    requires
        slice_request_ok(*request),
        d1 < 3,
        d2 < 3,
    ensures
        r == piece_copy(*request, (d2 * 3 + d1) as int),
        r.copy_size.0 <= 128 && r.copy_size.1 <= 128 && r.copy_size.2 <= 128,
        along((r.copy_size.0 as int, r.copy_size.1 as int, r.copy_size.2 as int), request.axis) == 16,
{
    proof {
        vstd::arithmetic::div_mod::lemma_fundamental_div_mod_converse((d2 * 3 + d1) as int, 3, d2 as int, d1 as int);
    }
    // We only need to start copying chunks at this offset (+ the request origin).
    let chunk_offset = request.num_slices.shrink(SLICES_PER_CHUNK);
    // How far into the first chunk we should start copying from. (Also how much we need to copy
    // from the last chunk.)
    let area_start = request.num_slices.wrap(SLICES_PER_CHUNK.repeat()).scale(SLICE_SIZE);
    // Which piece of the slice we are currently copying.
    let piece_offset: Coord3D = match request.axis {
        Axis::X => (0, d1, d2),
        Axis::Y => (d1, 0, d2),
        Axis::Z => (d1, d2, 0),
    };
    // Which chunk we are loading from.
    let world_coord = piece_offset.add(chunk_offset).signed().add(request.origin);
    // The coordinate inside the chunk to start copying from.
    let mut copy_start: Coord3D = (0, 0, 0);
    if piece_offset.0 == 0 {
        copy_start.0 = area_start.0;
    }
    if piece_offset.1 == 0 {
        copy_start.1 = area_start.1;
    }
    if piece_offset.2 == 0 {
        copy_start.2 = area_start.2;
    }
    // Copying should end before this coordinate on all axes. size = copy_end - copy_start.
    let mut copy_end: Coord3D = (CHUNK_SIZE, CHUNK_SIZE, CHUNK_SIZE);
    if piece_offset.0 == 2 {
        copy_end.0 = area_start.0;
    }
    if piece_offset.1 == 2 {
        copy_end.1 = area_start.1;
    }
    if piece_offset.2 == 2 {
        copy_end.2 = area_start.2;
    }
    // Also we should end copying at start + SLICE_SIZE along the main axis of the slice.
    match request.axis {
        Axis::X => copy_end.0 = copy_start.0 + SLICE_SIZE,
        Axis::Y => copy_end.1 = copy_start.1 + SLICE_SIZE,
        Axis::Z => copy_end.2 = copy_start.2 + SLICE_SIZE,
    }
    // The size of the data that will be copied.
    let copy_size = copy_end.sub(copy_start);
    // Compute generally where we should copy the data to (which chunk).
    let target_start = piece_offset.add(
        match request.axis {
            Axis::X => (0, chunk_offset.1, chunk_offset.2),
            Axis::Y => (chunk_offset.0, 0, chunk_offset.2),
            Axis::Z => (chunk_offset.0, chunk_offset.1, 0),
        },
    ).wrap(2usize.repeat()).scale(CHUNK_SIZE).signed();
    // If we copied with an offset on an off axis, the destination should have that same offset
    // on that same off axis.
    let target_offset: Coord3D = match request.axis {
        Axis::X => (0, copy_start.1, copy_start.2),
        Axis::Y => (copy_start.0, 0, copy_start.2),
        Axis::Z => (copy_start.0, copy_start.1, 0),
    };
    let target_start = target_start.add(target_offset.signed());
    SliceCopy { chunk: world_coord, copy_size, copy_start, target_start }
}

/// The nine copies, one from each of the 3 by 3 chunks across the slice, that make up the slice
/// a request uploads (some of them may be empty).
pub fn slice_copies(request: &TerrainUploadRequest) -> (r: Vec<SliceCopy>)
    requires
        slice_request_ok(*request),
    ensures
        r@.len() == 9,
        forall|k: int| 0 <= k < 9 ==> r@[k] == piece_copy(*request, k),
{
    let mut copies: Vec<SliceCopy> = Vec::new();
    let mut d2: usize = 0;
    while d2 < 3
        invariant
            slice_request_ok(*request),
            d2 <= 3,
            copies@.len() == 3 * d2,
            forall|k: int| 0 <= k < 3 * d2 ==> copies@[k] == piece_copy(*request, k),
        decreases 3 - d2,
    {
        let mut d1: usize = 0;
        while d1 < 3
            invariant
                slice_request_ok(*request),
                d2 < 3,
                d1 <= 3,
                copies@.len() == 3 * d2 + d1,
                forall|k: int| 0 <= k < 3 * d2 + d1 ==> copies@[k] == piece_copy(*request, k),
            decreases 3 - d1,
        {
            copies.push(plan_piece(request, d1, d2));
            d1 = d1 + 1;
        }
        d2 = d2 + 1;
    }
    copies
}

/// How far along the slice's axis the slice lands in the GPU's images.
pub open spec fn slice_axis_offset(request: TerrainUploadRequest) -> int {
    (along(
        (request.num_slices.0 as int, request.num_slices.1 as int, request.num_slices.2 as int),
        request.axis,
    ) % (ROOT_BLOCK_VOLUME / SLICE_SIZE) as int) * 16
}

/// Where the uploaded slice lands in the GPU's images: the axis offset along the slice's axis.
pub fn slice_target_offset(request: &TerrainUploadRequest) -> (r: Coord3D)
    requires
        slice_request_ok(*request),
    ensures
        r == match request.axis {
            Axis::X => (slice_axis_offset(*request) as usize, 0usize, 0usize),
            Axis::Y => (0usize, slice_axis_offset(*request) as usize, 0usize),
            Axis::Z => (0usize, 0usize, slice_axis_offset(*request) as usize),
        },
        r.0 + r.1 + r.2 == along(
            (request.num_slices.0 as int, request.num_slices.1 as int, request.num_slices.2 as int),
            request.axis,
        ) * SLICE_SIZE,
{
    proof {
        lemma_slices_land_apart(*request, *request);
    }
    let axis_num_slices = match request.axis {
        Axis::X => request.num_slices.0,
        Axis::Y => request.num_slices.1,
        Axis::Z => request.num_slices.2,
    };
    let axis_offset = axis_num_slices % (ROOT_BLOCK_VOLUME / SLICE_SIZE) * SLICE_SIZE;
    match request.axis {
        Axis::X => (axis_offset, 0, 0),
        Axis::Y => (0, axis_offset, 0),
        Axis::Z => (0, 0, axis_offset),
    }
}

/// Law: a slice lands in the GPU's images as many voxels along its axis as the slices loaded
/// before it span, a whole slice each; so slices loaded at different counts along one axis land
/// in voxel ranges that do not overlap.
pub proof fn lemma_slices_land_apart(r1: TerrainUploadRequest, r2: TerrainUploadRequest)
    requires
        slice_request_ok(r1),
        slice_request_ok(r2),
    ensures
        slice_axis_offset(r1) == along(
            (r1.num_slices.0 as int, r1.num_slices.1 as int, r1.num_slices.2 as int),
            r1.axis,
        ) * SLICE_SIZE,
        r1.axis == r2.axis && along(
            (r1.num_slices.0 as int, r1.num_slices.1 as int, r1.num_slices.2 as int),
            r1.axis,
        ) != along(
            (r2.num_slices.0 as int, r2.num_slices.1 as int, r2.num_slices.2 as int),
            r2.axis,
        ) ==> slice_axis_offset(r1) + SLICE_SIZE <= slice_axis_offset(r2) || slice_axis_offset(
            r2,
        ) + SLICE_SIZE <= slice_axis_offset(r1),
{
    let n1 = along(
        (r1.num_slices.0 as int, r1.num_slices.1 as int, r1.num_slices.2 as int),
        r1.axis,
    );
    let n2 = along(
        (r2.num_slices.0 as int, r2.num_slices.1 as int, r2.num_slices.2 as int),
        r2.axis,
    );
    assert(0 <= n1 < 16 && 0 <= n2 < 16);
    vstd::arithmetic::div_mod::lemma_small_mod(n1 as nat, (ROOT_BLOCK_VOLUME / SLICE_SIZE) as nat);
    vstd::arithmetic::div_mod::lemma_small_mod(n2 as nat, (ROOT_BLOCK_VOLUME / SLICE_SIZE) as nat);
}

/// Copies one piece of a slice out of its chunk into the upload buffers; an empty piece copies
/// nothing.
pub fn copy_slice_piece(
    copy: &SliceCopy,
    chunk: &PackedChunkData,
    data_shape: Coord3D,
    materials: &mut [u32],
    minefield: &mut [u8],
)
    requires
        chunk.materials@.len() == CHUNK_VOLUME,
        chunk.minefield@.len() == CHUNK_VOLUME,
        old(materials)@.len() == volume(data_shape),
        old(minefield)@.len() == volume(data_shape),
    ensures
        copy.copy_size.0 == 0 || copy.copy_size.1 == 0 || copy.copy_size.2 == 0 ==> final(materials)@
            == old(materials)@ && final(minefield)@ == old(minefield)@,
        !(copy.copy_size.0 == 0 || copy.copy_size.1 == 0 || copy.copy_size.2 == 0) ==> {
            &&& final(materials)@ == bounded_clip_result(
                copy.copy_size,
                chunk.materials@,
                (128usize, 128usize, 128usize),
                copy.copy_start,
                old(materials)@,
                data_shape,
                copy.target_start,
            )
            &&& final(minefield)@ == bounded_clip_result(
                copy.copy_size,
                chunk.minefield@,
                (128usize, 128usize, 128usize),
                copy.copy_start,
                old(minefield)@,
                data_shape,
                copy.target_start,
            )
        },
{
    if copy.copy_size.0 == 0 || copy.copy_size.1 == 0 || copy.copy_size.2 == 0 {
        return;
    }
    proof {
        assert(volume((128usize, 128usize, 128usize)) == CHUNK_VOLUME) by (nonlinear_arith);
    }
    crate::util::copy::copy_3d_bounded_auto_clip(
        copy.copy_size,
        &chunk.materials,
        (CHUNK_SIZE, CHUNK_SIZE, CHUNK_SIZE),
        copy.copy_start,
        materials,
        data_shape,
        copy.target_start,
    );
    crate::util::copy::copy_3d_bounded_auto_clip(
        copy.copy_size,
        &chunk.minefield,
        (CHUNK_SIZE, CHUNK_SIZE, CHUNK_SIZE),
        copy.copy_start,
        minefield,
        data_shape,
        copy.target_start,
    );
}


/// Component `j` of a triple.
pub open spec fn component(t: (int, int, int), j: int) -> int {
    if j == 0 {
        t.0
    } else if j == 1 {
        t.1
    } else {
        t.2
    }
}

/// Law: each piece of a slice reads, out of its chunk, exactly the world voxels that the slice
/// stands for. Along axis `j` the slice that a request uploads starts at world voxel
/// `origin * 128 + num_slices * 16` (the request's region moved on by its loaded slices). Along
/// the slice's own axis a piece reads the 16 voxels from there and writes them at the start of
/// the buffer. Along any other axis a non-empty piece reads voxels that lie within the 256 from
/// there, and writes them where the buffer keeps that voxel: the buffer wraps around every 256
/// voxels, with world voxel `origin * 128` at its start.
#[verifier::rlimit(100)]
pub proof fn lemma_piece_reads_its_voxels(request: TerrainUploadRequest, k: int, j: int)
    requires
        slice_request_ok(request),
        0 <= k < 9,
        0 <= j < 3,
    ensures
        ({
            let c = piece_copy(request, k);
            let chunk = component((c.chunk.0 as int, c.chunk.1 as int, c.chunk.2 as int), j);
            let start = component(
                (c.copy_start.0 as int, c.copy_start.1 as int, c.copy_start.2 as int),
                j,
            );
            let size = component(
                (c.copy_size.0 as int, c.copy_size.1 as int, c.copy_size.2 as int),
                j,
            );
            let target = component(
                (c.target_start.0 as int, c.target_start.1 as int, c.target_start.2 as int),
                j,
            );
            let origin = component(
                (request.origin.0 as int, request.origin.1 as int, request.origin.2 as int),
                j,
            );
            let n = component(
                (
                    request.num_slices.0 as int,
                    request.num_slices.1 as int,
                    request.num_slices.2 as int,
                ),
                j,
            );
            let world = chunk * 128 + start;
            let first = origin * 128 + n * 16;
            if j == axis_index(request.axis) {
                &&& world == first
                &&& target == 0
                &&& size == 16
            } else {
                size > 0 ==> {
                    &&& first <= world
                    &&& world + size <= first + 256
                    &&& 0 <= start && start + size <= 128
                    &&& 0 <= target && target + size <= 256
                    &&& (world - target - origin * 128) % 256 == 0
                }
            }
        }),
{
    let a = area_start(request);
    let o = chunk_offset(request);
    assert(0 <= a.0 <= 112 && 0 <= a.1 <= 112 && 0 <= a.2 <= 112);
    assert(0 <= o.0 <= 1 && 0 <= o.1 <= 1 && 0 <= o.2 <= 1);
    assert(request.num_slices.0 * 16 == o.0 * 128 + a.0);
    assert(request.num_slices.1 * 16 == o.1 * 128 + a.1);
    assert(request.num_slices.2 * 16 == o.2 * 128 + a.2);
    let p = piece_offset(request.axis, k);
    assert(0 <= p.0 < 3 && 0 <= p.1 < 3 && 0 <= p.2 < 3);
    match request.axis {
        Axis::X => {},
        Axis::Y => {},
        Axis::Z => {},
    }
}

/// Whether a piece copies nothing.
pub open spec fn piece_is_empty(c: SliceCopy) -> bool {
    c.copy_size.0 == 0 || c.copy_size.1 == 0 || c.copy_size.2 == 0
}

/// The contents of an upload buffer after the first `n` pieces of the slice that a request
/// uploads have been copied into it, piece `k` out of `chunks[k]`.
pub open spec fn slice_after_pieces<T>(
    request: TerrainUploadRequest,
    chunks: Seq<Seq<T>>,
    buffer: Seq<T>,
    n: nat,
) -> Seq<T>
    decreases n,
{
    if n == 0 {
        buffer
    } else {
        let before = slice_after_pieces(request, chunks, buffer, (n - 1) as nat);
        let c = piece_copy(request, n - 1);
        if piece_is_empty(c) {
            before
        } else {
            bounded_clip_result(
                c.copy_size,
                chunks[n - 1],
                (128usize, 128usize, 128usize),
                c.copy_start,
                before,
                slice_shape(request.axis),
                c.target_start,
            )
        }
    }
}

/// Fills the upload buffers with the slice that a request uploads, copying each of its nine
/// pieces out of the chunk it comes from; `chunks` holds those chunks in the order of
/// `slice_copies`.
pub fn fill_slice(
    request: &TerrainUploadRequest,
    chunks: &[PackedChunkData],
    materials: &mut [u32],
    minefield: &mut [u8],
)
    requires
        slice_request_ok(*request),
        chunks@.len() == 9,
        forall|k: int|
            0 <= k < 9 ==> (#[trigger] chunks@[k]).materials@.len() == CHUNK_VOLUME
                && chunks@[k].minefield@.len() == CHUNK_VOLUME,
        old(materials)@.len() == volume(slice_shape(request.axis)),
        old(minefield)@.len() == volume(slice_shape(request.axis)),
    ensures
        final(materials)@ == slice_after_pieces(
            *request,
            chunks@.map_values(|c: PackedChunkData| c.materials@),
            old(materials)@,
            9,
        ),
        final(minefield)@ == slice_after_pieces(
            *request,
            chunks@.map_values(|c: PackedChunkData| c.minefield@),
            old(minefield)@,
            9,
        ),
{
    let copies = slice_copies(request);
    let data_shape = slice_data_shape(request.axis);
    let ghost mats = chunks@.map_values(|c: PackedChunkData| c.materials@);
    let ghost mins = chunks@.map_values(|c: PackedChunkData| c.minefield@);
    let mut k: usize = 0;
    while k < 9
        invariant
            slice_request_ok(*request),
            k <= 9,
            copies@.len() == 9,
            forall|j: int| 0 <= j < 9 ==> copies@[j] == piece_copy(*request, j),
            data_shape == slice_shape(request.axis),
            chunks@.len() == 9,
            forall|j: int|
                0 <= j < 9 ==> (#[trigger] chunks@[j]).materials@.len() == CHUNK_VOLUME
                    && chunks@[j].minefield@.len() == CHUNK_VOLUME,
            mats == chunks@.map_values(|c: PackedChunkData| c.materials@),
            mins == chunks@.map_values(|c: PackedChunkData| c.minefield@),
            materials@.len() == volume(data_shape),
            minefield@.len() == volume(data_shape),
            materials@ == slice_after_pieces(*request, mats, old(materials)@, k as nat),
            minefield@ == slice_after_pieces(*request, mins, old(minefield)@, k as nat),
        decreases 9 - k,
    {
        let ghost before_materials = materials@;
        let ghost before_minefield = minefield@;
        copy_slice_piece(&copies[k], &chunks[k], data_shape, materials, minefield);
        proof {
            assert(mats[k as int] == chunks@[k as int].materials@);
            assert(mins[k as int] == chunks@[k as int].minefield@);
            assert(materials@.len() == before_materials.len());
            assert(minefield@.len() == before_minefield.len());
        }
        k = k + 1;
    }
}

/// Whether the place where a piece lands in the slice holds the voxel `t` of the slice.
pub open spec fn piece_covers(c: SliceCopy, t: (int, int, int)) -> bool {
    &&& c.target_start.0 <= t.0 < c.target_start.0 + c.copy_size.0
    &&& c.target_start.1 <= t.1 < c.target_start.1 + c.copy_size.1
    &&& c.target_start.2 <= t.2 < c.target_start.2 + c.copy_size.2
}

/// Where piece `d` of the three across one axis that is not the slice's axis lands.
spec fn axis_start(d: int, a: int, c: int) -> int {
    ((d + c) % 2) * 128 + if d == 0 { a } else { 0 }
}

/// How wide piece `d` of the three across one axis that is not the slice's axis is.
spec fn axis_size(d: int, a: int) -> int {
    if d == 0 {
        128 - a
    } else if d == 1 {
        128
    } else {
        a
    }
}

/// The piece across one axis that holds coordinate `t`.
spec fn covering_piece(t: int, a: int, c: int) -> int {
    let base = c * 128;
    if base <= t < base + 128 {
        if t >= base + a {
            0
        } else {
            2
        }
    } else {
        1
    }
}

proof fn lemma_axis_tile(a: int, c: int, t: int)
    requires
        0 <= a <= 112,
        0 <= c <= 1,
        0 <= t < 256,
    ensures
        0 <= covering_piece(t, a, c) < 3,
        axis_start(covering_piece(t, a, c), a, c) <= t < axis_start(covering_piece(t, a, c), a, c)
            + axis_size(covering_piece(t, a, c), a),
        forall|d: int|
            0 <= d < 3 && #[trigger] axis_start(d, a, c) <= t < axis_start(d, a, c) + axis_size(
                d,
                a,
            ) ==> d == covering_piece(t, a, c),
{
    assert(axis_start(0, a, c) == c * 128 + a);
    assert(axis_start(1, a, c) == (1 - c) * 128);
    assert(axis_start(2, a, c) == c * 128);
}

/// What a piece of a request copies, written per axis.
proof fn lemma_piece_copy_axes(request: TerrainUploadRequest, k: int)
    requires
        slice_request_ok(request),
        0 <= k < 9,
    ensures
        ({
            let c = piece_copy(request, k);
            let a = area_start(request);
            let o = chunk_offset(request);
            match request.axis {
                Axis::X => {
                    &&& c.target_start.0 == 0 && c.copy_size.0 == 16
                    &&& c.target_start.1 == axis_start(k % 3, a.1, o.1)
                    &&& c.copy_size.1 == axis_size(k % 3, a.1)
                    &&& c.target_start.2 == axis_start(k / 3, a.2, o.2)
                    &&& c.copy_size.2 == axis_size(k / 3, a.2)
                },
                Axis::Y => {
                    &&& c.target_start.1 == 0 && c.copy_size.1 == 16
                    &&& c.target_start.0 == axis_start(k % 3, a.0, o.0)
                    &&& c.copy_size.0 == axis_size(k % 3, a.0)
                    &&& c.target_start.2 == axis_start(k / 3, a.2, o.2)
                    &&& c.copy_size.2 == axis_size(k / 3, a.2)
                },
                Axis::Z => {
                    &&& c.target_start.2 == 0 && c.copy_size.2 == 16
                    &&& c.target_start.0 == axis_start(k % 3, a.0, o.0)
                    &&& c.copy_size.0 == axis_size(k % 3, a.0)
                    &&& c.target_start.1 == axis_start(k / 3, a.1, o.1)
                    &&& c.copy_size.1 == axis_size(k / 3, a.1)
                },
            }
        }),
{
    let a = area_start(request);
    assert(0 <= a.0 <= 112 && 0 <= a.1 <= 112 && 0 <= a.2 <= 112);
    let o = chunk_offset(request);
    assert(0 <= o.0 <= 1 && 0 <= o.1 <= 1 && 0 <= o.2 <= 1);
}

/// Law: the nine pieces of a slice tile it: every voxel of the slice is where exactly one piece
/// lands, so that together they copy a whole region-wide slice.
pub proof fn lemma_slice_pieces_tile(request: TerrainUploadRequest, t: (int, int, int))
    requires
        slice_request_ok(request),
        0 <= t.0 < slice_shape(request.axis).0,
        0 <= t.1 < slice_shape(request.axis).1,
        0 <= t.2 < slice_shape(request.axis).2,
    ensures
        exists|k: int| 0 <= k < 9 && #[trigger] piece_covers(piece_copy(request, k), t),
        forall|k1: int, k2: int|
            0 <= k1 < 9 && 0 <= k2 < 9 && #[trigger] piece_covers(piece_copy(request, k1), t)
                && #[trigger] piece_covers(piece_copy(request, k2), t) ==> k1 == k2,
{
    let a = area_start(request);
    let o = chunk_offset(request);
    assert(0 <= a.0 <= 112 && 0 <= a.1 <= 112 && 0 <= a.2 <= 112);
    assert(0 <= o.0 <= 1 && 0 <= o.1 <= 1 && 0 <= o.2 <= 1);
    let (u, v, ua, va, uo, vo) = match request.axis {
        Axis::X => (t.1, t.2, a.1, a.2, o.1, o.2),
        Axis::Y => (t.0, t.2, a.0, a.2, o.0, o.2),
        Axis::Z => (t.0, t.1, a.0, a.1, o.0, o.1),
    };
    lemma_axis_tile(ua, uo, u);
    lemma_axis_tile(va, vo, v);
    let w = covering_piece(u, ua, uo) + 3 * covering_piece(v, va, vo);
    lemma_piece_copy_axes(request, w);
    assert(w % 3 == covering_piece(u, ua, uo) && w / 3 == covering_piece(v, va, vo));
    assert(piece_covers(piece_copy(request, w), t));
    assert forall|k1: int, k2: int|
        0 <= k1 < 9 && 0 <= k2 < 9 && #[trigger] piece_covers(piece_copy(request, k1), t)
            && #[trigger] piece_covers(piece_copy(request, k2), t) implies k1 == k2 by {
        lemma_piece_copy_axes(request, k1);
        lemma_piece_copy_axes(request, k2);
        assert(k1 == k1 % 3 + 3 * (k1 / 3));
        assert(k2 == k2 % 3 + 3 * (k2 / 3));
    }
}

} // verus!
