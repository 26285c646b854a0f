use vstd::prelude::*;
use crate::util::coord_util::CoordUtil;
use crate::util::coords::{
    index_3d, index_3d_fits, lemma_index_3d_bound, lemma_index_3d_join, lemma_index_3d_split,
    Coord3D,
};

verus! {

/// The coordinate that index `t` stands for in a grid of dimensions `dims`, taken relative
/// to `origin`.
pub open spec fn relative_coord(t: int, dims: Coord3D, origin: Coord3D) -> (int, int, int) {
    (
        t % (dims.0 as int) - origin.0,
        (t / (dims.0 as int)) % (dims.1 as int) - origin.1,
        (t / (dims.0 as int)) / (dims.1 as int) - origin.2,
    )
}

/// Whether a relative coordinate lies inside a box of the given size anchored at zero.
pub open spec fn within(r: (int, int, int), size: Coord3D) -> bool {
    &&& 0 <= r.0 < size.0
    &&& 0 <= r.1 < size.1
    &&& 0 <= r.2 < size.2
}

/// The volume of a grid with the given dimensions.
pub open spec fn volume(dims: Coord3D) -> int {
    dims.0 * dims.1 * dims.2
}

/// The contents of `target` after the box of size `size` that starts at `source_start` in
/// `source` has been copied over the box that starts at `target_position` in `target`. Both
/// sequences are 3D grids laid out X first.
pub open spec fn copy_region<T>(
    target: Seq<T>,
    target_dims: Coord3D,
    target_position: Coord3D,
    source: Seq<T>,
    source_dims: Coord3D,
    source_start: Coord3D,
    size: Coord3D,
) -> Seq<T> {
    Seq::new(
        target.len(),
        |t: int|
            {
                let r = relative_coord(t, target_dims, target_position);
                if within(r, size) {
                    source[index_3d(
                        source_start.0 + r.0,
                        source_start.1 + r.1,
                        source_start.2 + r.2,
                        source_dims.0 as int,
                        source_dims.1 as int,
                    )]
                } else {
                    target[t]
                }
            },
    )
}

/// The contents of `target` after the box of size `size` that starts at `start` has been
/// filled with `value`.
pub open spec fn fill_region<T>(
    target: Seq<T>,
    target_dims: Coord3D,
    start: Coord3D,
    size: Coord3D,
    value: T,
) -> Seq<T> {
    Seq::new(
        target.len(),
        |t: int|
            if within(relative_coord(t, target_dims, start), size) {
                value
            } else {
                target[t]
            },
    )
}

/// Whether relative coordinate `r` comes before `(x, y, z)` in X-first order.
spec fn before(r: (int, int, int), x: int, y: int, z: int) -> bool {
    r.2 < z || (r.2 == z && (r.1 < y || (r.1 == y && r.0 < x)))
}

spec fn partial_copy<T>(
    target: Seq<T>,
    target_dims: Coord3D,
    target_position: Coord3D,
    source: Seq<T>,
    source_dims: Coord3D,
    source_start: Coord3D,
    size: Coord3D,
    x: int,
    y: int,
    z: int,
) -> Seq<T> {
    Seq::new(
        target.len(),
        |t: int|
            {
                let r = relative_coord(t, target_dims, target_position);
                if within(r, size) && before(r, x, y, z) {
                    source[index_3d(
                        source_start.0 + r.0,
                        source_start.1 + r.1,
                        source_start.2 + r.2,
                        source_dims.0 as int,
                        source_dims.1 as int,
                    )]
                } else {
                    target[t]
                }
            },
    )
}

/// Copying the box cell by cell: writing one more cell moves the partial copy one step on.
proof fn lemma_copy_step<T>(
    cur: Seq<T>,
    target: Seq<T>,
    target_dims: Coord3D,
    target_position: Coord3D,
    source: Seq<T>,
    source_dims: Coord3D,
    source_start: Coord3D,
    size: Coord3D,
    x: int,
    y: int,
    z: int,
)
    requires
        target.len() == volume(target_dims),
        source.len() == volume(source_dims),
        source_start.0 + size.0 <= source_dims.0,
        source_start.1 + size.1 <= source_dims.1,
        source_start.2 + size.2 <= source_dims.2,
        target_position.0 + size.0 <= target_dims.0,
        target_position.1 + size.1 <= target_dims.1,
        target_position.2 + size.2 <= target_dims.2,
        0 <= x < size.0,
        0 <= y < size.1,
        0 <= z < size.2,
        cur == partial_copy(
            target, target_dims, target_position, source, source_dims, source_start, size, x, y, z),
    ensures
        ({
            let ti = index_3d(
                target_position.0 + x,
                target_position.1 + y,
                target_position.2 + z,
                target_dims.0 as int,
                target_dims.1 as int,
            );
            let si = index_3d(
                source_start.0 + x,
                source_start.1 + y,
                source_start.2 + z,
                source_dims.0 as int,
                source_dims.1 as int,
            );
            &&& 0 <= ti < target.len()
            &&& 0 <= si < source.len()
            &&& cur.update(ti, source[si]) == partial_copy(
                target,
                target_dims,
                target_position,
                source,
                source_dims,
                source_start,
                size,
                x + 1,
                y,
                z,
            )
        }),
{
    let (td0, td1, td2) = (target_dims.0 as int, target_dims.1 as int, target_dims.2 as int);
    let (tp0, tp1, tp2) = (
        target_position.0 as int,
        target_position.1 as int,
        target_position.2 as int,
    );
    let ti = index_3d(tp0 + x, tp1 + y, tp2 + z, td0, td1);
    let si = index_3d(
        source_start.0 + x,
        source_start.1 + y,
        source_start.2 + z,
        source_dims.0 as int,
        source_dims.1 as int,
    );
    lemma_index_3d_split(tp0 + x, tp1 + y, tp2 + z, td0, td1);
    lemma_index_3d_bound(tp0 + x, tp1 + y, tp2 + z, td0, td1, td2);
    lemma_index_3d_bound(
        source_start.0 + x,
        source_start.1 + y,
        source_start.2 + z,
        source_dims.0 as int,
        source_dims.1 as int,
        source_dims.2 as int,
    );
    let next = partial_copy(
        target, target_dims, target_position, source, source_dims, source_start, size, x + 1, y, z);
    assert forall|t: int| 0 <= t < target.len() implies #[trigger] cur.update(ti, source[si])[t]
        == next[t] by {
        lemma_index_3d_join(t, td0, td1, td2);
        let r = relative_coord(t, target_dims, target_position);
        if t != ti {
            if r == (x, y, z) {
                assert(t == ti);
            }
        }
    }
    assert(cur.update(ti, source[si]) =~= next);
}

/// Copying the box cell by cell: the end of a row is the start of the next row, and the end
/// of a layer is the start of the next layer.
proof fn lemma_copy_carry<T>(
    target: Seq<T>,
    target_dims: Coord3D,
    target_position: Coord3D,
    source: Seq<T>,
    source_dims: Coord3D,
    source_start: Coord3D,
    size: Coord3D,
    y: int,
    z: int,
)
    ensures
        partial_copy(
            target, target_dims, target_position, source, source_dims, source_start, size,
            size.0 as int, y, z,
        ) == partial_copy(
            target, target_dims, target_position, source, source_dims, source_start, size, 0,
            y + 1, z,
        ),
        partial_copy(
            target, target_dims, target_position, source, source_dims, source_start, size, 0,
            size.1 as int, z,
        ) == partial_copy(
            target, target_dims, target_position, source, source_dims, source_start, size, 0, 0,
            z + 1,
        ),
        partial_copy(
            target, target_dims, target_position, source, source_dims, source_start, size, 0, 0,
            size.2 as int,
        ) == copy_region(
            target, target_dims, target_position, source, source_dims, source_start, size),
        partial_copy(
            target, target_dims, target_position, source, source_dims, source_start, size, 0, 0, 0,
        ) == target,
{
    assert(partial_copy(
        target, target_dims, target_position, source, source_dims, source_start, size,
        size.0 as int, y, z,
    ) =~= partial_copy(
        target, target_dims, target_position, source, source_dims, source_start, size, 0, y + 1, z,
    ));
    assert(partial_copy(
        target, target_dims, target_position, source, source_dims, source_start, size, 0,
        size.1 as int, z,
    ) =~= partial_copy(
        target, target_dims, target_position, source, source_dims, source_start, size, 0, 0, z + 1,
    ));
    assert(partial_copy(
        target, target_dims, target_position, source, source_dims, source_start, size, 0, 0,
        size.2 as int,
    ) =~= copy_region(
        target, target_dims, target_position, source, source_dims, source_start, size));
    assert(partial_copy(
        target, target_dims, target_position, source, source_dims, source_start, size, 0, 0, 0,
    ) =~= target);
}

/// Copies data from one array to another, assuming both arrays represent 3d data. data_size
/// dictates the dimensions of the area that will be copied. source_start specifies where in the
/// source data to start copying from. target_position specifies where in the target data to start
/// copying to. If you want the copy's size to be automatically computed, use copy_3d_auto_clip
/// instead. X coordinate is the least significant.
pub fn copy_3d<T: Copy>(
    data_size: (usize, usize, usize),
    source: &[T],
    source_dims: Coord3D,
    source_start: (usize, usize, usize),
    target: &mut [T],
    target_dims: Coord3D,
    target_position: (usize, usize, usize),
)
    requires
        source@.len() == volume(source_dims),
        old(target)@.len() == volume(target_dims),
        source_start.0 + data_size.0 <= source_dims.0,
        source_start.1 + data_size.1 <= source_dims.1,
        source_start.2 + data_size.2 <= source_dims.2,
        target_position.0 + data_size.0 <= target_dims.0,
        target_position.1 + data_size.1 <= target_dims.1,
        target_position.2 + data_size.2 <= target_dims.2,
    ensures
        final(target)@ == copy_region(
            old(target)@,
            target_dims,
            target_position,
            source@,
            source_dims,
            source_start,
            data_size,
        ),
{
    let ghost original = target@;
    // Taking the length brings its bound (it fits in a usize) into the proof.
    let _source_len = source.len();
    let _target_len = target.len();
    proof {
        lemma_copy_carry(
            original, target_dims, target_position, source@, source_dims, source_start, data_size,
            0, 0);
    }
    if data_size.0 == 0 || data_size.1 == 0 || data_size.2 == 0 {
        proof {
            assert(copy_region(
                original, target_dims, target_position, source@, source_dims, source_start,
                data_size,
            ) =~= original);
        }
        return;
    }
    let mut z: usize = 0;
    while z < data_size.2
        invariant
            source@.len() == volume(source_dims),
            original.len() == volume(target_dims),
            volume(source_dims) <= usize::MAX,
            volume(target_dims) <= usize::MAX,
            source_start.0 + data_size.0 <= source_dims.0,
            source_start.1 + data_size.1 <= source_dims.1,
            source_start.2 + data_size.2 <= source_dims.2,
            target_position.0 + data_size.0 <= target_dims.0,
            target_position.1 + data_size.1 <= target_dims.1,
            target_position.2 + data_size.2 <= target_dims.2,
            data_size.0 > 0,
            data_size.1 > 0,
            z <= data_size.2,
            target@ == partial_copy(
                original, target_dims, target_position, source@, source_dims, source_start,
                data_size, 0, 0, z as int,
            ),
        decreases data_size.2 - z,
    {
        let mut y: usize = 0;
        while y < data_size.1
            invariant
                source@.len() == volume(source_dims),
                original.len() == volume(target_dims),
                volume(source_dims) <= usize::MAX,
                volume(target_dims) <= usize::MAX,
                source_start.0 + data_size.0 <= source_dims.0,
                source_start.1 + data_size.1 <= source_dims.1,
                source_start.2 + data_size.2 <= source_dims.2,
                target_position.0 + data_size.0 <= target_dims.0,
                target_position.1 + data_size.1 <= target_dims.1,
                target_position.2 + data_size.2 <= target_dims.2,
                data_size.0 > 0,
                z < data_size.2,
                y <= data_size.1,
                target@ == partial_copy(
                    original, target_dims, target_position, source@, source_dims, source_start,
                    data_size, 0, y as int, z as int,
                ),
            decreases data_size.1 - y,
        {
            let source_row = (source_start.0, source_start.1 + y, source_start.2 + z);
            let target_row = (target_position.0, target_position.1 + y, target_position.2 + z);
            proof {
                lemma_index_fits(source_row, source_dims);
                lemma_index_fits(target_row, target_dims);
            }
            let mut source_index = source_row.to_index(source_dims);
            let mut target_index = target_row.to_index(target_dims);
            let mut x: usize = 0;
            while x < data_size.0
                invariant
                    source@.len() == volume(source_dims),
                    original.len() == volume(target_dims),
                    source_start.0 + data_size.0 <= source_dims.0,
                    source_start.1 + data_size.1 <= source_dims.1,
                    source_start.2 + data_size.2 <= source_dims.2,
                    target_position.0 + data_size.0 <= target_dims.0,
                    target_position.1 + data_size.1 <= target_dims.1,
                    target_position.2 + data_size.2 <= target_dims.2,
                    z < data_size.2,
                    y < data_size.1,
                    x <= data_size.0,
                    source_index == index_3d(
                        source_start.0 + x,
                        source_start.1 + y,
                        source_start.2 + z,
                        source_dims.0 as int,
                        source_dims.1 as int,
                    ),
                    target_index == index_3d(
                        target_position.0 + x,
                        target_position.1 + y,
                        target_position.2 + z,
                        target_dims.0 as int,
                        target_dims.1 as int,
                    ),
                    target@ == partial_copy(
                        original, target_dims, target_position, source@, source_dims,
                        source_start, data_size, x as int, y as int, z as int,
                    ),
                decreases data_size.0 - x,
            {
                proof {
                    lemma_copy_step(
                        target@, original, target_dims, target_position, source@, source_dims,
                        source_start, data_size, x as int, y as int, z as int);
                }
                target[target_index] = source[source_index];
                // Increasing the x coordinate by 1 increases the index by 1.
                source_index = source_index + 1;
                target_index = target_index + 1;
                x = x + 1;
            }
            proof {
                lemma_copy_carry(
                    original, target_dims, target_position, source@, source_dims, source_start,
                    data_size, y as int, z as int);
            }
            y = y + 1;
        }
        proof {
            lemma_copy_carry(
                original, target_dims, target_position, source@, source_dims, source_start,
                data_size, y as int, z as int);
        }
        z = z + 1;
    }
    proof {
        lemma_copy_carry(
            original, target_dims, target_position, source@, source_dims, source_start, data_size,
            0, z as int);
    }
}

spec fn partial_fill<T>(
    target: Seq<T>,
    target_dims: Coord3D,
    start: Coord3D,
    size: Coord3D,
    value: T,
    x: int,
    y: int,
    z: int,
) -> Seq<T> {
    Seq::new(
        target.len(),
        |t: int|
            {
                let r = relative_coord(t, target_dims, start);
                if within(r, size) && before(r, x, y, z) {
                    value
                } else {
                    target[t]
                }
            },
    )
}

proof fn lemma_fill_step<T>(
    cur: Seq<T>,
    target: Seq<T>,
    target_dims: Coord3D,
    start: Coord3D,
    size: Coord3D,
    value: T,
    x: int,
    y: int,
    z: int,
)
    requires
        target.len() == volume(target_dims),
        start.0 + size.0 <= target_dims.0,
        start.1 + size.1 <= target_dims.1,
        start.2 + size.2 <= target_dims.2,
        0 <= x < size.0,
        0 <= y < size.1,
        0 <= z < size.2,
        cur == partial_fill(target, target_dims, start, size, value, x, y, z),
    ensures
        ({
            let ti = index_3d(
                start.0 + x,
                start.1 + y,
                start.2 + z,
                target_dims.0 as int,
                target_dims.1 as int,
            );
            &&& 0 <= ti < target.len()
            &&& cur.update(ti, value) == partial_fill(
                target,
                target_dims,
                start,
                size,
                value,
                x + 1,
                y,
                z,
            )
        }),
{
    let (td0, td1, td2) = (target_dims.0 as int, target_dims.1 as int, target_dims.2 as int);
    let ti = index_3d(start.0 + x, start.1 + y, start.2 + z, td0, td1);
    lemma_index_3d_split(start.0 + x, start.1 + y, start.2 + z, td0, td1);
    lemma_index_3d_bound(start.0 + x, start.1 + y, start.2 + z, td0, td1, td2);
    let next = partial_fill(target, target_dims, start, size, value, x + 1, y, z);
    assert forall|t: int| 0 <= t < target.len() implies #[trigger] cur.update(ti, value)[t]
        == next[t] by {
        lemma_index_3d_join(t, td0, td1, td2);
        let r = relative_coord(t, target_dims, start);
        if t != ti {
            if r == (x, y, z) {
                assert(t == ti);
            }
        }
    }
    assert(cur.update(ti, value) =~= next);
}

proof fn lemma_fill_carry<T>(
    target: Seq<T>,
    target_dims: Coord3D,
    start: Coord3D,
    size: Coord3D,
    value: T,
    y: int,
    z: int,
)
    ensures
        partial_fill(target, target_dims, start, size, value, size.0 as int, y, z)
            == partial_fill(target, target_dims, start, size, value, 0, y + 1, z),
        partial_fill(target, target_dims, start, size, value, 0, size.1 as int, z)
            == partial_fill(target, target_dims, start, size, value, 0, 0, z + 1),
        partial_fill(target, target_dims, start, size, value, 0, 0, size.2 as int)
            == fill_region(target, target_dims, start, size, value),
        partial_fill(target, target_dims, start, size, value, 0, 0, 0) == target,
{
    assert(partial_fill(target, target_dims, start, size, value, size.0 as int, y, z)
        =~= partial_fill(target, target_dims, start, size, value, 0, y + 1, z));
    assert(partial_fill(target, target_dims, start, size, value, 0, size.1 as int, z)
        =~= partial_fill(target, target_dims, start, size, value, 0, 0, z + 1));
    assert(partial_fill(target, target_dims, start, size, value, 0, 0, size.2 as int)
        =~= fill_region(target, target_dims, start, size, value));
    assert(partial_fill(target, target_dims, start, size, value, 0, 0, 0) =~= target);
}

/// Fills the box of size `slice_size` that starts at `slice_start` in a cube of side
/// `target_stride` with `value`.
pub fn fill_slice_3d<T: Copy>(
    value: T,
    target: &mut [T],
    target_stride: usize,
    slice_start: Coord3D,
    slice_size: Coord3D,
)
    requires
        old(target)@.len() == volume((target_stride, target_stride, target_stride)),
        slice_start.0 + slice_size.0 <= target_stride,
        slice_start.1 + slice_size.1 <= target_stride,
        slice_start.2 + slice_size.2 <= target_stride,
    ensures
        final(target)@ == fill_region(
            old(target)@,
            (target_stride, target_stride, target_stride),
            slice_start,
            slice_size,
            value,
        ),
{
    let ghost original = target@;
    let ghost dims = (target_stride, target_stride, target_stride);
    // Taking the length brings its bound (it fits in a usize) into the proof.
    let _target_len = target.len();
    proof {
        lemma_fill_carry(original, dims, slice_start, slice_size, value, 0, 0);
    }
    if slice_size.0 == 0 || slice_size.1 == 0 || slice_size.2 == 0 {
        proof {
            assert(fill_region(original, dims, slice_start, slice_size, value) =~= original);
        }
        return;
    }
    let mut z: usize = 0;
    while z < slice_size.2
        invariant
            dims == (target_stride, target_stride, target_stride),
            original.len() == volume(dims),
            volume(dims) <= usize::MAX,
            slice_start.0 + slice_size.0 <= target_stride,
            slice_start.1 + slice_size.1 <= target_stride,
            slice_start.2 + slice_size.2 <= target_stride,
            slice_size.0 > 0,
            slice_size.1 > 0,
            z <= slice_size.2,
            target@ == partial_fill(original, dims, slice_start, slice_size, value, 0, 0, z as int),
        decreases slice_size.2 - z,
    {
        let mut y: usize = 0;
        while y < slice_size.1
            invariant
                dims == (target_stride, target_stride, target_stride),
                original.len() == volume(dims),
                volume(dims) <= usize::MAX,
                slice_start.0 + slice_size.0 <= target_stride,
                slice_start.1 + slice_size.1 <= target_stride,
                slice_start.2 + slice_size.2 <= target_stride,
                slice_size.0 > 0,
                z < slice_size.2,
                y <= slice_size.1,
                target@ == partial_fill(
                    original, dims, slice_start, slice_size, value, 0, y as int, z as int),
            decreases slice_size.1 - y,
        {
            let row = (slice_start.0, slice_start.1 + y, slice_start.2 + z);
            proof {
                lemma_index_fits(row, dims);
            }
            let mut target_index = row.to_index((target_stride, target_stride, target_stride));
            let mut x: usize = 0;
            while x < slice_size.0
                invariant
                    dims == (target_stride, target_stride, target_stride),
                    original.len() == volume(dims),
                    slice_start.0 + slice_size.0 <= target_stride,
                    slice_start.1 + slice_size.1 <= target_stride,
                    slice_start.2 + slice_size.2 <= target_stride,
                    z < slice_size.2,
                    y < slice_size.1,
                    x <= slice_size.0,
                    target_index == index_3d(
                        slice_start.0 + x,
                        slice_start.1 + y,
                        slice_start.2 + z,
                        target_stride as int,
                        target_stride as int,
                    ),
                    target@ == partial_fill(
                        original, dims, slice_start, slice_size, value, x as int, y as int,
                        z as int),
                decreases slice_size.0 - x,
            {
                proof {
                    lemma_fill_step(
                        target@, original, dims, slice_start, slice_size, value, x as int,
                        y as int, z as int);
                }
                target[target_index] = value;
                // Increasing the x coordinate by 1 increases the index by 1.
                target_index = target_index + 1;
                x = x + 1;
            }
            proof {
                lemma_fill_carry(original, dims, slice_start, slice_size, value, y as int, z as int);
            }
            y = y + 1;
        }
        proof {
            lemma_fill_carry(original, dims, slice_start, slice_size, value, y as int, z as int);
        }
        z = z + 1;
    }
    proof {
        lemma_fill_carry(original, dims, slice_start, slice_size, value, 0, z as int);
    }
}

pub open spec fn min_int(a: int, b: int) -> int {
    if a <= b { a } else { b }
}

/// A cube of side `stride`.
pub open spec fn cube(stride: usize) -> Coord3D {
    (stride, stride, stride)
}

/// The coordinate that index `t` stands for in a grid of dimensions `dims`.
pub open spec fn grid_coord(t: int, dims: Coord3D) -> (int, int, int) {
    relative_coord(t, dims, (0usize, 0usize, 0usize))
}

/// On one axis: whether target coordinate `c` is a slot of the target that receives offset
/// `c - target_start` of a copy of `size`, with source data at that offset from `source_start`.
pub open spec fn placed_axis(
    c: int,
    target_dim: int,
    target_start: int,
    size: int,
    source_start: int,
    source_dim: int,
) -> bool {
    &&& 0 <= c < target_dim
    &&& 0 <= c - target_start < size
    &&& source_start + (c - target_start) < source_dim
}

/// The target after every offset `d` below `size` that has both source data at
/// `source_start + d` and a target slot at `target_start + d` has been copied there; every other
/// cell keeps its value.
pub open spec fn placed_copy<T>(
    target: Seq<T>,
    target_dims: Coord3D,
    target_start: (isize, isize, isize),
    source: Seq<T>,
    source_dims: Coord3D,
    source_start: Coord3D,
    size: Coord3D,
) -> Seq<T> {
    Seq::new(
        target.len(),
        |t: int|
            {
                let c = grid_coord(t, target_dims);
                if placed_axis(
                    c.0,
                    target_dims.0 as int,
                    target_start.0 as int,
                    size.0 as int,
                    source_start.0 as int,
                    source_dims.0 as int,
                ) && placed_axis(
                    c.1,
                    target_dims.1 as int,
                    target_start.1 as int,
                    size.1 as int,
                    source_start.1 as int,
                    source_dims.1 as int,
                ) && placed_axis(
                    c.2,
                    target_dims.2 as int,
                    target_start.2 as int,
                    size.2 as int,
                    source_start.2 as int,
                    source_dims.2 as int,
                ) {
                    source[index_3d(
                        source_start.0 + (c.0 - target_start.0),
                        source_start.1 + (c.1 - target_start.1),
                        source_start.2 + (c.2 - target_start.2),
                        source_dims.0 as int,
                        source_dims.1 as int,
                    )]
                } else {
                    target[t]
                }
            },
    )
}

/// On one axis: the box copy that makes up `placed_axis`, as (size, source start, target
/// position). A target start before the target moves the source start on by as much and
/// shrinks the size by as much; then the size is cut to what is left of the source and of the
/// target. `None` where nothing is left.
pub open spec fn clip_plan_axis(
    size: int,
    source_start: int,
    source_dim: int,
    target_dim: int,
    target_start: int,
) -> Option<(int, int, int)> {
    let neg = if target_start < 0 { -target_start } else { 0 };
    let s = source_start + neg;
    let p = if target_start < 0 { 0 } else { target_start };
    let n = min_int(min_int(size - neg, source_dim - s), target_dim - p);
    if n <= 0 {
        None
    } else {
        Some((n, s, p))
    }
}

/// The box copy that makes up `placed_copy`, as (size, source start, target position);
/// `None` where some axis leaves nothing to copy.
pub open spec fn clip_plan(
    size: Coord3D,
    source_dims: Coord3D,
    source_start: Coord3D,
    target_dims: Coord3D,
    target_start: (isize, isize, isize),
) -> Option<(Coord3D, Coord3D, Coord3D)> {
    let a = clip_plan_axis(
        size.0 as int,
        source_start.0 as int,
        source_dims.0 as int,
        target_dims.0 as int,
        target_start.0 as int,
    );
    let b = clip_plan_axis(
        size.1 as int,
        source_start.1 as int,
        source_dims.1 as int,
        target_dims.1 as int,
        target_start.1 as int,
    );
    let c = clip_plan_axis(
        size.2 as int,
        source_start.2 as int,
        source_dims.2 as int,
        target_dims.2 as int,
        target_start.2 as int,
    );
    if a is Some && b is Some && c is Some {
        let (a, b, c) = (a.unwrap(), b.unwrap(), c.unwrap());
        Some(
            (
                (a.0 as usize, b.0 as usize, c.0 as usize),
                (a.1 as usize, b.1 as usize, c.1 as usize),
                (a.2 as usize, b.2 as usize, c.2 as usize),
            ),
        )
    } else {
        None
    }
}

proof fn lemma_clip_plan_axis(
    size: int,
    source_start: int,
    source_dim: int,
    target_dim: int,
    target_start: int,
    c: int,
)
    requires
        size >= 0,
        source_start >= 0,
    ensures
        clip_plan_axis(size, source_start, source_dim, target_dim, target_start) matches Some(a)
            ==> {
            &&& (0 <= c - a.2 < a.0 <==> placed_axis(
                c,
                target_dim,
                target_start,
                size,
                source_start,
                source_dim,
            ))
            &&& a.1 + (c - a.2) == source_start + (c - target_start)
            &&& 0 < a.0 && 0 <= a.1 && 0 <= a.2
            &&& a.1 + a.0 <= source_dim && a.2 + a.0 <= target_dim && a.0 <= size
        },
        clip_plan_axis(size, source_start, source_dim, target_dim, target_start) is None
            ==> !placed_axis(c, target_dim, target_start, size, source_start, source_dim),
{
}

/// Whether `copy_3d_bounded_auto_clip` finds grids of the stated dimensions wherever it copies
/// anything.
pub open spec fn bounded_clip_ok<T>(
    size: Coord3D,
    source: Seq<T>,
    source_dims: Coord3D,
    source_start: Coord3D,
    target: Seq<T>,
    target_dims: Coord3D,
    target_start: (isize, isize, isize),
) -> bool {
    clip_plan(size, source_dims, source_start, target_dims, target_start) is Some ==> {
        &&& source.len() == volume(source_dims)
        &&& target.len() == volume(target_dims)
    }
}

/// What `copy_3d_bounded_auto_clip` leaves in the target.
pub open spec fn bounded_clip_result<T>(
    size: Coord3D,
    source: Seq<T>,
    source_dims: Coord3D,
    source_start: Coord3D,
    target: Seq<T>,
    target_dims: Coord3D,
    target_start: (isize, isize, isize),
) -> Seq<T> {
    placed_copy(target, target_dims, target_start, source, source_dims, source_start, size)
}

/// A planned box copy is exactly the placed copy.
proof fn lemma_plan_is_placed_copy<T>(
    size: Coord3D,
    source: Seq<T>,
    source_dims: Coord3D,
    source_start: Coord3D,
    target: Seq<T>,
    target_dims: Coord3D,
    target_start: (isize, isize, isize),
)
    ensures
        clip_plan(size, source_dims, source_start, target_dims, target_start) matches Some(plan)
            ==> copy_region(target, target_dims, plan.2, source, source_dims, plan.1, plan.0)
            == placed_copy(target, target_dims, target_start, source, source_dims, source_start, size),
        clip_plan(size, source_dims, source_start, target_dims, target_start) is None
            ==> placed_copy(target, target_dims, target_start, source, source_dims, source_start, size)
            == target,
{
    let placed = placed_copy(
        target,
        target_dims,
        target_start,
        source,
        source_dims,
        source_start,
        size,
    );
    let (sz0, sz1, sz2) = (size.0 as int, size.1 as int, size.2 as int);
    let (ss0, ss1, ss2) = (source_start.0 as int, source_start.1 as int, source_start.2 as int);
    let (sd0, sd1, sd2) = (source_dims.0 as int, source_dims.1 as int, source_dims.2 as int);
    let (td0, td1, td2) = (target_dims.0 as int, target_dims.1 as int, target_dims.2 as int);
    let (ts0, ts1, ts2) = (target_start.0 as int, target_start.1 as int, target_start.2 as int);
    assert forall|t: int|
        #![trigger grid_coord(t, target_dims)]
        0 <= t < target.len() implies {
        let c = grid_coord(t, target_dims);
        &&& (clip_plan_axis(sz0, ss0, sd0, td0, ts0) matches Some(a) ==> {
            &&& (0 <= c.0 - a.2 < a.0 <==> placed_axis(c.0, td0, ts0, sz0, ss0, sd0))
            &&& a.1 + (c.0 - a.2) == ss0 + (c.0 - ts0)
            &&& 0 < a.0 && 0 <= a.1 && 0 <= a.2
            &&& a.1 + a.0 <= sd0 && a.2 + a.0 <= td0 && a.0 <= sz0
        })
        &&& (clip_plan_axis(sz0, ss0, sd0, td0, ts0) is None ==> !placed_axis(c.0, td0, ts0, sz0, ss0, sd0))
        &&& (clip_plan_axis(sz1, ss1, sd1, td1, ts1) matches Some(a) ==> {
            &&& (0 <= c.1 - a.2 < a.0 <==> placed_axis(c.1, td1, ts1, sz1, ss1, sd1))
            &&& a.1 + (c.1 - a.2) == ss1 + (c.1 - ts1)
            &&& 0 < a.0 && 0 <= a.1 && 0 <= a.2
            &&& a.1 + a.0 <= sd1 && a.2 + a.0 <= td1 && a.0 <= sz1
        })
        &&& (clip_plan_axis(sz1, ss1, sd1, td1, ts1) is None ==> !placed_axis(c.1, td1, ts1, sz1, ss1, sd1))
        &&& (clip_plan_axis(sz2, ss2, sd2, td2, ts2) matches Some(a) ==> {
            &&& (0 <= c.2 - a.2 < a.0 <==> placed_axis(c.2, td2, ts2, sz2, ss2, sd2))
            &&& a.1 + (c.2 - a.2) == ss2 + (c.2 - ts2)
            &&& 0 < a.0 && 0 <= a.1 && 0 <= a.2
            &&& a.1 + a.0 <= sd2 && a.2 + a.0 <= td2 && a.0 <= sz2
        })
        &&& (clip_plan_axis(sz2, ss2, sd2, td2, ts2) is None ==> !placed_axis(c.2, td2, ts2, sz2, ss2, sd2))
    } by {
        let c = grid_coord(t, target_dims);
        lemma_clip_plan_axis(sz0, ss0, sd0, td0, ts0, c.0);
        lemma_clip_plan_axis(sz1, ss1, sd1, td1, ts1, c.1);
        lemma_clip_plan_axis(sz2, ss2, sd2, td2, ts2, c.2);
    }
    match clip_plan(size, source_dims, source_start, target_dims, target_start) {
        Some(plan) => {
            assert(copy_region(target, target_dims, plan.2, source, source_dims, plan.1, plan.0)
                =~= placed);
        },
        None => {
            assert(placed =~= target);
        },
    }
}

/// One axis of the clipped copy: where it stands once a target start before the target has
/// been taken off the size and added to the source start, and the size has been cut to what is
/// left of the source and of the target.
fn clip_axis(size: usize, source_start: usize, source_dim: usize, target_dim: usize, target_start: isize) -> (r:
    Option<(usize, usize, usize)>)
    ensures
        r matches Some(a) ==> clip_plan_axis(
            size as int,
            source_start as int,
            source_dim as int,
            target_dim as int,
            target_start as int,
        ) == Some((a.0 as int, a.1 as int, a.2 as int)),
        r is None ==> clip_plan_axis(
            size as int,
            source_start as int,
            source_dim as int,
            target_dim as int,
            target_start as int,
        ) is None,
{
    if target_start < 0 {
        // The negated start, computed without overflow.
        let neg: usize = (-(target_start + 1)) as usize + 1;
        if neg >= size || source_start >= source_dim || neg >= source_dim - source_start
            || target_dim == 0 {
            return None;
        }
        let source_start = source_start + neg;
        let n = (size - neg).min(source_dim - source_start).min(target_dim);
        Some((n, source_start, 0))
    } else {
        let target_position = target_start as usize;
        if target_position >= target_dim || source_start >= source_dim || size == 0 {
            return None;
        }
        let n = size.min(source_dim - source_start).min(target_dim - target_position);
        Some((n, source_start, target_position))
    }
}

/// Copies a region of size `size` from source to target, assuming both are 3D arrays. source_start
/// and target_start are the coordinates to start copying at and start copying to. Negative
/// target coordinates and an overly large size are both valid, these values will be clipped to
/// create a valid copy based on the area that actually has both source data to copy from and target
/// data to copy to. The data that was originally located at source_start can be found at
/// target_start
pub fn copy_3d_bounded_auto_clip<T: Copy>(
    size: Coord3D,
    source: &[T],
    source_dims: Coord3D,
    source_start: Coord3D,
    target: &mut [T],
    target_dims: Coord3D,
    target_start: (isize, isize, isize),
)
    requires
        bounded_clip_ok(
            size,
            source@,
            source_dims,
            source_start,
            old(target)@,
            target_dims,
            target_start,
        ),
    ensures
        final(target)@ == bounded_clip_result(
            size,
            source@,
            source_dims,
            source_start,
            old(target)@,
            target_dims,
            target_start,
        ),
{
    proof {
        lemma_plan_is_placed_copy(
            size,
            source@,
            source_dims,
            source_start,
            target@,
            target_dims,
            target_start,
        );
    }
    let a = match clip_axis(size.0, source_start.0, source_dims.0, target_dims.0, target_start.0) {
        Some(axis) => axis,
        None => return ,
    };
    let b = match clip_axis(size.1, source_start.1, source_dims.1, target_dims.1, target_start.1) {
        Some(axis) => axis,
        None => return ,
    };
    let c = match clip_axis(size.2, source_start.2, source_dims.2, target_dims.2, target_start.2) {
        Some(axis) => axis,
        None => return ,
    };
    let data_size = (a.0, b.0, c.0);
    // Where to *actually* copy the data from and to.
    let start = (a.1, b.1, c.1);
    let target_position = (a.2, b.2, c.2);
    assert(clip_plan(size, source_dims, source_start, target_dims, target_start) == Some(
        (data_size, start, target_position),
    ));
    copy_3d(data_size, source, source_dims, start, target, target_dims, target_position);
}

/// Whether `copy_3d_auto_clip` finds grids of the stated sides wherever it copies anything.
pub open spec fn auto_clip_ok<T>(
    source: Seq<T>,
    source_stride: usize,
    source_offset: (isize, isize, isize),
    target: Seq<T>,
    target_stride: usize,
) -> bool {
    bounded_clip_ok(
        cube(source_stride),
        source,
        cube(source_stride),
        (0usize, 0usize, 0usize),
        target,
        cube(target_stride),
        source_offset,
    )
}

/// Copies all the data from source to target in the area that they overlap. The target data is
/// considered to be placed at (0, 0, 0), and the source data can be thought as being placed inside
/// the target data at source_offset.
pub fn copy_3d_auto_clip<T: Copy>(
    source: &[T],
    source_stride: usize,
    source_offset: (isize, isize, isize),
    target: &mut [T],
    target_stride: usize,
)
    requires
        auto_clip_ok(source@, source_stride, source_offset, old(target)@, target_stride),
    ensures
        final(target)@ == placed_copy(
            old(target)@,
            cube(target_stride),
            source_offset,
            source@,
            cube(source_stride),
            (0usize, 0usize, 0usize),
            cube(source_stride),
        ),
{
    copy_3d_bounded_auto_clip(
        (source_stride, source_stride, source_stride),
        source,
        (source_stride, source_stride, source_stride),
        (0, 0, 0),
        target,
        (target_stride, target_stride, target_stride),
        source_offset,
    );
}

/// On one axis: whether grid coordinate `c` lies in the slice that starts at `start` and is
/// `size` long, and in the grid.
pub open spec fn fill_axis(c: int, dim: int, start: int, size: int) -> bool {
    &&& 0 <= c < dim
    &&& start <= c < start + size
}

/// The target after every cell of the slice that starts at `slice_start` with size
/// `slice_size` and lies in the grid has been set to `value`; every other cell keeps its value.
pub open spec fn placed_fill<T>(
    target: Seq<T>,
    target_dims: Coord3D,
    slice_start: (isize, isize, isize),
    slice_size: Coord3D,
    value: T,
) -> Seq<T> {
    Seq::new(
        target.len(),
        |t: int|
            {
                let c = grid_coord(t, target_dims);
                if fill_axis(c.0, target_dims.0 as int, slice_start.0 as int, slice_size.0 as int)
                    && fill_axis(c.1, target_dims.1 as int, slice_start.1 as int, slice_size.1 as int)
                    && fill_axis(
                    c.2,
                    target_dims.2 as int,
                    slice_start.2 as int,
                    slice_size.2 as int,
                ) {
                    value
                } else {
                    target[t]
                }
            },
    )
}

/// On one axis: the box fill that makes up `fill_axis`, as (start, size); `None` where nothing
/// of the slice lies in the grid.
pub open spec fn fill_plan_axis(dim: int, start: int, size: int) -> Option<(int, int)> {
    let real_start = if start < 0 { 0 } else { start };
    let n = min_int(start + size, dim) - real_start;
    if n <= 0 {
        None
    } else {
        Some((real_start, n))
    }
}

proof fn lemma_fill_plan_axis(dim: int, start: int, size: int, c: int)
    requires
        size >= 0,
    ensures
        fill_plan_axis(dim, start, size) matches Some(a) ==> {
            &&& (0 <= c - a.0 < a.1 <==> fill_axis(c, dim, start, size))
            &&& 0 <= a.0 && 0 < a.1 && a.0 + a.1 <= dim
        },
        fill_plan_axis(dim, start, size) is None ==> !fill_axis(c, dim, start, size),
{
}

/// One axis of the clipped fill.
fn fill_clip_axis(stride: usize, start: isize, size: usize) -> (r: Option<(usize, usize)>)
    ensures
        r matches Some(a) ==> fill_plan_axis(stride as int, start as int, size as int) == Some(
            (a.0 as int, a.1 as int),
        ),
        r is None ==> fill_plan_axis(stride as int, start as int, size as int) is None,
{
    if start < 0 {
        // The negated start, computed without overflow.
        let neg: usize = (-(start + 1)) as usize + 1;
        if neg >= size || stride == 0 {
            return None;
        }
        Some((0, (size - neg).min(stride)))
    } else {
        let real_start = start as usize;
        if real_start >= stride || size == 0 {
            return None;
        }
        Some((real_start, size.min(stride - real_start)))
    }
}

/// Fills an area of a 3d data array with a single value. slice_start is the corner where the
/// filling should begin. It can be negative, which will cause it to automatically be truncated.
/// slice_size is how much to fill starting at slice_start. It can also be too big for the data
/// and will also be automatically truncated.
pub fn fill_slice_3d_auto_clip<T: Copy>(
    value: T,
    target: &mut [T],
    target_stride: usize,
    slice_start: (isize, isize, isize),
    slice_size: Coord3D,
)
    requires
        old(target)@.len() == volume(cube(target_stride)),
    ensures
        final(target)@ == placed_fill(
            old(target)@,
            cube(target_stride),
            slice_start,
            slice_size,
            value,
        ),
{
    let ghost original = target@;
    let ghost dims = cube(target_stride);
    let ghost placed = placed_fill(original, dims, slice_start, slice_size, value);
    let ghost (d, s0, s1, s2) = (
        target_stride as int,
        slice_start.0 as int,
        slice_start.1 as int,
        slice_start.2 as int,
    );
    let ghost (z0, z1, z2) = (slice_size.0 as int, slice_size.1 as int, slice_size.2 as int);
    proof {
        assert forall|t: int|
            #![trigger grid_coord(t, dims)]
            0 <= t < original.len() implies {
            let c = grid_coord(t, dims);
            &&& (fill_plan_axis(d, s0, z0) matches Some(a) ==> {
                &&& (0 <= c.0 - a.0 < a.1 <==> fill_axis(c.0, d, s0, z0))
                &&& 0 <= a.0 && 0 < a.1 && a.0 + a.1 <= d
            })
            &&& (fill_plan_axis(d, s0, z0) is None ==> !fill_axis(c.0, d, s0, z0))
            &&& (fill_plan_axis(d, s1, z1) matches Some(a) ==> {
                &&& (0 <= c.1 - a.0 < a.1 <==> fill_axis(c.1, d, s1, z1))
                &&& 0 <= a.0 && 0 < a.1 && a.0 + a.1 <= d
            })
            &&& (fill_plan_axis(d, s1, z1) is None ==> !fill_axis(c.1, d, s1, z1))
            &&& (fill_plan_axis(d, s2, z2) matches Some(a) ==> {
                &&& (0 <= c.2 - a.0 < a.1 <==> fill_axis(c.2, d, s2, z2))
                &&& 0 <= a.0 && 0 < a.1 && a.0 + a.1 <= d
            })
            &&& (fill_plan_axis(d, s2, z2) is None ==> !fill_axis(c.2, d, s2, z2))
        } by {
            let c = grid_coord(t, dims);
            lemma_fill_plan_axis(d, s0, z0, c.0);
            lemma_fill_plan_axis(d, s1, z1, c.1);
            lemma_fill_plan_axis(d, s2, z2, c.2);
        }
    }
    let a = match fill_clip_axis(target_stride, slice_start.0, slice_size.0) {
        Some(axis) => axis,
        None => {
            assert(placed =~= original);
            return ;
        },
    };
    let b = match fill_clip_axis(target_stride, slice_start.1, slice_size.1) {
        Some(axis) => axis,
        None => {
            assert(placed =~= original);
            return ;
        },
    };
    let c = match fill_clip_axis(target_stride, slice_start.2, slice_size.2) {
        Some(axis) => axis,
        None => {
            assert(placed =~= original);
            return ;
        },
    };
    let real_slice_start = (a.0, b.0, c.0);
    let slice_size = (a.1, b.1, c.1);
    proof {
        assert(fill_region(original, dims, real_slice_start, slice_size, value) =~= placed);
    }
    // Do the actual operation
    fill_slice_3d(value, target, target_stride, real_slice_start, slice_size);
}

/// Law of `copy_3d`: each cell of the copied box holds, after the copy, the source cell at the
/// same place relative to the source start.
pub proof fn lemma_copy_region_lands<T>(
    target: Seq<T>,
    target_dims: Coord3D,
    target_position: Coord3D,
    source: Seq<T>,
    source_dims: Coord3D,
    source_start: Coord3D,
    size: Coord3D,
    x: int,
    y: int,
    z: int,
)
    requires
        target.len() == volume(target_dims),
        target_position.0 + size.0 <= target_dims.0,
        target_position.1 + size.1 <= target_dims.1,
        target_position.2 + size.2 <= target_dims.2,
        within((x, y, z), size),
    ensures
        copy_region(
            target,
            target_dims,
            target_position,
            source,
            source_dims,
            source_start,
            size,
        )[index_3d(
            target_position.0 + x,
            target_position.1 + y,
            target_position.2 + z,
            target_dims.0 as int,
            target_dims.1 as int,
        )] == source[index_3d(
            source_start.0 + x,
            source_start.1 + y,
            source_start.2 + z,
            source_dims.0 as int,
            source_dims.1 as int,
        )],
{
    let (td0, td1) = (target_dims.0 as int, target_dims.1 as int);
    let (tp0, tp1, tp2) = (
        target_position.0 as int,
        target_position.1 as int,
        target_position.2 as int,
    );
    lemma_index_3d_split(tp0 + x, tp1 + y, tp2 + z, td0, td1);
    lemma_index_3d_bound(tp0 + x, tp1 + y, tp2 + z, td0, td1, target_dims.2 as int);
}

/// Law of `copy_3d`: every cell outside the copied box keeps its value.
pub proof fn lemma_copy_region_keeps_outside<T>(
    target: Seq<T>,
    target_dims: Coord3D,
    target_position: Coord3D,
    source: Seq<T>,
    source_dims: Coord3D,
    source_start: Coord3D,
    size: Coord3D,
    t: int,
)
    requires
        0 <= t < target.len(),
        !within(relative_coord(t, target_dims, target_position), size),
    ensures
        copy_region(
            target,
            target_dims,
            target_position,
            source,
            source_dims,
            source_start,
            size,
        )[t] == target[t],
{
}

/// Law of `fill_slice_3d`: every cell of the filled box holds the value; every other cell keeps
/// its value.
pub proof fn lemma_fill_region_contents<T>(
    target: Seq<T>,
    target_dims: Coord3D,
    start: Coord3D,
    size: Coord3D,
    value: T,
    x: int,
    y: int,
    z: int,
    t: int,
)
    requires
        target.len() == volume(target_dims),
        start.0 + size.0 <= target_dims.0,
        start.1 + size.1 <= target_dims.1,
        start.2 + size.2 <= target_dims.2,
    ensures
        within((x, y, z), size) ==> fill_region(target, target_dims, start, size, value)[index_3d(
            start.0 + x,
            start.1 + y,
            start.2 + z,
            target_dims.0 as int,
            target_dims.1 as int,
        )] == value,
        0 <= t < target.len() && !within(relative_coord(t, target_dims, start), size)
            ==> fill_region(target, target_dims, start, size, value)[t] == target[t],
{
    if within((x, y, z), size) {
        let (td0, td1) = (target_dims.0 as int, target_dims.1 as int);
        lemma_index_3d_split(start.0 + x, start.1 + y, start.2 + z, td0, td1);
        lemma_index_3d_bound(start.0 + x, start.1 + y, start.2 + z, td0, td1, target_dims.2 as int);
    }
}

/// Law of `copy_3d_bounded_auto_clip`: each offset below the size that has both source data
/// and a target slot is copied, so the data that was located at `source_start` (and each cell
/// after it) can be found at `target_start` (and the matching cell after it).
pub proof fn lemma_bounded_copy_lands<T>(
    size: Coord3D,
    source: Seq<T>,
    source_dims: Coord3D,
    source_start: Coord3D,
    target: Seq<T>,
    target_dims: Coord3D,
    target_start: (isize, isize, isize),
    x: int,
    y: int,
    z: int,
)
    requires
        target.len() == volume(target_dims),
        within((x, y, z), size),
        0 <= target_start.0 + x < target_dims.0,
        0 <= target_start.1 + y < target_dims.1,
        0 <= target_start.2 + z < target_dims.2,
        source_start.0 + x < source_dims.0,
        source_start.1 + y < source_dims.1,
        source_start.2 + z < source_dims.2,
    ensures
        bounded_clip_result(
            size,
            source,
            source_dims,
            source_start,
            target,
            target_dims,
            target_start,
        )[index_3d(
            target_start.0 + x,
            target_start.1 + y,
            target_start.2 + z,
            target_dims.0 as int,
            target_dims.1 as int,
        )] == source[index_3d(
            source_start.0 + x,
            source_start.1 + y,
            source_start.2 + z,
            source_dims.0 as int,
            source_dims.1 as int,
        )],
{
    let (td0, td1) = (target_dims.0 as int, target_dims.1 as int);
    let (t0, t1, t2) = (target_start.0 + x, target_start.1 + y, target_start.2 + z);
    lemma_index_3d_split(t0, t1, t2, td0, td1);
    lemma_index_3d_bound(t0, t1, t2, td0, td1, target_dims.2 as int);
}

/// Law of `copy_3d_bounded_auto_clip`: a cell whose offset from `target_start` lies outside the
/// size, or has no source data, keeps its value.
pub proof fn lemma_bounded_copy_keeps<T>(
    size: Coord3D,
    source: Seq<T>,
    source_dims: Coord3D,
    source_start: Coord3D,
    target: Seq<T>,
    target_dims: Coord3D,
    target_start: (isize, isize, isize),
    x: int,
    y: int,
    z: int,
)
    requires
        target.len() == volume(target_dims),
        0 <= x < target_dims.0,
        0 <= y < target_dims.1,
        0 <= z < target_dims.2,
        !within((x - target_start.0, y - target_start.1, z - target_start.2), size)
            || source_start.0 + (x - target_start.0) >= source_dims.0
            || source_start.1 + (y - target_start.1) >= source_dims.1
            || source_start.2 + (z - target_start.2) >= source_dims.2,
    ensures
        bounded_clip_result(
            size,
            source,
            source_dims,
            source_start,
            target,
            target_dims,
            target_start,
        )[index_3d(x, y, z, target_dims.0 as int, target_dims.1 as int)] == target[index_3d(
            x,
            y,
            z,
            target_dims.0 as int,
            target_dims.1 as int,
        )],
{
    let (td0, td1) = (target_dims.0 as int, target_dims.1 as int);
    lemma_index_3d_split(x, y, z, td0, td1);
    lemma_index_3d_bound(x, y, z, td0, td1, target_dims.2 as int);
}

/// The index of a coordinate inside a grid is computed without overflow.
proof fn lemma_index_fits(c: Coord3D, dims: Coord3D)
    requires
        c.0 < dims.0,
        c.1 < dims.1,
        c.2 < dims.2,
        volume(dims) <= usize::MAX,
    ensures
        c.to_index_req(dims),
        index_3d(c.0 as int, c.1 as int, c.2 as int, dims.0 as int, dims.1 as int) < volume(dims),
{
    let (x, y, z) = (c.0 as int, c.1 as int, c.2 as int);
    let (d0, d1) = (dims.0 as int, dims.1 as int);
    lemma_index_3d_bound(x, y, z, d0, d1, dims.2 as int);
    vstd::arithmetic::mul::lemma_mul_nonnegative(z, d1);
    assert(z * d1 + y <= (z * d1 + y) * d0) by (nonlinear_arith)
        requires z * d1 + y >= 0, d0 >= 1;
    assert(index_3d_fits(x, y, z, d0, d1));
}

} // verus!
