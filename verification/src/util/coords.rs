use vstd::prelude::*;

verus! {

pub open spec fn trunc_quot(x: int, d: int) -> int {
    if x == 0 {
        0
    } else if x > 0 && d > 0 {
        x / d
    } else if x < 0 && d < 0 {
        (x * -1) / (d * -1)
    } else if x < 0 {
        ((x * -1) / d) * -1
    } else {
        (x / (d * -1)) * -1
    }
}

pub open spec fn trunc_rem(x: int, d: int) -> int {
    if x == 0 {
        0
    } else if x > 0 && d > 0 {
        x % d
    } else if x < 0 && d < 0 {
        ((x * -1) % (d * -1)) * -1
    } else if x < 0 {
        ((x * -1) % d) * -1
    } else {
        x % (d * -1)
    }
}

proof fn lemma_div_le(x: int, d: int)
    requires
        x >= 0,
        d >= 1,
    ensures
        0 <= x / d <= x,
        0 <= x % d < d,
{
    vstd::arithmetic::div_mod::lemma_div_is_ordered_by_denominator(x, 1, d);
    vstd::arithmetic::div_mod::lemma_div_pos_is_pos(x, d);
    vstd::arithmetic::div_mod::lemma_mod_pos_bound(x, d);
}

/// Truncated quotient and remainder stay within the range of the dividend.
pub proof fn lemma_trunc_bounds(x: int, d: int)
    requires
        d != 0,
    ensures
        x >= 0 ==> 0 <= trunc_quot(x, d) <= x || (d < 0 && -x <= trunc_quot(x, d) <= 0),
        x < 0 ==> (d < 0 && 0 <= trunc_quot(x, d) <= -x) || (d > 0 && x <= trunc_quot(x, d) <= 0),
        x >= 0 ==> 0 <= trunc_rem(x, d) <= x,
        x < 0 ==> x <= trunc_rem(x, d) <= 0,
        trunc_rem(x, d) < abs(d) && trunc_rem(x, d) > -abs(d),
        d == 1 ==> trunc_quot(x, d) == x,
        d == -1 ==> trunc_quot(x, d) == -x,
        abs(d) >= 2 && x != 0 ==> abs(trunc_quot(x, d)) < abs(x),
{
    if abs(d) >= 2 && x != 0 {
        vstd::arithmetic::div_mod::lemma_div_decreases(abs(x), abs(d));
    }
    if x > 0 && d > 0 {
        lemma_div_le(x, d);
        vstd::arithmetic::div_mod::lemma_mod_decreases(x as nat, d as nat);
    } else if x < 0 && d < 0 {
        lemma_div_le(-x, -d);
        vstd::arithmetic::div_mod::lemma_mod_decreases((-x) as nat, (-d) as nat);
    } else if x < 0 {
        lemma_div_le(-x, d);
        vstd::arithmetic::div_mod::lemma_mod_decreases((-x) as nat, d as nat);
    } else if x > 0 {
        lemma_div_le(x, -d);
        vstd::arithmetic::div_mod::lemma_mod_decreases(x as nat, (-d) as nat);
    }
}

pub open spec fn abs(a: int) -> int {
    if a < 0 { -a } else { a }
}

/// A position on a square grid; X is the first component.
pub type Coord2D = (usize, usize);
/// A position on a square grid that may lie at negative coordinates.
pub type SignedCoord2D = (isize, isize);
/// A position in a cubic grid; X is the first component.
pub type Coord3D = (usize, usize, usize);
/// A position in a cubic grid that may lie at negative coordinates.
pub type SignedCoord3D = (isize, isize, isize);

/// The linear index of a 2D coordinate on a grid of the given stride; X changes fastest.
pub open spec fn index_2d(x: int, y: int, stride: int) -> int {
    y * stride + x
}

/// The linear index of a 3D coordinate in a grid whose rows are `d0` long and whose layers
/// are `d1` rows deep; X changes fastest, Z slowest.
pub open spec fn index_3d(x: int, y: int, z: int, d0: int, d1: int) -> int {
    (z * d1 + y) * d0 + x
}

/// Whether every intermediate value of `(z * d1 + y) * d0 + x` fits in a `usize`.
pub open spec fn index_3d_fits(x: int, y: int, z: int, d0: int, d1: int) -> bool {
    &&& z * d1 <= usize::MAX
    &&& z * d1 + y <= usize::MAX
    &&& (z * d1 + y) * d0 <= usize::MAX
    &&& (z * d1 + y) * d0 + x <= usize::MAX
}

pub open spec fn in_isize(v: int) -> bool {
    isize::MIN <= v <= isize::MAX
}

/// X is least significant (changes the fastest).
pub fn index_to_coord_2d(index: usize, stride: usize) -> (r: Coord2D)
    requires
        stride > 0,
    ensures
        r.0 == index % stride,
        r.1 == (index / stride) % stride,
{
    (index % stride, index / stride % stride)
}

/// X is least significant (changes the fastest).
pub fn coord_to_index_2d(coord: &Coord2D, stride: usize) -> (r: usize)
    requires
        coord.1 * stride + coord.0 <= usize::MAX,
    ensures
        r == index_2d(coord.0 as int, coord.1 as int, stride as int),
{
    proof {
        lemma_mul_le_sum(coord.1 as int, stride as int, coord.0 as int);
    }
    coord.1 * stride + coord.0
}

pub fn scale_coord_2d(coord: &Coord2D, scale: usize) -> (r: Coord2D)
    requires
        coord.0 * scale <= usize::MAX,
        coord.1 * scale <= usize::MAX,
    ensures
        r.0 == coord.0 * scale,
        r.1 == coord.1 * scale,
{
    (coord.0 * scale, coord.1 * scale)
}

/// X is least significant (changes the fastest). Division truncates towards zero.
pub fn index_to_signed_coord_2d(index: isize, stride: isize) -> (r: SignedCoord2D)
    requires
        stride != 0,
        !(index == isize::MIN && stride == -1),
    ensures
        r.0 == trunc_rem(index as int, stride as int),
        r.1 == trunc_rem(trunc_quot(index as int, stride as int), stride as int),
{
    proof {
        lemma_trunc_bounds(index as int, stride as int);
        lemma_trunc_bounds(trunc_quot(index as int, stride as int), stride as int);
    }
    let q = index.checked_div(stride).unwrap();
    (index.checked_rem(stride).unwrap(), q.checked_rem(stride).unwrap())
}

/// X is least significant (changes the fastest).
pub fn signed_coord_to_index_2d(coord: &SignedCoord2D, stride: isize) -> (r: isize)
    requires
        in_isize(coord.1 * stride),
        in_isize(coord.1 * stride + coord.0),
    ensures
        r == index_2d(coord.0 as int, coord.1 as int, stride as int),
{
    coord.1 * stride + coord.0
}

pub fn scale_signed_coord_2d(coord: &SignedCoord2D, scale: isize) -> (r: SignedCoord2D)
    requires
        in_isize(coord.0 * scale),
        in_isize(coord.1 * scale),
    ensures
        r.0 == coord.0 * scale,
        r.1 == coord.1 * scale,
{
    (coord.0 * scale, coord.1 * scale)
}

/// X is least significant (changes 1:1 instead of 1:size or 1:size^2).
pub fn index_to_coord_3d(index: usize, stride: usize) -> (r: Coord3D)
    requires
        stride > 0,
    ensures
        r.0 == index % stride,
        r.1 == (index / stride) % stride,
        r.2 == (index / stride) / stride,
{
    (index % stride, index / stride % stride, index / stride / stride)
}

/// X is least significant (changes 1:1 instead of 1:size or 1:size^2).
pub fn coord_to_index_3d(coord: &Coord3D, stride: usize) -> (r: usize)
    requires
        index_3d_fits(coord.0 as int, coord.1 as int, coord.2 as int, stride as int, stride as int),
    ensures
        r == index_3d(coord.0 as int, coord.1 as int, coord.2 as int, stride as int, stride as int),
{
    (coord.2 * stride + coord.1) * stride + coord.0
}

pub fn offset_coord_3d(coord: &Coord3D, offset: &Coord3D) -> (r: Coord3D)
    requires
        coord.0 + offset.0 <= usize::MAX,
        coord.1 + offset.1 <= usize::MAX,
        coord.2 + offset.2 <= usize::MAX,
    ensures
        r.0 == coord.0 + offset.0,
        r.1 == coord.1 + offset.1,
        r.2 == coord.2 + offset.2,
{
    (coord.0 + offset.0, coord.1 + offset.1, coord.2 + offset.2)
}

pub fn scale_coord_3d(coord: &Coord3D, scale: usize) -> (r: Coord3D)
    requires
        coord.0 * scale <= usize::MAX,
        coord.1 * scale <= usize::MAX,
        coord.2 * scale <= usize::MAX,
    ensures
        r.0 == coord.0 * scale,
        r.1 == coord.1 * scale,
        r.2 == coord.2 * scale,
{
    (coord.0 * scale, coord.1 * scale, coord.2 * scale)
}

pub fn shrink_coord_3d(coord: &Coord3D, divisor: usize) -> (r: Coord3D)
    requires
        divisor > 0,
    ensures
        r.0 == coord.0 / divisor,
        r.1 == coord.1 / divisor,
        r.2 == coord.2 / divisor,
{
    (coord.0 / divisor, coord.1 / divisor, coord.2 / divisor)
}

pub fn offset_signed_coord_3d(coord: &SignedCoord3D, offset: &SignedCoord3D) -> (r: SignedCoord3D)
    requires
        in_isize(coord.0 + offset.0),
        in_isize(coord.1 + offset.1),
        in_isize(coord.2 + offset.2),
    ensures
        r.0 == coord.0 + offset.0,
        r.1 == coord.1 + offset.1,
        r.2 == coord.2 + offset.2,
{
    (coord.0 + offset.0, coord.1 + offset.1, coord.2 + offset.2)
}

pub fn scale_signed_coord_3d(coord: &SignedCoord3D, scale: isize) -> (r: SignedCoord3D)
    requires
        in_isize(coord.0 * scale),
        in_isize(coord.1 * scale),
        in_isize(coord.2 * scale),
    ensures
        r.0 == coord.0 * scale,
        r.1 == coord.1 * scale,
        r.2 == coord.2 * scale,
{
    (coord.0 * scale, coord.1 * scale, coord.2 * scale)
}

/// Converts each component with `as isize`, which wraps components above `isize::MAX`.
pub fn coord_to_signed_coord(coord: &Coord3D) -> (r: SignedCoord3D)
    ensures
        r.0 == coord.0 as isize,
        r.1 == coord.1 as isize,
        r.2 == coord.2 as isize,
        coord.0 <= isize::MAX ==> r.0 == coord.0,
        coord.1 <= isize::MAX ==> r.1 == coord.1,
        coord.2 <= isize::MAX ==> r.2 == coord.2,
{
    (coord.0 as isize, coord.1 as isize, coord.2 as isize)
}

/// Divides each component, truncating towards zero.
pub fn shrink_signed_coord_3d(coord: &SignedCoord3D, divisor: isize) -> (r: SignedCoord3D)
    requires
        divisor != 0,
        divisor == -1 ==> coord.0 != isize::MIN && coord.1 != isize::MIN && coord.2 != isize::MIN,
    ensures
        r.0 == trunc_quot(coord.0 as int, divisor as int),
        r.1 == trunc_quot(coord.1 as int, divisor as int),
        r.2 == trunc_quot(coord.2 as int, divisor as int),
{
    proof {
        lemma_trunc_bounds(coord.0 as int, divisor as int);
        lemma_trunc_bounds(coord.1 as int, divisor as int);
        lemma_trunc_bounds(coord.2 as int, divisor as int);
    }
    (
        coord.0.checked_div(divisor).unwrap(),
        coord.1.checked_div(divisor).unwrap(),
        coord.2.checked_div(divisor).unwrap(),
    )
}

proof fn lemma_mul_le_sum(a: int, b: int, c: int)
    requires
        a >= 0,
        b >= 0,
        c >= 0,
    ensures
        a * b <= a * b + c,
        a * b >= 0,
{
    vstd::arithmetic::mul::lemma_mul_nonnegative(a, b);
}

/// Splitting the index of an in-range 3D coordinate gives the coordinate back.
pub proof fn lemma_index_3d_split(x: int, y: int, z: int, d0: int, d1: int)
    requires
        0 <= x < d0,
        0 <= y < d1,
        0 <= z,
    ensures
        index_3d(x, y, z, d0, d1) % d0 == x,
        index_3d(x, y, z, d0, d1) / d0 == z * d1 + y,
        (index_3d(x, y, z, d0, d1) / d0) % d1 == y,
        (index_3d(x, y, z, d0, d1) / d0) / d1 == z,
        0 <= index_3d(x, y, z, d0, d1),
{
    let i = index_3d(x, y, z, d0, d1);
    vstd::arithmetic::mul::lemma_mul_nonnegative(z, d1);
    vstd::arithmetic::mul::lemma_mul_nonnegative(z * d1 + y, d0);
    vstd::arithmetic::div_mod::lemma_fundamental_div_mod_converse(i, d0, z * d1 + y, x);
    vstd::arithmetic::div_mod::lemma_fundamental_div_mod_converse(z * d1 + y, d1, z, y);
}

/// An in-range coordinate has an index below the volume of the grid.
pub proof fn lemma_index_3d_bound(x: int, y: int, z: int, d0: int, d1: int, d2: int)
    requires
        0 <= x < d0,
        0 <= y < d1,
        0 <= z < d2,
    ensures
        0 <= index_3d(x, y, z, d0, d1) < d0 * d1 * d2,
{
    vstd::arithmetic::mul::lemma_mul_nonnegative(z, d1);
    vstd::arithmetic::mul::lemma_mul_nonnegative(z * d1 + y, d0);
    assert(z * d1 + y < d1 * d2) by (nonlinear_arith)
        requires 0 <= y < d1, 0 <= z < d2;
    assert((z * d1 + y) * d0 + x < d0 * d1 * d2) by (nonlinear_arith)
        requires z * d1 + y < d1 * d2, 0 <= x < d0, z * d1 + y >= 0;
}

/// Every index below the volume of a grid is the index of exactly the coordinate it splits into.
pub proof fn lemma_index_3d_join(i: int, d0: int, d1: int, d2: int)
    requires
        d0 > 0,
        d1 > 0,
        0 <= i < d0 * d1 * d2,
    ensures
        0 <= i % d0 < d0,
        0 <= (i / d0) % d1 < d1,
        0 <= (i / d0) / d1 < d2,
        index_3d(i % d0, (i / d0) % d1, (i / d0) / d1, d0, d1) == i,
{
    vstd::arithmetic::div_mod::lemma_fundamental_div_mod(i, d0);
    vstd::arithmetic::div_mod::lemma_fundamental_div_mod(i / d0, d1);
    vstd::arithmetic::div_mod::lemma_mod_pos_bound(i, d0);
    vstd::arithmetic::div_mod::lemma_div_pos_is_pos(i, d0);
    vstd::arithmetic::div_mod::lemma_mod_pos_bound(i / d0, d1);
    vstd::arithmetic::div_mod::lemma_div_pos_is_pos(i / d0, d1);
    vstd::arithmetic::div_mod::lemma_div_denominator(i, d0, d1);
    assert(i / (d0 * d1) < d2) by {
        vstd::arithmetic::mul::lemma_mul_strictly_positive(d0, d1);
        vstd::arithmetic::div_mod::lemma_multiply_divide_lt(i, d0 * d1, d2);
        vstd::arithmetic::mul::lemma_mul_is_associative(d0, d1, d2);
    }
    assert(d1 * ((i / d0) / d1) == ((i / d0) / d1) * d1) by (nonlinear_arith);
    assert(d0 * (i / d0) == (i / d0) * d0) by (nonlinear_arith);
}

/// Law of grid indices: inside the grid, the next X is the next index, the next Z is one layer
/// (`d0 * d1`) further on, and distinct coordinates have distinct indices below the volume.
pub proof fn lemma_index_3d_steps(c: (int, int, int), e: (int, int, int), d0: int, d1: int, d2: int)
    requires
        0 <= c.0 < d0 && 0 <= c.1 < d1 && 0 <= c.2 < d2,
        0 <= e.0 < d0 && 0 <= e.1 < d1 && 0 <= e.2 < d2,
    ensures
        0 <= index_3d(c.0, c.1, c.2, d0, d1) < d0 * d1 * d2,
        c.0 + 1 < d0 ==> index_3d(c.0 + 1, c.1, c.2, d0, d1) == index_3d(c.0, c.1, c.2, d0, d1) + 1,
        c.2 + 1 < d2 ==> index_3d(c.0, c.1, c.2 + 1, d0, d1) == index_3d(c.0, c.1, c.2, d0, d1) + d0
            * d1,
        index_3d(c.0, c.1, c.2, d0, d1) == index_3d(e.0, e.1, e.2, d0, d1) ==> c == e,
{
    lemma_index_3d_bound(c.0, c.1, c.2, d0, d1, d2);
    lemma_index_3d_split(c.0, c.1, c.2, d0, d1);
    lemma_index_3d_split(e.0, e.1, e.2, d0, d1);
    assert((c.2 + 1) * d1 * d0 == c.2 * d1 * d0 + d0 * d1) by (nonlinear_arith);
    assert(((c.2 + 1) * d1 + c.1) * d0 == (c.2 * d1 + c.1) * d0 + d0 * d1) by (nonlinear_arith);
}

/// Round trip: the coordinate of the index of an in-range coordinate is that coordinate.
pub proof fn lemma_coord_index_round_trip_3d(c: Coord3D, stride: usize)
    requires
        c.0 < stride,
        c.1 < stride,
        c.2 < stride,
    ensures
        ({
            let i = index_3d(c.0 as int, c.1 as int, c.2 as int, stride as int, stride as int);
            &&& i % (stride as int) == c.0
            &&& (i / (stride as int)) % (stride as int) == c.1
            &&& (i / (stride as int)) / (stride as int) == c.2
        }),
{
    lemma_index_3d_split(c.0 as int, c.1 as int, c.2 as int, stride as int, stride as int);
}

/// Round trip: every index inside a cube is the index of the coordinate it splits into.
pub proof fn lemma_index_coord_round_trip_3d(index: usize, stride: usize)
    requires
        stride > 0,
        index < stride * stride * stride,
    ensures
        index_3d(
            (index % stride) as int,
            ((index / stride) % stride) as int,
            ((index / stride) / stride) as int,
            stride as int,
            stride as int,
        ) == index,
        (index / stride) / stride < stride,
{
    lemma_index_3d_join(index as int, stride as int, stride as int, stride as int);
}

/// Round trip on a square grid, in both directions.
pub proof fn lemma_index_coord_round_trip_2d(index: usize, x: usize, y: usize, stride: usize)
    requires
        stride > 0,
        x < stride,
        y < stride,
        index < stride * stride,
    ensures
        (index_2d(x as int, y as int, stride as int) % (stride as int)) == x,
        ((index_2d(x as int, y as int, stride as int) / (stride as int)) % (stride as int)) == y,
        index_2d((index % stride) as int, ((index / stride) % stride) as int, stride as int) == index,
{
    vstd::arithmetic::div_mod::lemma_fundamental_div_mod_converse(
        index_2d(x as int, y as int, stride as int), stride as int, y as int, x as int);
    vstd::arithmetic::div_mod::lemma_small_mod(y as nat, stride as nat);
    vstd::arithmetic::div_mod::lemma_fundamental_div_mod(index as int, stride as int);
    assert(index / stride < stride) by {
        vstd::arithmetic::div_mod::lemma_multiply_divide_lt(index as int, stride as int, stride as int);
    }
    vstd::arithmetic::div_mod::lemma_small_mod((index / stride) as nat, stride as nat);
    assert(stride * (index / stride) == (index / stride) * stride) by (nonlinear_arith);
}

} // verus!
