use vstd::prelude::*;
use crate::util::coords::{
    in_isize, index_3d, index_3d_fits, lemma_trunc_bounds, trunc_quot, trunc_rem, Coord2D, Coord3D,
    SignedCoord2D, SignedCoord3D,
};

verus! {

/// Element-wise arithmetic on coordinate tuples. Each method says in its `requires` when the
/// element-wise operation stays within the element type, and in its `ensures` what it returns.
pub trait CoordUtil<ElementType>: Sized {
    spec fn add_req(self, other: Self) -> bool;

    spec fn add_spec(self, other: Self) -> Self;

    spec fn sub_req(self, other: Self) -> bool;

    spec fn sub_spec(self, other: Self) -> Self;

    spec fn scale_req(self, factor: ElementType) -> bool;

    spec fn scale_spec(self, factor: ElementType) -> Self;

    spec fn shrink_req(self, factor: ElementType) -> bool;

    spec fn shrink_spec(self, factor: ElementType) -> Self;

    spec fn wrap_req(self, bounds: Self) -> bool;

    spec fn wrap_spec(self, bounds: Self) -> Self;

    spec fn ewmin_spec(self, other: Self) -> Self;

    spec fn ewmax_spec(self, other: Self) -> Self;

    spec fn inside_spec(self, other: Self) -> bool;

    spec fn to_index_req(self, dims: Self) -> bool;

    spec fn to_index_spec(self, dims: Self) -> ElementType;

    fn add(self, other: Self) -> (r: Self)
        requires
            self.add_req(other),
        ensures
            r == self.add_spec(other),
    ;

    fn sub(self, other: Self) -> (r: Self)
        requires
            self.sub_req(other),
        ensures
            r == self.sub_spec(other),
    ;

    fn scale(self, factor: ElementType) -> (r: Self)
        requires
            self.scale_req(factor),
        ensures
            r == self.scale_spec(factor),
    ;

    fn shrink(self, factor: ElementType) -> (r: Self)
        requires
            self.shrink_req(factor),
        ensures
            r == self.shrink_spec(factor),
    ;

    /// Applies modulus to each coordinate.
    fn wrap(self, bounds: Self) -> (r: Self)
        requires
            self.wrap_req(bounds),
        ensures
            r == self.wrap_spec(bounds),
    ;

    fn ewmin(self, other: Self) -> (r: Self)
        ensures
            r == self.ewmin_spec(other),
    ;

    fn ewmax(self, other: Self) -> (r: Self)
        ensures
            r == self.ewmax_spec(other),
    ;

    fn inside(self, other: Self) -> (r: bool)
        ensures
            r == self.inside_spec(other),
    ;

    /// Increasing the x position by one increases the index by 1. Increasing the z position
    /// increases the index the most.
    fn to_index(self, dims: Self) -> (r: ElementType)
        requires
            self.to_index_req(dims),
        ensures
            r == self.to_index_spec(dims),
    ;
}

pub open spec fn min_of(a: int, b: int) -> int {
    if a <= b { a } else { b }
}

pub open spec fn max_of(a: int, b: int) -> int {
    if a >= b { a } else { b }
}

impl CoordUtil<usize> for Coord2D {
    open spec fn add_req(self, other: Self) -> bool {
        &&& self.0 + other.0 <= usize::MAX
        &&& self.1 + other.1 <= usize::MAX
    }

    open spec fn add_spec(self, other: Self) -> Self {
        ((self.0 + other.0) as usize, (self.1 + other.1) as usize)
    }

    open spec fn sub_req(self, other: Self) -> bool {
        &&& self.0 >= other.0
        &&& self.1 >= other.1
    }

    open spec fn sub_spec(self, other: Self) -> Self {
        ((self.0 - other.0) as usize, (self.1 - other.1) as usize)
    }

    open spec fn scale_req(self, factor: usize) -> bool {
        &&& self.0 * factor <= usize::MAX
        &&& self.1 * factor <= usize::MAX
    }

    open spec fn scale_spec(self, factor: usize) -> Self {
        ((self.0 * factor) as usize, (self.1 * factor) as usize)
    }

    open spec fn shrink_req(self, factor: usize) -> bool {
        factor > 0
    }

    open spec fn shrink_spec(self, factor: usize) -> Self {
        ((self.0 / factor) as usize, (self.1 / factor) as usize)
    }

    open spec fn wrap_req(self, bounds: Self) -> bool {
        &&& bounds.0 > 0
        &&& bounds.1 > 0
    }

    open spec fn wrap_spec(self, bounds: Self) -> Self {
        ((self.0 % bounds.0) as usize, (self.1 % bounds.1) as usize)
    }

    open spec fn ewmin_spec(self, other: Self) -> Self {
        (min_of(self.0 as int, other.0 as int) as usize, min_of(self.1 as int, other.1 as int) as usize)
    }

    open spec fn ewmax_spec(self, other: Self) -> Self {
        (max_of(self.0 as int, other.0 as int) as usize, max_of(self.1 as int, other.1 as int) as usize)
    }

    open spec fn inside_spec(self, other: Self) -> bool {
        &&& self.0 <= other.0
        &&& self.1 <= other.1
    }

    open spec fn to_index_req(self, dims: Self) -> bool {
        &&& self.1 * dims.0 <= usize::MAX
        &&& self.1 * dims.0 + self.0 <= usize::MAX
    }

    open spec fn to_index_spec(self, dims: Self) -> usize {
        (self.1 * dims.0 + self.0) as usize
    }

    fn add(self, other: Self) -> (r: Self) {
        (self.0 + other.0, self.1 + other.1)
    }

    fn sub(self, other: Self) -> (r: Self) {
        (self.0 - other.0, self.1 - other.1)
    }

    fn scale(self, factor: usize) -> (r: Self) {
        (self.0 * factor, self.1 * factor)
    }

    fn shrink(self, factor: usize) -> (r: Self) {
        (self.0 / factor, self.1 / factor)
    }

    fn wrap(self, bounds: Self) -> (r: Self) {
        (self.0 % bounds.0, self.1 % bounds.1)
    }

    fn ewmin(self, other: Self) -> (r: Self) {
        (if self.0 <= other.0 { self.0 } else { other.0 }, if self.1 <= other.1 { self.1 } else { other.1 })
    }

    fn ewmax(self, other: Self) -> (r: Self) {
        (if self.0 >= other.0 { self.0 } else { other.0 }, if self.1 >= other.1 { self.1 } else { other.1 })
    }

    fn inside(self, other: Self) -> (r: bool) {
        self.0 <= other.0 && self.1 <= other.1
    }

    fn to_index(self, dims: Self) -> (r: usize) {
        self.1 * dims.0 + self.0
    }
}

impl CoordUtil<usize> for Coord3D {
    open spec fn add_req(self, other: Self) -> bool {
        &&& self.0 + other.0 <= usize::MAX
        &&& self.1 + other.1 <= usize::MAX
        &&& self.2 + other.2 <= usize::MAX
    }

    open spec fn add_spec(self, other: Self) -> Self {
        ((self.0 + other.0) as usize, (self.1 + other.1) as usize, (self.2 + other.2) as usize)
    }

    open spec fn sub_req(self, other: Self) -> bool {
        &&& self.0 >= other.0
        &&& self.1 >= other.1
        &&& self.2 >= other.2
    }

    open spec fn sub_spec(self, other: Self) -> Self {
        ((self.0 - other.0) as usize, (self.1 - other.1) as usize, (self.2 - other.2) as usize)
    }

    open spec fn scale_req(self, factor: usize) -> bool {
        &&& self.0 * factor <= usize::MAX
        &&& self.1 * factor <= usize::MAX
        &&& self.2 * factor <= usize::MAX
    }

    open spec fn scale_spec(self, factor: usize) -> Self {
        ((self.0 * factor) as usize, (self.1 * factor) as usize, (self.2 * factor) as usize)
    }

    open spec fn shrink_req(self, factor: usize) -> bool {
        factor > 0
    }

    open spec fn shrink_spec(self, factor: usize) -> Self {
        ((self.0 / factor) as usize, (self.1 / factor) as usize, (self.2 / factor) as usize)
    }

    open spec fn wrap_req(self, bounds: Self) -> bool {
        &&& bounds.0 > 0
        &&& bounds.1 > 0
        &&& bounds.2 > 0
    }

    open spec fn wrap_spec(self, bounds: Self) -> Self {
        ((self.0 % bounds.0) as usize, (self.1 % bounds.1) as usize, (self.2 % bounds.2) as usize)
    }

    open spec fn ewmin_spec(self, other: Self) -> Self {
        (min_of(self.0 as int, other.0 as int) as usize, min_of(self.1 as int, other.1 as int) as usize, min_of(self.2 as int, other.2 as int) as usize)
    }

    open spec fn ewmax_spec(self, other: Self) -> Self {
        (max_of(self.0 as int, other.0 as int) as usize, max_of(self.1 as int, other.1 as int) as usize, max_of(self.2 as int, other.2 as int) as usize)
    }

    open spec fn inside_spec(self, other: Self) -> bool {
        &&& self.0 <= other.0
        &&& self.1 <= other.1
        &&& self.2 <= other.2
    }

    open spec fn to_index_req(self, dims: Self) -> bool {
        index_3d_fits(self.0 as int, self.1 as int, self.2 as int, dims.0 as int, dims.1 as int)
    }

    open spec fn to_index_spec(self, dims: Self) -> usize {
        index_3d(self.0 as int, self.1 as int, self.2 as int, dims.0 as int, dims.1 as int) as usize
    }

    fn add(self, other: Self) -> (r: Self) {
        (self.0 + other.0, self.1 + other.1, self.2 + other.2)
    }

    fn sub(self, other: Self) -> (r: Self) {
        (self.0 - other.0, self.1 - other.1, self.2 - other.2)
    }

    fn scale(self, factor: usize) -> (r: Self) {
        (self.0 * factor, self.1 * factor, self.2 * factor)
    }

    fn shrink(self, factor: usize) -> (r: Self) {
        (self.0 / factor, self.1 / factor, self.2 / factor)
    }

    fn wrap(self, bounds: Self) -> (r: Self) {
        (self.0 % bounds.0, self.1 % bounds.1, self.2 % bounds.2)
    }

    fn ewmin(self, other: Self) -> (r: Self) {
        (if self.0 <= other.0 { self.0 } else { other.0 }, if self.1 <= other.1 { self.1 } else { other.1 }, if self.2 <= other.2 { self.2 } else { other.2 })
    }

    fn ewmax(self, other: Self) -> (r: Self) {
        (if self.0 >= other.0 { self.0 } else { other.0 }, if self.1 >= other.1 { self.1 } else { other.1 }, if self.2 >= other.2 { self.2 } else { other.2 })
    }

    fn inside(self, other: Self) -> (r: bool) {
        self.0 <= other.0 && self.1 <= other.1 && self.2 <= other.2
    }

    fn to_index(self, dims: Self) -> (r: usize) {
        (self.2 * dims.1 + self.1) * dims.0 + self.0
    }
}

impl CoordUtil<isize> for SignedCoord2D {
    open spec fn add_req(self, other: Self) -> bool {
        &&& in_isize(self.0 + other.0)
        &&& in_isize(self.1 + other.1)
    }

    open spec fn add_spec(self, other: Self) -> Self {
        ((self.0 + other.0) as isize, (self.1 + other.1) as isize)
    }

    open spec fn sub_req(self, other: Self) -> bool {
        &&& in_isize(self.0 - other.0)
        &&& in_isize(self.1 - other.1)
    }

    open spec fn sub_spec(self, other: Self) -> Self {
        ((self.0 - other.0) as isize, (self.1 - other.1) as isize)
    }

    open spec fn scale_req(self, factor: isize) -> bool {
        &&& in_isize(self.0 * factor)
        &&& in_isize(self.1 * factor)
    }

    open spec fn scale_spec(self, factor: isize) -> Self {
        ((self.0 * factor) as isize, (self.1 * factor) as isize)
    }

    open spec fn shrink_req(self, factor: isize) -> bool {
        &&& factor != 0
        &&& factor == -1 ==> self.0 != isize::MIN && self.1 != isize::MIN
    }

    open spec fn shrink_spec(self, factor: isize) -> Self {
        (trunc_quot(self.0 as int, factor as int) as isize, trunc_quot(self.1 as int, factor as int) as isize)
    }

    open spec fn wrap_req(self, bounds: Self) -> bool {
        &&& bounds.0 != 0 && !(self.0 == isize::MIN && bounds.0 == -1)
        &&& bounds.1 != 0 && !(self.1 == isize::MIN && bounds.1 == -1)
    }

    open spec fn wrap_spec(self, bounds: Self) -> Self {
        (trunc_rem(self.0 as int, bounds.0 as int) as isize, trunc_rem(self.1 as int, bounds.1 as int) as isize)
    }

    open spec fn ewmin_spec(self, other: Self) -> Self {
        (min_of(self.0 as int, other.0 as int) as isize, min_of(self.1 as int, other.1 as int) as isize)
    }

    open spec fn ewmax_spec(self, other: Self) -> Self {
        (max_of(self.0 as int, other.0 as int) as isize, max_of(self.1 as int, other.1 as int) as isize)
    }

    open spec fn inside_spec(self, other: Self) -> bool {
        &&& self.0 <= other.0
        &&& self.1 <= other.1
    }

    open spec fn to_index_req(self, dims: Self) -> bool {
        &&& in_isize(self.1 * dims.0)
        &&& in_isize(self.1 * dims.0 + self.0)
    }

    open spec fn to_index_spec(self, dims: Self) -> isize {
        (self.1 * dims.0 + self.0) as isize
    }

    fn add(self, other: Self) -> (r: Self) {
        (self.0 + other.0, self.1 + other.1)
    }

    fn sub(self, other: Self) -> (r: Self) {
        (self.0 - other.0, self.1 - other.1)
    }

    fn scale(self, factor: isize) -> (r: Self) {
        (self.0 * factor, self.1 * factor)
    }

    fn shrink(self, factor: isize) -> (r: Self) {
        proof {
            lemma_trunc_bounds(self.0 as int, factor as int);
            lemma_trunc_bounds(self.1 as int, factor as int);
        }
        (self.0.checked_div(factor).unwrap(), self.1.checked_div(factor).unwrap())
    }

    fn wrap(self, bounds: Self) -> (r: Self) {
        proof {
            lemma_trunc_bounds(self.0 as int, bounds.0 as int);
            lemma_trunc_bounds(self.1 as int, bounds.1 as int);
        }
        (self.0.checked_rem(bounds.0).unwrap(), self.1.checked_rem(bounds.1).unwrap())
    }

    fn ewmin(self, other: Self) -> (r: Self) {
        (if self.0 <= other.0 { self.0 } else { other.0 }, if self.1 <= other.1 { self.1 } else { other.1 })
    }

    fn ewmax(self, other: Self) -> (r: Self) {
        (if self.0 >= other.0 { self.0 } else { other.0 }, if self.1 >= other.1 { self.1 } else { other.1 })
    }

    fn inside(self, other: Self) -> (r: bool) {
        self.0 <= other.0 && self.1 <= other.1
    }

    fn to_index(self, dims: Self) -> (r: isize) {
        self.1 * dims.0 + self.0
    }
}

impl CoordUtil<isize> for SignedCoord3D {
    open spec fn add_req(self, other: Self) -> bool {
        &&& in_isize(self.0 + other.0)
        &&& in_isize(self.1 + other.1)
        &&& in_isize(self.2 + other.2)
    }

    open spec fn add_spec(self, other: Self) -> Self {
        ((self.0 + other.0) as isize, (self.1 + other.1) as isize, (self.2 + other.2) as isize)
    }

    open spec fn sub_req(self, other: Self) -> bool {
        &&& in_isize(self.0 - other.0)
        &&& in_isize(self.1 - other.1)
        &&& in_isize(self.2 - other.2)
    }

    open spec fn sub_spec(self, other: Self) -> Self {
        ((self.0 - other.0) as isize, (self.1 - other.1) as isize, (self.2 - other.2) as isize)
    }

    open spec fn scale_req(self, factor: isize) -> bool {
        &&& in_isize(self.0 * factor)
        &&& in_isize(self.1 * factor)
        &&& in_isize(self.2 * factor)
    }

    open spec fn scale_spec(self, factor: isize) -> Self {
        ((self.0 * factor) as isize, (self.1 * factor) as isize, (self.2 * factor) as isize)
    }

    open spec fn shrink_req(self, factor: isize) -> bool {
        &&& factor != 0
        &&& factor == -1 ==> self.0 != isize::MIN && self.1 != isize::MIN && self.2 != isize::MIN
    }

    open spec fn shrink_spec(self, factor: isize) -> Self {
        (trunc_quot(self.0 as int, factor as int) as isize, trunc_quot(self.1 as int, factor as int) as isize, trunc_quot(self.2 as int, factor as int) as isize)
    }

    open spec fn wrap_req(self, bounds: Self) -> bool {
        &&& bounds.0 != 0 && !(self.0 == isize::MIN && bounds.0 == -1)
        &&& bounds.1 != 0 && !(self.1 == isize::MIN && bounds.1 == -1)
        &&& bounds.2 != 0 && !(self.2 == isize::MIN && bounds.2 == -1)
    }

    open spec fn wrap_spec(self, bounds: Self) -> Self {
        (trunc_rem(self.0 as int, bounds.0 as int) as isize, trunc_rem(self.1 as int, bounds.1 as int) as isize, trunc_rem(self.2 as int, bounds.2 as int) as isize)
    }

    open spec fn ewmin_spec(self, other: Self) -> Self {
        (min_of(self.0 as int, other.0 as int) as isize, min_of(self.1 as int, other.1 as int) as isize, min_of(self.2 as int, other.2 as int) as isize)
    }

    open spec fn ewmax_spec(self, other: Self) -> Self {
        (max_of(self.0 as int, other.0 as int) as isize, max_of(self.1 as int, other.1 as int) as isize, max_of(self.2 as int, other.2 as int) as isize)
    }

    open spec fn inside_spec(self, other: Self) -> bool {
        &&& self.0 <= other.0
        &&& self.1 <= other.1
        &&& self.2 <= other.2
    }

    open spec fn to_index_req(self, dims: Self) -> bool {
        &&& in_isize(self.2 * dims.1)
        &&& in_isize(self.2 * dims.1 + self.1)
        &&& in_isize((self.2 * dims.1 + self.1) * dims.0)
        &&& in_isize((self.2 * dims.1 + self.1) * dims.0 + self.0)
    }

    open spec fn to_index_spec(self, dims: Self) -> isize {
        index_3d(self.0 as int, self.1 as int, self.2 as int, dims.0 as int, dims.1 as int) as isize
    }

    fn add(self, other: Self) -> (r: Self) {
        (self.0 + other.0, self.1 + other.1, self.2 + other.2)
    }

    fn sub(self, other: Self) -> (r: Self) {
        (self.0 - other.0, self.1 - other.1, self.2 - other.2)
    }

    fn scale(self, factor: isize) -> (r: Self) {
        (self.0 * factor, self.1 * factor, self.2 * factor)
    }

    fn shrink(self, factor: isize) -> (r: Self) {
        proof {
            lemma_trunc_bounds(self.0 as int, factor as int);
            lemma_trunc_bounds(self.1 as int, factor as int);
            lemma_trunc_bounds(self.2 as int, factor as int);
        }
        (self.0.checked_div(factor).unwrap(), self.1.checked_div(factor).unwrap(), self.2.checked_div(factor).unwrap())
    }

    fn wrap(self, bounds: Self) -> (r: Self) {
        proof {
            lemma_trunc_bounds(self.0 as int, bounds.0 as int);
            lemma_trunc_bounds(self.1 as int, bounds.1 as int);
            lemma_trunc_bounds(self.2 as int, bounds.2 as int);
        }
        (self.0.checked_rem(bounds.0).unwrap(), self.1.checked_rem(bounds.1).unwrap(), self.2.checked_rem(bounds.2).unwrap())
    }

    fn ewmin(self, other: Self) -> (r: Self) {
        (if self.0 <= other.0 { self.0 } else { other.0 }, if self.1 <= other.1 { self.1 } else { other.1 }, if self.2 <= other.2 { self.2 } else { other.2 })
    }

    fn ewmax(self, other: Self) -> (r: Self) {
        (if self.0 >= other.0 { self.0 } else { other.0 }, if self.1 >= other.1 { self.1 } else { other.1 }, if self.2 >= other.2 { self.2 } else { other.2 })
    }

    fn inside(self, other: Self) -> (r: bool) {
        self.0 <= other.0 && self.1 <= other.1 && self.2 <= other.2
    }

    fn to_index(self, dims: Self) -> (r: isize) {
        (self.2 * dims.1 + self.1) * dims.0 + self.0
    }
}

/// Conversion of an unsigned coordinate into a signed one.
pub trait CoordConvertSigned<T>: Sized {
    spec fn signed_spec(self) -> T;

    fn signed(self) -> (r: T)
        ensures
            r == self.signed_spec(),
    ;
}

impl CoordConvertSigned<SignedCoord3D> for Coord3D {
    /// Each component converted with `as isize`, which wraps components above `isize::MAX`.
    open spec fn signed_spec(self) -> SignedCoord3D {
        (self.0 as isize, self.1 as isize, self.2 as isize)
    }

    fn signed(self) -> (r: SignedCoord3D) {
        (self.0 as isize, self.1 as isize, self.2 as isize)
    }
}

/// A coordinate whose components all equal one value.
pub trait CoordRepeat<T>: Sized {
    spec fn repeat_spec(self) -> T;

    fn repeat(self) -> (r: T)
        ensures
            r == self.repeat_spec(),
    ;
}

impl<T: Copy> CoordRepeat<(T, T, T)> for T {
    open spec fn repeat_spec(self) -> (T, T, T) {
        (self, self, self)
    }

    fn repeat(self) -> (r: (T, T, T)) {
        (self, self, self)
    }
}

/// One of the three axes of the world.
#[derive(Debug, Clone, Copy, PartialEq, Eq, Structural)]
pub enum Axis {
    X,
    Y,
    Z,
}

} // verus!
