use vstd::prelude::*;
use crate::util::coords::{index_2d, index_3d, Coord2D, Coord3D};

verus! {

/// Walks the coordinates of a square grid, X changing the fastest.
pub struct CoordIter2D {
    coord: (usize, usize),
    size: usize,
    first: bool,
}

impl CoordIter2D {
    /// The coordinate the iterator last handed out (or will hand out first).
    pub closed spec fn coord(self) -> (usize, usize) {
        self.coord
    }

    pub closed spec fn size(self) -> usize {
        self.size
    }

    /// Whether nothing has been handed out yet.
    pub closed spec fn first(self) -> bool {
        self.first
    }

    /// Whether one more call of `next` stays clear of integer overflow.
    pub open spec fn can_advance(self) -> bool {
        !self.first() ==> {
            &&& self.coord().0 < usize::MAX
            &&& self.coord().0 + 1 == self.size() ==> self.coord().1 < usize::MAX
        }
    }

    /// The state after one call of `next`, and what that call returns.
    pub open spec fn step(self) -> ((usize, usize), bool, Option<Coord2D>) {
        let (x, y) = self.coord();
        let s = self.size();
        if self.first() {
            ((x, y), false, Some((x, y)))
        } else if x + 1 == s {
            if y + 1 == s {
                ((0, (y + 1) as usize), false, None)
            } else {
                ((0, (y + 1) as usize), false, Some((0, (y + 1) as usize)))
            }
        } else {
            (((x + 1) as usize, y), false, Some(((x + 1) as usize, y)))
        }
    }

    /// How many coordinates have been handed out, while the walk is inside the grid.
    pub open spec fn position(self) -> int {
        if self.first() {
            0
        } else {
            index_2d(self.coord().0 as int, self.coord().1 as int, self.size() as int) + 1
        }
    }

    /// A walk that has not left the grid.
    pub open spec fn in_grid(self) -> bool {
        &&& self.size() > 0
        &&& self.coord().0 < self.size()
        &&& self.coord().1 < self.size()
        &&& self.first() ==> self.coord() == (0usize, 0usize)
    }

    pub fn next(&mut self) -> (r: Option<Coord2D>)
        requires
            old(self).can_advance(),
        ensures
            final(self).size() == old(self).size(),
            final(self).coord() == old(self).step().0,
            final(self).first() == old(self).step().1,
            r == old(self).step().2,
    {
        if self.first {
            self.first = false;
            return Some(self.coord);
        }
        self.coord.0 = self.coord.0 + 1;
        if self.coord.0 == self.size {
            self.coord.0 = 0;
            self.coord.1 = self.coord.1 + 1;
            if self.coord.1 == self.size {
                return None;
            }
        }
        Some(self.coord)
    }

    /// Inside the grid, `next` hands out the coordinates in index order, then `None`.
    pub proof fn lemma_next_in_order(self)
        requires
            self.in_grid(),
        ensures
            self.can_advance(),
            self.position() < self.size() * self.size() ==> {
                &&& self.step().2 == Some(self.step().0)
                &&& index_2d(self.step().0.0 as int, self.step().0.1 as int, self.size() as int)
                    == self.position()
                &&& self.step().0.0 < self.size() && self.step().0.1 < self.size()
            },
            self.position() == self.size() * self.size() ==> self.step().2 is None,
            self.position() <= self.size() * self.size(),
    {
        let s = self.size() as int;
        let (x, y) = (self.coord().0 as int, self.coord().1 as int);
        assert(index_2d(x, y, s) < s * s) by (nonlinear_arith)
            requires 0 <= x < s, 0 <= y < s;
        if !self.first() && x + 1 == s {
            assert(index_2d(0, y + 1, s) == index_2d(x, y, s) + 1) by (nonlinear_arith)
                requires x + 1 == s;
            if y + 1 == s {
                assert(index_2d(x, y, s) + 1 == s * s) by (nonlinear_arith)
                    requires x + 1 == s, y + 1 == s;
            } else {
                assert(index_2d(x, y, s) + 1 < s * s) by (nonlinear_arith)
                    requires x + 1 == s, 0 <= y, y + 1 < s;
            }
        }
        if !self.first() && x + 1 < s {
            assert(self.step().0 == ((x + 1) as usize, y as usize));
            assert(index_2d(x + 1, y, s) == index_2d(x, y, s) + 1);
            assert(index_2d(x, y, s) + 1 < s * s) by (nonlinear_arith)
                requires x + 1 < s, 0 <= y < s;
        }
        if self.first() {
            assert(0 < s * s) by (nonlinear_arith)
                requires s > 0;
            assert(index_2d(0, 0, s) == 0) by (nonlinear_arith);
        }
    }
}

/// X is least significant (changes 1:1 instead of 1:size).
pub fn coord_iter_2d(size: usize) -> (r: CoordIter2D)
    ensures
        r.coord() == (0usize, 0usize),
        r.size() == size,
        r.first(),
{
    CoordIter2D { coord: (0, 0), size, first: true }
}

/// Walks the coordinates of a cube, X changing the fastest and Z the slowest.
pub struct CoordIter3D {
    coord: (usize, usize, usize),
    size: usize,
    first: bool,
}

impl CoordIter3D {
    /// The coordinate the iterator last handed out (or will hand out first).
    pub closed spec fn coord(self) -> (usize, usize, usize) {
        self.coord
    }

    pub closed spec fn size(self) -> usize {
        self.size
    }

    /// Whether nothing has been handed out yet.
    pub closed spec fn first(self) -> bool {
        self.first
    }

    /// Whether one more call of `next` stays clear of integer overflow.
    pub open spec fn can_advance(self) -> bool {
        !self.first() ==> {
            &&& self.coord().0 < usize::MAX
            &&& self.coord().0 + 1 == self.size() ==> self.coord().1 < usize::MAX
            &&& self.coord().0 + 1 == self.size() && self.coord().1 + 1 == self.size()
                ==> self.coord().2 < usize::MAX
        }
    }

    /// The state after one call of `next`, and what that call returns.
    pub open spec fn step(self) -> ((usize, usize, usize), bool, Option<Coord3D>) {
        let (x, y, z) = self.coord();
        let s = self.size();
        if self.first() {
            ((x, y, z), false, Some((x, y, z)))
        } else if x + 1 == s {
            if y + 1 == s {
                if z + 1 == s {
                    ((0, 0, (z + 1) as usize), false, None)
                } else {
                    ((0, 0, (z + 1) as usize), false, Some((0, 0, (z + 1) as usize)))
                }
            } else {
                ((0, (y + 1) as usize, z), false, Some((0, (y + 1) as usize, z)))
            }
        } else {
            (((x + 1) as usize, y, z), false, Some(((x + 1) as usize, y, z)))
        }
    }

    /// How many coordinates have been handed out, while the walk is inside the cube.
    pub open spec fn position(self) -> int {
        if self.first() {
            0
        } else {
            index_3d(
                self.coord().0 as int,
                self.coord().1 as int,
                self.coord().2 as int,
                self.size() as int,
                self.size() as int,
            ) + 1
        }
    }

    /// A walk that has not left the cube.
    pub open spec fn in_grid(self) -> bool {
        &&& self.size() > 0
        &&& self.coord().0 < self.size()
        &&& self.coord().1 < self.size()
        &&& self.coord().2 < self.size()
        &&& self.first() ==> self.coord() == (0usize, 0usize, 0usize)
    }

    pub fn next(&mut self) -> (r: Option<Coord3D>)
        requires
            old(self).can_advance(),
        ensures
            final(self).size() == old(self).size(),
            final(self).coord() == old(self).step().0,
            final(self).first() == old(self).step().1,
            r == old(self).step().2,
    {
        if self.first {
            self.first = false;
            return Some(self.coord);
        }
        self.coord.0 = self.coord.0 + 1;
        if self.coord.0 == self.size {
            self.coord.0 = 0;
            self.coord.1 = self.coord.1 + 1;
            if self.coord.1 == self.size {
                self.coord.1 = 0;
                self.coord.2 = self.coord.2 + 1;
                if self.coord.2 == self.size {
                    return None;
                }
            }
        }
        Some(self.coord)
    }

    /// Inside the cube, `next` hands out the coordinates in index order, then `None`.
    pub proof fn lemma_next_in_order(self)
        requires
            self.in_grid(),
        ensures
            self.can_advance(),
            self.position() < self.size() * self.size() * self.size() ==> {
                &&& self.step().2 == Some(self.step().0)
                &&& index_3d(
                    self.step().0.0 as int,
                    self.step().0.1 as int,
                    self.step().0.2 as int,
                    self.size() as int,
                    self.size() as int,
                ) == self.position()
                &&& self.step().0.0 < self.size() && self.step().0.1 < self.size()
                    && self.step().0.2 < self.size()
            },
            self.position() == self.size() * self.size() * self.size() ==> self.step().2 is None,
            self.position() <= self.size() * self.size() * self.size(),
    {
        let s = self.size() as int;
        let (x, y, z) = (self.coord().0 as int, self.coord().1 as int, self.coord().2 as int);
        assert(index_3d(x, y, z, s, s) < s * s * s) by (nonlinear_arith)
            requires 0 <= x < s, 0 <= y < s, 0 <= z < s;
        if self.first() {
            assert(0 < s * s * s) by (nonlinear_arith)
                requires s > 0;
            assert(index_3d(0, 0, 0, s, s) == 0) by (nonlinear_arith);
        } else if x + 1 < s {
            assert(index_3d(x, y, z, s, s) + 1 < s * s * s) by (nonlinear_arith)
                requires x + 1 < s, 0 <= y < s, 0 <= z < s;
        } else if y + 1 < s {
            assert(index_3d(0, y + 1, z, s, s) == index_3d(x, y, z, s, s) + 1) by (nonlinear_arith)
                requires x + 1 == s;
            assert(index_3d(x, y, z, s, s) + 1 < s * s * s) by (nonlinear_arith)
                requires x + 1 == s, y + 1 < s, 0 <= z < s;
        } else {
            assert(index_3d(0, 0, z + 1, s, s) == index_3d(x, y, z, s, s) + 1) by (nonlinear_arith)
                requires x + 1 == s, y + 1 == s;
            if z + 1 == s {
                assert(index_3d(x, y, z, s, s) + 1 == s * s * s) by (nonlinear_arith)
                    requires x + 1 == s, y + 1 == s, z + 1 == s;
            } else {
                assert(index_3d(x, y, z, s, s) + 1 < s * s * s) by (nonlinear_arith)
                    requires x + 1 == s, y + 1 == s, 0 <= z, z + 1 < s;
            }
        }
    }
}

/// X is least significant (changes the fastest).
pub fn coord_iter_3d(size: usize) -> (r: CoordIter3D)
    ensures
        r.coord() == (0usize, 0usize, 0usize),
        r.size() == size,
        r.first(),
{
    CoordIter3D { coord: (0, 0, 0), size, first: true }
}

} // verus!
