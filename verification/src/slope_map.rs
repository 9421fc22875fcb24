//! The slope field capability: a map from a planar point to a normalized
//! terrain steepness in `[0, UNIT]`, together with the one concrete backing
//! implementation, a row-major square grid behind an affine transform.

use vstd::prelude::*;

use crate::{in_query_range, in_world_xy, Point2, UNIT, WORLD_LIMIT};

verus! {

/// Largest grid side accepted by [`ArraySlopeMap`].
pub const GRID_SIDE_LIMIT: usize = 60_000;

/// A normalized slope field.  Implementations fix their sampling function at
/// the specification level, so the value of every sample is pinned down.
pub trait SlopeMap: Sized {
    /// The implementation's internal invariant.
    spec fn wf(&self) -> bool;

    /// What sampling returns, as a function of the field and the point.
    spec fn sample_at(&self, pos: Point2) -> u64;

    /// Sample the field; the value is a micro-unit slope in `[0, UNIT]`.
    fn sample(&self, pos: Point2) -> (v: u64)
        requires
            self.wf(),
            in_query_range(pos),
        ensures
            v == self.sample_at(pos),
            v <= UNIT,
    ;
}

/// What a grid lookup returns: the point is translated by `-offset`, points
/// outside the square `[0, scale) x [0, scale)` sample as zero, and points
/// inside map to a row-major cell of the `side x side` grid.
pub open spec fn grid_sample(
    data: Seq<u64>,
    side: int,
    offset: Point2,
    scale: int,
    pos: Point2,
) -> u64 {
    let dx = pos.x - offset.x;
    let dy = pos.y - offset.y;
    if dx < 0 || dx >= scale || dy < 0 || dy >= scale {
        0
    } else {
        let cx = (dx * side) / scale;
        let cy = (dy * side) / scale;
        let idx = cx + cy * side;
        if 0 <= idx < data.len() {
            data[idx]
        } else {
            0
        }
    }
}

/// A slope field backed by a flat row-major array of micro-unit values.
pub struct ArraySlopeMap {
    data: Vec<u64>,
    side: usize,
    offset: Point2,
    scale: i64,
}

impl ArraySlopeMap {
    /// The stored grid values.
    pub closed spec fn spec_data(&self) -> Seq<u64> {
        self.data@
    }

    /// The grid side length.
    pub closed spec fn spec_side(&self) -> int {
        self.side as int
    }

    /// The world-space origin of the grid.
    pub closed spec fn spec_offset(&self) -> Point2 {
        self.offset
    }

    /// The world-space side length of the grid's square domain.
    pub closed spec fn spec_scale(&self) -> int {
        self.scale as int
    }

    /// A grid with the given values; `data` holds `side * side` micro-unit
    /// slopes, and the square `[offset, offset + scale)` is the domain.
    pub fn new(data: Vec<u64>, side: usize, offset: Point2, scale: i64) -> (r: ArraySlopeMap)
        requires
            1 <= side <= GRID_SIDE_LIMIT,
            data@.len() == side * side,
            forall|i: int| 0 <= i < data@.len() ==> #[trigger] data@[i] <= UNIT,
            in_world_xy(offset),
            1 <= scale <= WORLD_LIMIT,
        ensures
            r.wf(),
            r.spec_data() == data@,
            r.spec_side() == side as int,
            r.spec_offset() == offset,
            r.spec_scale() == scale as int,
    {
        ArraySlopeMap { data, side, offset, scale }
    }
}

impl SlopeMap for ArraySlopeMap {
    /// The grid is non-degenerate, its values are in range, and its affine
    /// transform stays within the world.
    closed spec fn wf(&self) -> bool {
        &&& 1 <= self.side <= GRID_SIDE_LIMIT
        &&& self.data@.len() == self.side * self.side
        &&& forall|i: int| 0 <= i < self.data@.len() ==> #[trigger] self.data@[i] <= UNIT
        &&& in_world_xy(self.offset)
        &&& 1 <= self.scale <= WORLD_LIMIT
    }

    closed spec fn sample_at(&self, pos: Point2) -> u64 {
        grid_sample(self.data@, self.side as int, self.offset, self.scale as int, pos)
    }

    fn sample(&self, pos: Point2) -> (v: u64) {
        let dx: i64 = pos.x - self.offset.x;
        let dy: i64 = pos.y - self.offset.y;
        if dx < 0 || dx >= self.scale || dy < 0 || dy >= self.scale {
            return 0;
        }
        let side: i64 = self.side as i64;
        proof {
            crate::lemma_mul_le(dx as int, side as int, WORLD_LIMIT as int, GRID_SIDE_LIMIT as int);
            crate::lemma_mul_le(dy as int, side as int, WORLD_LIMIT as int, GRID_SIDE_LIMIT as int);
            assert(((dx as int) * (side as int)) / (self.scale as int) < (side as int))
                by (nonlinear_arith)
                requires
                    0 <= (dx as int) < (self.scale as int),
                    1 <= (side as int),
            ;
            assert(((dy as int) * (side as int)) / (self.scale as int) < (side as int))
                by (nonlinear_arith)
                requires
                    0 <= (dy as int) < (self.scale as int),
                    1 <= (side as int),
            ;
            assert(0 <= ((dx as int) * (side as int)) / (self.scale as int)) by (nonlinear_arith)
                requires
                    0 <= (dx as int) * (side as int),
                    1 <= (self.scale as int),
            ;
            assert(0 <= ((dy as int) * (side as int)) / (self.scale as int)) by (nonlinear_arith)
                requires
                    0 <= (dy as int) * (side as int),
                    1 <= (self.scale as int),
            ;
        }
        let cx: i64 = (dx * side) / self.scale;
        let cy: i64 = (dy * side) / self.scale;
        proof {
            crate::lemma_mul_le(cy as int, side as int, GRID_SIDE_LIMIT as int, GRID_SIDE_LIMIT
                as int);
            assert(cx + cy * side < side * side) by (nonlinear_arith)
                requires
                    0 <= (cx as int) < (side as int),
                    0 <= (cy as int) < (side as int),
            ;
        }
        let idx: usize = (cx + cy * side) as usize;
        self.data[idx]
    }
}

} // verus!
