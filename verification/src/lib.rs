//! Procedural generation of branching river networks inside a closed
//! terrain contour.
//!
//! All geometry is carried in fixed-point integers: planar coordinates and
//! elevations are milli-units (one thousandth of a world unit), while slope
//! values and probabilities are micro-units (fractions of [`UNIT`]).  This
//! keeps every predicate exact: point-in-polygon and clearance tests are
//! decided by integer sign tests, never by rounded division.

use vstd::prelude::*;

pub mod fixed;
pub mod river_gen;
pub mod river_graph;
pub mod rng;
pub mod slope_map;

verus! {

/// One, in the micro-unit fixed-point scale used for slopes and
/// probabilities.
pub const UNIT: u64 = 1_000_000;

/// Largest magnitude allowed for a stored planar coordinate (milli-units).
pub const WORLD_LIMIT: i64 = 100_000_000;

/// Largest magnitude allowed for a query point handed to the geometry
/// predicates: candidate points may overshoot the world by one edge length.
pub const QUERY_LIMIT: i64 = 200_000_000;

/// Largest magnitude allowed for a stored elevation (milli-units).
pub const HEIGHT_LIMIT: i64 = 1_000_000_000_000_000;

/// A planar point.
#[derive(Clone, Copy, Debug, PartialEq, Eq, Structural)]
pub struct Point2 {
    pub x: i64,
    pub y: i64,
}

/// A point in space; `z` is the elevation.
#[derive(Clone, Copy, Debug, PartialEq, Eq, Structural)]
pub struct Point3 {
    pub x: i64,
    pub y: i64,
    pub z: i64,
}

/// The planar shadow of a spatial point.
pub open spec fn shadow(p: Point3) -> Point2 {
    Point2 { x: p.x, y: p.y }
}

pub open spec fn in_world_xy(p: Point2) -> bool {
    &&& -WORLD_LIMIT <= p.x <= WORLD_LIMIT
    &&& -WORLD_LIMIT <= p.y <= WORLD_LIMIT
}

pub open spec fn in_world_pos(p: Point3) -> bool {
    &&& in_world_xy(shadow(p))
    &&& -HEIGHT_LIMIT <= p.z <= HEIGHT_LIMIT
}

pub open spec fn in_query_range(p: Point2) -> bool {
    &&& -QUERY_LIMIT <= p.x <= QUERY_LIMIT
    &&& -QUERY_LIMIT <= p.y <= QUERY_LIMIT
}

pub open spec fn all_in_world(c: Seq<Point2>) -> bool {
    forall|i: int| 0 <= i < c.len() ==> in_world_xy(#[trigger] c[i])
}

/// Squared planar distance.
pub open spec fn dist2(a: Point2, b: Point2) -> int {
    (a.x - b.x) * (a.x - b.x) + (a.y - b.y) * (a.y - b.y)
}

/// Second endpoint of the polygon edge that starts at vertex `i`: the vertex
/// sequence is cyclic, so the last edge closes back to the first vertex.
pub open spec fn edge_end(c: Seq<Point2>, i: int) -> Point2
    recommends
        0 <= i < c.len(),
{
    if i + 1 == c.len() {
        c[0]
    } else {
        c[i + 1]
    }
}

/// Does a ray cast from `p` towards `x == -infinity` cross the open edge
/// `a -> b`?  The test is the classic edge-crossing parity condition with the
/// division cleared: the quotient comparison `p.x < a.x + (b.x - a.x) *
/// (p.y - a.y) / (b.y - a.y)` is multiplied through by `b.y - a.y`, flipping
/// the inequality when that factor is negative.
pub open spec fn crossing(a: Point2, b: Point2, p: Point2) -> bool {
    &&& (a.y > p.y) != (b.y > p.y)
    &&& if b.y > a.y {
        (p.x - a.x) * (b.y - a.y) < (b.x - a.x) * (p.y - a.y)
    } else {
        (p.x - a.x) * (b.y - a.y) > (b.x - a.x) * (p.y - a.y)
    }
}

/// Crossing parity of the first `n` edges of the polygon.
pub open spec fn crossing_parity(c: Seq<Point2>, p: Point2, n: int) -> bool
    decreases n,
{
    if n <= 0 {
        false
    } else {
        crossing_parity(c, p, n - 1) != crossing(c[n - 1], edge_end(c, n - 1), p)
    }
}

/// Ray-casting containment: `p` lies inside the closed polygon `c` when a ray
/// out of `p` crosses an odd number of edges.
pub open spec fn polygon_contains(c: Seq<Point2>, p: Point2) -> bool {
    crossing_parity(c, p, c.len() as int)
}

/// Is `p` at squared distance at least `margin * margin` from the segment
/// `a -> b`?  The projection parameter of `p` onto the segment is
/// `dot / ab2`; the comparison in the interior case is the squared distance
/// to the clamped projection with the denominator `ab2` multiplied through.
pub open spec fn segment_clear(a: Point2, b: Point2, p: Point2, margin: int) -> bool {
    let ab2 = dist2(a, b);
    let dot = (p.x - a.x) * (b.x - a.x) + (p.y - a.y) * (b.y - a.y);
    if ab2 == 0 {
        dist2(a, p) >= margin * margin
    } else if dot <= 0 {
        dist2(a, p) >= margin * margin
    } else if dot >= ab2 {
        dist2(b, p) >= margin * margin
    } else {
        dist2(a, p) * ab2 - dot * dot >= margin * margin * ab2
    }
}

/// Clearance of `p` from every edge of the closed polygon `c`.
pub open spec fn contour_clear(c: Seq<Point2>, p: Point2, margin: int) -> bool {
    forall|i: int| 0 <= i < c.len() ==> #[trigger] segment_clear(c[i], edge_end(c, i), p, margin)
}

/// Clearance of `p` from every segment in `segs`.  An empty segment set
/// imposes no constraint.
pub open spec fn segments_clear(segs: Seq<(Point2, Point2)>, p: Point2, margin: int) -> bool {
    forall|i: int| 0 <= i < segs.len()
        ==> #[trigger] segment_clear(segs[i].0, segs[i].1, p, margin)
}

/// A point may host a new river node when it lies inside the contour and
/// keeps `margin` clearance both from the contour boundary and from every
/// existing river edge.
pub open spec fn point_admissible(
    c: Seq<Point2>,
    segs: Seq<(Point2, Point2)>,
    margin: int,
    p: Point2,
) -> bool {
    &&& polygon_contains(c, p)
    &&& contour_clear(c, p, margin)
    &&& segments_clear(segs, p, margin)
}

/// Both factors bounded in magnitude bound their product.
pub proof fn lemma_mul_le(x: int, y: int, m: int, n: int)
    by (nonlinear_arith)
    requires
        -m <= x <= m,
        -n <= y <= n,
    ensures
        -(m * n) <= x * y <= m * n,
{
}

/// A bounded factor has a bounded, non-negative square.
pub proof fn lemma_square_le(x: int, m: int)
    by (nonlinear_arith)
    requires
        -m <= x <= m,
    ensures
        0 <= x * x <= m * m,
{
}

/// Squared planar distance, computed exactly.
pub fn dist2_of(a: Point2, b: Point2) -> (r: i64)
    requires
        in_query_range(a),
        in_query_range(b),
    ensures
        r as int == dist2(a, b),
        0 <= r <= 320_000_000_000_000_000,
{
    proof {
        lemma_square_le(a.x - b.x, 400_000_000);
        lemma_square_le(a.y - b.y, 400_000_000);
    }
    (a.x - b.x) * (a.x - b.x) + (a.y - b.y) * (a.y - b.y)
}

/// Ray-casting point-in-polygon parity test over the cyclic vertex list.
pub fn pnpoly(contour: &Vec<Point2>, point: Point2) -> (r: bool)
    requires
        all_in_world(contour@),
        in_query_range(point),
    ensures
        r == polygon_contains(contour@, point),
{
    let n = contour.len();
    let mut inside = false;
    let mut i: usize = 0;
    while i < n
        invariant
            i <= n,
            n == contour@.len(),
            all_in_world(contour@),
            in_query_range(point),
            inside == crossing_parity(contour@, point, i as int),
        decreases n - i,
    {
        let a = contour[i];
        let b = if i + 1 == n {
            contour[0]
        } else {
            contour[i + 1]
        };
        if (a.y > point.y) != (b.y > point.y) {
            proof {
                lemma_mul_le(point.x - a.x, b.y - a.y, 300_000_000, 200_000_000);
                lemma_mul_le(b.x - a.x, point.y - a.y, 200_000_000, 300_000_000);
            }
            let lhs = (point.x - a.x) * (b.y - a.y);
            let rhs = (b.x - a.x) * (point.y - a.y);
            let crossed = if b.y > a.y {
                lhs < rhs
            } else {
                lhs > rhs
            };
            if crossed {
                inside = !inside;
            }
        }
        i = i + 1;
    }
    inside
}

/// Decides `segment_clear` for one segment, with the rational comparisons
/// carried out exactly in 128-bit integers.
pub fn segment_clear_of(a: Point2, b: Point2, p: Point2, margin: i64) -> (r: bool)
    requires
        in_world_xy(a),
        in_world_xy(b),
        in_query_range(p),
        0 <= margin <= WORLD_LIMIT,
    ensures
        r == segment_clear(a, b, p, margin as int),
{
    let ab2: i64 = dist2_of(a, b);
    let ap2: i64 = dist2_of(a, p);
    proof {
        lemma_square_le(margin as int, WORLD_LIMIT as int);
    }
    let m2: i64 = margin * margin;
    if ab2 == 0 {
        ap2 >= m2
    } else {
        proof {
            lemma_mul_le(p.x - a.x, b.x - a.x, 300_000_000, 200_000_000);
            lemma_mul_le(p.y - a.y, b.y - a.y, 300_000_000, 200_000_000);
        }
        let dot: i64 = (p.x - a.x) * (b.x - a.x) + (p.y - a.y) * (b.y - a.y);
        if dot <= 0 {
            ap2 >= m2
        } else if dot >= ab2 {
            let bp2: i64 = dist2_of(b, p);
            bp2 >= m2
        } else {
            proof {
                lemma_mul_le(
                    ap2 as int,
                    ab2 as int,
                    320_000_000_000_000_000,
                    320_000_000_000_000_000,
                );
                lemma_square_le(dot as int, 320_000_000_000_000_000);
                lemma_mul_le(m2 as int, ab2 as int, 320_000_000_000_000_000, 320_000_000_000_000_000);
            }
            (ap2 as i128) * (ab2 as i128) - (dot as i128) * (dot as i128) >= (m2 as i128) * (ab2
                as i128)
        }
    }
}

/// Clearance of `point` from every edge of the cyclic contour.
pub fn contour_clear_of(contour: &Vec<Point2>, point: Point2, margin: i64) -> (r: bool)
    requires
        all_in_world(contour@),
        in_query_range(point),
        0 <= margin <= WORLD_LIMIT,
    ensures
        r == contour_clear(contour@, point, margin as int),
{
    let n = contour.len();
    let mut i: usize = 0;
    while i < n
        invariant
            i <= n,
            n == contour@.len(),
            all_in_world(contour@),
            in_query_range(point),
            0 <= margin <= WORLD_LIMIT,
            forall|j: int| 0 <= j < i
                ==> #[trigger] segment_clear(contour@[j], edge_end(contour@, j), point, margin as int),
        decreases n - i,
    {
        let a = contour[i];
        let b = if i + 1 == n {
            contour[0]
        } else {
            contour[i + 1]
        };
        if !segment_clear_of(a, b, point, margin) {
            proof {
                assert(b == edge_end(contour@, i as int));
            }
            return false;
        }
        i = i + 1;
    }
    true
}

/// Clearance of `point` from every segment in `segs`.
pub fn segments_clear_of(segs: &Vec<(Point2, Point2)>, point: Point2, margin: i64) -> (r: bool)
    requires
        forall|i: int| 0 <= i < segs@.len()
            ==> in_world_xy(#[trigger] segs@[i].0) && in_world_xy(segs@[i].1),
        in_query_range(point),
        0 <= margin <= WORLD_LIMIT,
    ensures
        r == segments_clear(segs@, point, margin as int),
{
    let n = segs.len();
    let mut i: usize = 0;
    while i < n
        invariant
            i <= n,
            n == segs@.len(),
            forall|j: int| 0 <= j < segs@.len()
                ==> in_world_xy(#[trigger] segs@[j].0) && in_world_xy(segs@[j].1),
            in_query_range(point),
            0 <= margin <= WORLD_LIMIT,
            forall|j: int| 0 <= j < i
                ==> #[trigger] segment_clear(segs@[j].0, segs@[j].1, point, margin as int),
        decreases n - i,
    {
        let s = segs[i];
        if !segment_clear_of(s.0, s.1, point, margin) {
            return false;
        }
        i = i + 1;
    }
    true
}

} // verus!
