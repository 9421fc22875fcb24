//! The river growth engine.  It owns the graph, the frontier of growable
//! tips, the cached planar segments of the existing edges, the slope field,
//! the contour, and the randomness source; `grow_network` drives all
//! mutation until no tip can be selected any more.

use vstd::prelude::*;

use crate::fixed::dir_step;
use crate::fixed::isqrt64;
use crate::fixed::{spec_dir_step, spec_isqrt};
use crate::river_graph::RiverGraph;
pub use crate::river_graph::RiverNode;
use crate::rng::{spec_mix, spec_wrap_add, RiverRng, GAMMA};
use crate::slope_map::SlopeMap;
use crate::{
    all_in_world, contour_clear_of, dist2, in_query_range, in_world_pos, in_world_xy,
    pnpoly, point_admissible, polygon_contains, segments_clear_of, shadow, Point2, Point3,
    HEIGHT_LIMIT, UNIT,
    WORLD_LIMIT,
};

verus! {

/// Allowed deviation of the three branching probabilities from a full unit,
/// in micro-units.
pub const PROB_TOLERANCE: u64 = 1_000;

/// Smallest remapped slope, in micro-units.
pub const SLOPE_MIN: u64 = 1_000;

/// Width of the remapped slope band, in micro-units.
pub const SLOPE_SPAN: u64 = 250_000;

/// Number of rejection-sampling attempts per child position.
pub const POINT_ATTEMPTS: u64 = 50;

/// Hard capacity of the node arena; growth stops branching when it is
/// reached, so the growth loop provably terminates.
pub const NODE_CAP: usize = 0x1000_0000;

/// The tunable parameters of the growth engine.  Probabilities are
/// micro-unit fractions; lengths and heights are milli-unit world
/// coordinates.
#[derive(Clone, Copy, Debug, PartialEq, Eq, Structural)]
pub struct RiverGenSettings {
    /// Height band above the lowest frontier tip within which tips may be
    /// selected for expansion.
    pub height_range: i64,
    /// Probability of plain growth: one child that keeps the priority.
    pub prob_growth: u64,
    /// Probability of a symmetric split: two children, each one priority
    /// lower.
    pub prob_symmetric: u64,
    /// Probability of an asymmetric split: one child keeps the priority, one
    /// child draws a strictly smaller one.
    pub prob_asymetric: u64,
    /// Planar length of a new edge.
    pub edge_length: i64,
    /// Minimum clearance of a new node from other edges and the contour.
    pub edge_margin: i64,
}

impl RiverGenSettings {
    /// The settings contract: the three probabilities sum to one within
    /// [`PROB_TOLERANCE`], the height band is non-negative, the edge length
    /// is positive, and the margin is a proper fraction of it.
    pub open spec fn valid(&self) -> bool {
        &&& UNIT - PROB_TOLERANCE <= self.prob_growth + self.prob_symmetric + self.prob_asymetric
            <= UNIT + PROB_TOLERANCE
        &&& 0 <= self.height_range <= HEIGHT_LIMIT
        &&& 0 < self.edge_length <= WORLD_LIMIT
        &&& 0 <= self.edge_margin < self.edge_length
    }

    /// Decides the settings contract, exactly.
    pub fn is_valid(&self) -> (r: bool)
        ensures
            r == self.valid(),
    {
        let sum: u128 = self.prob_growth as u128 + self.prob_symmetric as u128
            + self.prob_asymetric as u128;
        (UNIT - PROB_TOLERANCE) as u128 <= sum && sum <= (UNIT + PROB_TOLERANCE) as u128
            && 0 <= self.height_range && self.height_range <= HEIGHT_LIMIT && 0 < self.edge_length
            && self.edge_length <= WORLD_LIMIT && 0 <= self.edge_margin && self.edge_margin
            < self.edge_length
    }
}

/// The planar segment that edge `k` of `g` spans.
pub open spec fn edge_segment(g: RiverGraph, k: int) -> (Point2, Point2) {
    let e = g.spec_edges()[k];
    (shadow(g.spec_nodes()[e.0 as int].pos), shadow(g.spec_nodes()[e.1 as int].pos))
}

/// The identifiers among the first `n` nodes of `g` with no outgoing edge,
/// in ascending order.
pub open spec fn frontier_upto(g: RiverGraph, n: int) -> Seq<usize>
    decreases n,
{
    if n <= 0 {
        Seq::empty()
    } else if g.spec_has_outgoing(n - 1) {
        frontier_upto(g, n - 1)
    } else {
        frontier_upto(g, n - 1).push((n - 1) as usize)
    }
}

/// The growable tips of `g`: every node with no outgoing edge.
pub open spec fn frontier_of(g: RiverGraph) -> Seq<usize> {
    frontier_upto(g, g.spec_nodes().len() as int)
}

/// No point within one edge length of any node of `g` is admissible with
/// respect to the contour, the cached edge segments and the margin of `s`:
/// the network has no room to grow anywhere.
pub open spec fn nowhere_to_grow(
    g: RiverGraph,
    contour: Seq<Point2>,
    cache: Seq<(Point2, Point2)>,
    s: RiverGenSettings,
) -> bool {
    forall|q: Point2|
        (exists|i: int|
            0 <= i < g.spec_nodes().len() && dist2(shadow(#[trigger] g.spec_nodes()[i].pos), q)
                <= s.edge_length * s.edge_length) ==> !#[trigger] point_admissible(
            contour,
            cache,
            s.edge_margin as int,
            q,
        )
}

/// Elevation of the `j`-th frontier tip.
pub open spec fn tip_z(nodes: Seq<RiverNode>, cands: Seq<usize>, j: int) -> int {
    nodes[cands[j] as int].pos.z as int
}

/// Branching priority of the `j`-th frontier tip.
pub open spec fn tip_priority(nodes: Seq<RiverNode>, cands: Seq<usize>, j: int) -> int {
    nodes[cands[j] as int].priority as int
}

/// Least elevation among the first `n` frontier tips.
pub open spec fn frontier_min_z(nodes: Seq<RiverNode>, cands: Seq<usize>, n: int) -> int
    decreases n,
{
    if n <= 1 {
        tip_z(nodes, cands, 0)
    } else {
        let rest = frontier_min_z(nodes, cands, n - 1);
        if tip_z(nodes, cands, n - 1) < rest {
            tip_z(nodes, cands, n - 1)
        } else {
            rest
        }
    }
}

/// Is the `j`-th tip inside the selection band: no higher than the lowest
/// tip plus the configured height range?
pub open spec fn tip_in_band(
    nodes: Seq<RiverNode>,
    cands: Seq<usize>,
    s: RiverGenSettings,
    j: int,
) -> bool {
    tip_z(nodes, cands, j) <= frontier_min_z(nodes, cands, cands.len() as int) + s.height_range
}

/// The elevation step from `parent` up to `child` stays strictly below the
/// micro-unit slope `s` times the spatial distance of the step.
pub open spec fn lipschitz_step(parent: Point3, child: Point3, s: int) -> bool {
    let dz = child.z - parent.z;
    let d3 = dist2(shadow(parent), shadow(child)) + dz * dz;
    &&& 0 <= dz
    &&& (dz * UNIT) * (dz * UNIT) < s * s * d3
}

/// The elevation offset drawn in point synthesis satisfies the Lipschitz
/// bound: `dz * dz <= t` together with the division bound on `t` pushes
/// `(dz * UNIT)^2` strictly below `s^2` times the squared spatial distance.
pub proof fn lemma_elevation_bound(dz: int, s: int, dxy2: int, t: int)
    by (nonlinear_arith)
    requires
        0 <= dz,
        SLOPE_MIN <= s <= SLOPE_MIN + SLOPE_SPAN,
        1 <= dxy2,
        dz * dz <= t,
        t * (UNIT * UNIT - s * s) <= s * s * dxy2 - 1,
    ensures
        (dz * UNIT) * (dz * UNIT) < s * s * (dxy2 + dz * dz),
{
}

/// The read-only context of a growth run: the contour, the settings and
/// the slope field.  Everything the engine computes is a function of this
/// context and of the mutable growth state.
pub struct GrowCtx<SM: SlopeMap> {
    pub contour: Seq<Point2>,
    pub settings: RiverGenSettings,
    pub slope: SM,
}

/// The mutable state of a growth run, at the specification level: the
/// graph's nodes and edges, the cached planar segments, the frontier and
/// the randomness state.
#[verifier::ext_equal]
pub struct GrowState {
    pub nodes: Seq<RiverNode>,
    pub edges: Seq<(usize, usize)>,
    pub cache: Seq<(Point2, Point2)>,
    pub cands: Seq<usize>,
    pub rng: u64,
}

/// What point synthesis computes, at the specification level: a pure
/// function of the context, the cached segments, the parent node, the
/// randomness state and the remaining attempts.  Yields the synthesized
/// position, if any, together with the randomness state after the draws;
/// [`RiverGen::gen_point`] returns exactly this.
#[verifier::opaque]
pub open spec fn spec_gen_point<SM: SlopeMap>(
    ctx: GrowCtx<SM>,
    cache: Seq<(Point2, Point2)>,
    parent: RiverNode,
    state: u64,
    fuel: nat,
) -> (Option<Point3>, u64)
    decreases fuel,
{
    if fuel == 0 {
        (None::<Point3>, state)
    } else {
        let s1 = spec_wrap_add(state, GAMMA);
        let a = ((spec_mix(s1) as int) % (UNIT as int)) as u64;
        let d = spec_dir_step(a, ctx.settings.edge_length);
        let x = parent.pos.x + d.0;
        let y = parent.pos.y + d.1;
        let q = Point2 { x: x as i64, y: y as i64 };
        if !point_admissible(ctx.contour, cache, ctx.settings.edge_margin as int, q) {
            spec_gen_point(ctx, cache, parent, s1, (fuel - 1) as nat)
        } else if x < -WORLD_LIMIT || x > WORLD_LIMIT || y < -WORLD_LIMIT || y > WORLD_LIMIT {
            spec_gen_point(ctx, cache, parent, s1, (fuel - 1) as nat)
        } else {
            let v = ctx.slope.sample_at(q);
            let sl = SLOPE_MIN + ((v as int) * (SLOPE_SPAN as int)) / (UNIT as int);
            let dxy2 = (d.0 as int) * (d.0 as int) + (d.1 as int) * (d.1 as int);
            if dxy2 == 0 {
                spec_gen_point(ctx, cache, parent, s1, (fuel - 1) as nat)
            } else {
                let k = sl * sl * dxy2;
                let den = (UNIT as int) * (UNIT as int) - sl * sl;
                let t = (k - 1) / den;
                let dz_max = spec_isqrt(t as u64);
                let s2 = spec_wrap_add(s1, GAMMA);
                let dz = (spec_mix(s2) as int) % (dz_max + 1);
                let z = parent.pos.z + dz;
                if z > HEIGHT_LIMIT {
                    spec_gen_point(ctx, cache, parent, s2, (fuel - 1) as nat)
                } else {
                    (Some(Point3 { x: x as i64, y: y as i64, z: z as i64 }), s2)
                }
            }
        }
    }
}

/// The frontier position the selection policy picks among the first `n`:
/// the position of the highest-priority tip inside the elevation band, the
/// earliest such position on ties.
pub open spec fn select_upto(
    nodes: Seq<RiverNode>,
    cands: Seq<usize>,
    s: RiverGenSettings,
    n: int,
) -> Option<int>
    decreases n,
{
    if n <= 0 {
        None
    } else {
        let prev = select_upto(nodes, cands, s, n - 1);
        if !tip_in_band(nodes, cands, s, n - 1) {
            prev
        } else {
            match prev {
                None => Some(n - 1),
                Some(b) => if tip_priority(nodes, cands, n - 1) > tip_priority(nodes, cands, b) {
                    Some(n - 1)
                } else {
                    prev
                },
            }
        }
    }
}

/// What the selection policy guarantees of its pick: it lies in the band,
/// no tip in the band has a higher priority, and every earlier tip in the
/// band has a strictly lower one.
pub proof fn lemma_select_upto_props(
    nodes: Seq<RiverNode>,
    cands: Seq<usize>,
    s: RiverGenSettings,
    n: int,
)
    ensures
        match select_upto(nodes, cands, s, n) {
            None => forall|k: int| 0 <= k < n ==> !tip_in_band(nodes, cands, s, k),
            Some(b) => {
                &&& 0 <= b < n
                &&& tip_in_band(nodes, cands, s, b)
                &&& forall|k: int|
                    0 <= k < n && tip_in_band(nodes, cands, s, k) ==> tip_priority(nodes, cands, k)
                        <= tip_priority(nodes, cands, b)
                &&& forall|k: int|
                    0 <= k < b && tip_in_band(nodes, cands, s, k) ==> tip_priority(nodes, cands, k)
                        < tip_priority(nodes, cands, b)
            },
        },
    decreases n,
{
    if n > 0 {
        lemma_select_upto_props(nodes, cands, s, n - 1);
    }
}

/// The properties [`RiverGen::next_node`] establishes determine the pick:
/// any position with them is the one the selection policy computes.
pub proof fn lemma_selection_unique(
    nodes: Seq<RiverNode>,
    cands: Seq<usize>,
    s: RiverGenSettings,
    pos: int,
)
    requires
        0 <= pos < cands.len(),
        tip_in_band(nodes, cands, s, pos),
        forall|j: int|
            0 <= j < cands.len() && tip_in_band(nodes, cands, s, j) ==> tip_priority(
                nodes,
                cands,
                j,
            ) <= tip_priority(nodes, cands, pos),
        forall|j: int|
            0 <= j < pos && tip_in_band(nodes, cands, s, j) ==> tip_priority(nodes, cands, j)
                < tip_priority(nodes, cands, pos),
    ensures
        select_upto(nodes, cands, s, cands.len() as int) == Some(pos),
{
    lemma_select_upto_props(nodes, cands, s, cands.len() as int);
    match select_upto(nodes, cands, s, cands.len() as int) {
        None => {
            assert(!tip_in_band(nodes, cands, s, pos));
        },
        Some(b) => {
            if b < pos {
                assert(tip_priority(nodes, cands, b) < tip_priority(nodes, cands, pos));
                assert(tip_priority(nodes, cands, pos) <= tip_priority(nodes, cands, b));
            } else if pos < b {
                assert(tip_priority(nodes, cands, pos) < tip_priority(nodes, cands, b));
                assert(tip_priority(nodes, cands, b) <= tip_priority(nodes, cands, pos));
            }
        },
    }
}

/// One growth attempt applied to the model: what [`RiverGen::try_grow`]
/// does to the engine state.
pub open spec fn step_try<SM: SlopeMap>(
    ctx: GrowCtx<SM>,
    m: GrowState,
    parent_idx: usize,
    child_priority: u32,
) -> GrowState {
    if m.nodes.len() >= NODE_CAP {
        m
    } else {
        let out = spec_gen_point(
            ctx,
            m.cache,
            m.nodes[parent_idx as int],
            m.rng,
            POINT_ATTEMPTS as nat,
        );
        match out.0 {
            None => GrowState { rng: out.1, ..m },
            Some(p) => GrowState {
                nodes: m.nodes.push(RiverNode { pos: p, priority: child_priority }),
                edges: m.edges.push((parent_idx, m.nodes.len() as usize)),
                cache: m.cache.push((shadow(m.nodes[parent_idx as int].pos), shadow(p))),
                cands: m.cands.push(m.nodes.len() as usize),
                rng: out.1,
            },
        }
    }
}

/// A growth attempt against a full arena leaves the model unchanged.
pub proof fn lemma_step_try_full<SM: SlopeMap>(
    ctx: GrowCtx<SM>,
    m: GrowState,
    parent_idx: usize,
    child_priority: u32,
)
    requires
        m.nodes.len() >= NODE_CAP,
    ensures
        step_try(ctx, m, parent_idx, child_priority) == m,
{
}

/// A growth attempt whose synthesis fails advances only the randomness
/// state.
pub proof fn lemma_step_try_none<SM: SlopeMap>(
    ctx: GrowCtx<SM>,
    m: GrowState,
    m1: GrowState,
    parent_idx: usize,
    child_priority: u32,
)
    requires
        m.nodes.len() < NODE_CAP,
        spec_gen_point(ctx, m.cache, m.nodes[parent_idx as int], m.rng, POINT_ATTEMPTS as nat).0
            is None,
        m1.nodes == m.nodes,
        m1.edges == m.edges,
        m1.cache == m.cache,
        m1.cands == m.cands,
        m1.rng == spec_gen_point(
            ctx,
            m.cache,
            m.nodes[parent_idx as int],
            m.rng,
            POINT_ATTEMPTS as nat,
        ).1,
    ensures
        step_try(ctx, m, parent_idx, child_priority) == m1,
{
    assert(step_try(ctx, m, parent_idx, child_priority) =~= m1);
}

/// A growth attempt whose synthesis succeeds appends the child node, its
/// edge, its cached segment and its frontier entry.
pub proof fn lemma_step_try_some<SM: SlopeMap>(
    ctx: GrowCtx<SM>,
    m: GrowState,
    m1: GrowState,
    parent_idx: usize,
    child_priority: u32,
    p: Point3,
)
    requires
        m.nodes.len() < NODE_CAP,
        spec_gen_point(ctx, m.cache, m.nodes[parent_idx as int], m.rng, POINT_ATTEMPTS as nat).0
            == Some(p),
        m1.nodes == m.nodes.push(RiverNode { pos: p, priority: child_priority }),
        m1.edges == m.edges.push((parent_idx, m.nodes.len() as usize)),
        m1.cache == m.cache.push((shadow(m.nodes[parent_idx as int].pos), shadow(p))),
        m1.cands == m.cands.push(m.nodes.len() as usize),
        m1.rng == spec_gen_point(
            ctx,
            m.cache,
            m.nodes[parent_idx as int],
            m.rng,
            POINT_ATTEMPTS as nat,
        ).1,
    ensures
        step_try(ctx, m, parent_idx, child_priority) == m1,
{
    assert(step_try(ctx, m, parent_idx, child_priority) =~= m1);
}

/// One iteration of the growth loop applied to the model: select a tip,
/// remove it from the frontier, decide the branching action, and attempt
/// one or two children.  A state with an empty frontier is left unchanged.
pub open spec fn grow_step<SM: SlopeMap>(ctx: GrowCtx<SM>, m: GrowState) -> GrowState {
    if m.cands.len() == 0 {
        m
    } else {
        match select_upto(m.nodes, m.cands, ctx.settings, m.cands.len() as int) {
            None => m,
            Some(pos) => {
                let node_idx = m.cands[pos];
                let m1 = GrowState { cands: m.cands.update(pos, m.cands.last()).drop_last(), ..m };
                let priority = m.nodes[node_idx as int].priority;
                if priority <= 1 {
                    step_try(ctx, m1, node_idx, priority)
                } else {
                    let s1 = spec_wrap_add(m1.rng, GAMMA);
                    let draw = ((spec_mix(s1) as int) % (UNIT as int)) as u64;
                    let m2 = GrowState { rng: s1, ..m1 };
                    if draw < ctx.settings.prob_growth {
                        step_try(ctx, m2, node_idx, priority)
                    } else if draw < ctx.settings.prob_growth + ctx.settings.prob_symmetric {
                        step_try(
                            ctx,
                            step_try(ctx, m2, node_idx, (priority - 1) as u32),
                            node_idx,
                            (priority - 1) as u32,
                        )
                    } else {
                        let s2 = spec_wrap_add(s1, GAMMA);
                        let pr = (1 + (spec_mix(s2) as int) % (priority - 1)) as u32;
                        let m3 = GrowState { rng: s2, ..m2 };
                        step_try(ctx, step_try(ctx, m3, node_idx, priority), node_idx, pr)
                    }
                }
            },
        }
    }
}

/// The growth loop as an iterated function of the model.
pub open spec fn grow_iter<SM: SlopeMap>(ctx: GrowCtx<SM>, m: GrowState, n: nat) -> GrowState
    decreases n,
{
    if n == 0 {
        m
    } else {
        grow_step(ctx, grow_iter(ctx, m, (n - 1) as nat))
    }
}

/// A model whose frontier is empty is a fixed point of the growth step.
pub proof fn lemma_grow_step_fixed<SM: SlopeMap>(ctx: GrowCtx<SM>, m: GrowState)
    requires
        m.cands.len() == 0,
    ensures
        grow_step(ctx, m) == m,
{
}

/// Once the frontier is exhausted, further iteration changes nothing.
pub proof fn lemma_grow_iter_stable<SM: SlopeMap>(ctx: GrowCtx<SM>, m: GrowState, n1: nat, n2: nat)
    requires
        n1 <= n2,
        grow_iter(ctx, m, n1).cands.len() == 0,
    ensures
        grow_iter(ctx, m, n2) == grow_iter(ctx, m, n1),
    decreases n2,
{
    if n1 < n2 {
        lemma_grow_iter_stable(ctx, m, n1, (n2 - 1) as nat);
        lemma_grow_step_fixed(ctx, grow_iter(ctx, m, (n2 - 1) as nat));
    }
}

/// Determinism of growth: two runs over the same contour, settings, slope
/// field, seed state and randomness state end in the same state, whenever
/// both ran until their frontier was exhausted.  Together with
/// [`RiverGen::grow_network`]'s contract — its result is some iterate of
/// [`grow_step`] with an empty frontier — two engines constructed alike
/// produce identical networks.
pub proof fn lemma_growth_deterministic<SM: SlopeMap>(
    ctx: GrowCtx<SM>,
    m: GrowState,
    r1: GrowState,
    r2: GrowState,
    n1: nat,
    n2: nat,
)
    requires
        r1 == grow_iter(ctx, m, n1),
        r2 == grow_iter(ctx, m, n2),
        r1.cands.len() == 0,
        r2.cands.len() == 0,
    ensures
        r1 == r2,
{
    if n1 <= n2 {
        lemma_grow_iter_stable(ctx, m, n1, n2);
    } else {
        lemma_grow_iter_stable(ctx, m, n2, n1);
    }
}

/// Edge `k` of `g` was created by growth: it runs from a lower index to a
/// higher one, does not descend, and does not raise the priority.
pub open spec fn grown_edge_ok(g: RiverGraph, k: int) -> bool {
    let e = g.spec_edges()[k];
    &&& (e.0 as int) < (e.1 as int)
    &&& g.spec_nodes()[e.1 as int].pos.z >= g.spec_nodes()[e.0 as int].pos.z
    &&& g.spec_nodes()[e.1 as int].priority <= g.spec_nodes()[e.0 as int].priority
}

/// How much room the node arena still has, clamped at zero; the growth
/// loop's termination measure.
pub open spec fn spec_room(g: RiverGraph) -> int {
    if g.spec_nodes().len() <= NODE_CAP {
        NODE_CAP - g.spec_nodes().len()
    } else {
        0
    }
}

/// The river growth engine.
pub struct RiverGen<SM: SlopeMap> {
    rng: RiverRng,
    slope_map: SM,
    contour: Vec<Point2>,
    /// The river network grown so far.
    pub graph: RiverGraph,
    candidates: Vec<usize>,
    edges: Vec<(Point2, Point2)>,
    settings: RiverGenSettings,
}

impl<SM: SlopeMap> RiverGen<SM> {
    /// The graph, at the specification level.
    pub closed spec fn spec_graph(&self) -> RiverGraph {
        self.graph
    }

    /// The growth settings.
    pub closed spec fn spec_settings(&self) -> RiverGenSettings {
        self.settings
    }

    /// The contour polygon.
    pub closed spec fn spec_contour(&self) -> Seq<Point2> {
        self.contour@
    }

    /// The frontier: identifiers of the growable tips.
    pub closed spec fn spec_candidates(&self) -> Seq<usize> {
        self.candidates@
    }

    /// The cached planar segments of the graph's edges.
    pub closed spec fn spec_cache(&self) -> Seq<(Point2, Point2)> {
        self.edges@
    }

    /// The slope field.
    pub closed spec fn spec_slope_map(&self) -> SM {
        self.slope_map
    }

    /// The state of the randomness source.
    pub closed spec fn spec_rng_state(&self) -> u64 {
        self.rng.spec_state()
    }

    /// The read-only context of this engine's growth run.
    pub open spec fn grow_ctx(&self) -> GrowCtx<SM> {
        GrowCtx {
            contour: self.spec_contour(),
            settings: self.spec_settings(),
            slope: self.spec_slope_map(),
        }
    }

    /// The engine's mutable growth state, at the specification level.
    pub open spec fn grow_model(&self) -> GrowState {
        GrowState {
            nodes: self.spec_graph().spec_nodes(),
            edges: self.spec_graph().spec_edges(),
            cache: self.spec_cache(),
            cands: self.spec_candidates(),
            rng: self.spec_rng_state(),
        }
    }

    /// The engine invariant: valid settings, a well-formed graph and slope
    /// field, a world-bounded contour with at least three vertices, a
    /// segment cache that mirrors the graph's edge list, and frontier
    /// entries that name existing nodes.
    pub closed spec fn wf(&self) -> bool {
        &&& self.settings.valid()
        &&& self.slope_map.wf()
        &&& self.graph.wf()
        &&& self.contour@.len() >= 3
        &&& all_in_world(self.contour@)
        &&& self.edges@.len() == self.graph.spec_edges().len()
        &&& forall|k: int| 0 <= k < self.edges@.len()
            ==> #[trigger] self.edges@[k] == edge_segment(self.graph, k)
        &&& forall|k: int| 0 <= k < self.candidates@.len()
            ==> (#[trigger] self.candidates@[k]) < self.graph.spec_nodes().len()
    }

    /// An engine over a seed graph.  The frontier is seeded with every node
    /// that has no outgoing edge, and the segment cache is rebuilt from the
    /// graph's edges.
    pub fn new(
        rng: RiverRng,
        slope_map: SM,
        contour: Vec<Point2>,
        graph: RiverGraph,
        settings: RiverGenSettings,
    ) -> (r: RiverGen<SM>)
        requires
            settings.valid(),
            slope_map.wf(),
            graph.wf(),
            contour@.len() >= 3,
            all_in_world(contour@),
        ensures
            r.wf(),
            r.spec_graph().spec_nodes() == graph.spec_nodes(),
            r.spec_graph().spec_edges() == graph.spec_edges(),
            r.spec_settings() == settings,
            r.spec_contour() == contour@,
            r.spec_candidates() == frontier_of(graph),
            r.spec_cache().len() == graph.spec_edges().len(),
            forall|k: int| 0 <= k < graph.spec_edges().len()
                ==> #[trigger] r.spec_cache()[k] == edge_segment(graph, k),
            r.spec_slope_map() == slope_map,
            r.spec_rng_state() == rng.spec_state(),
    {
        let n = graph.node_count();
        let mut candidates: Vec<usize> = Vec::new();
        let mut i: usize = 0;
        while i < n
            invariant
                i <= n,
                n == graph.spec_nodes().len(),
                graph.wf(),
                candidates@ == frontier_upto(graph, i as int),
                forall|k: int| 0 <= k < candidates@.len()
                    ==> (#[trigger] candidates@[k]) < graph.spec_nodes().len(),
            decreases n - i,
        {
            if !graph.has_outgoing(i) {
                candidates.push(i);
            }
            i = i + 1;
        }

        let m = graph.edge_count();
        let mut segs: Vec<(Point2, Point2)> = Vec::new();
        let mut k: usize = 0;
        while k < m
            invariant
                k <= m,
                m == graph.spec_edges().len(),
                graph.wf(),
                segs@.len() == k,
                forall|j: int| 0 <= j < k ==> #[trigger] segs@[j] == edge_segment(graph, j),
            decreases m - k,
        {
            proof {
                graph.wf_facts();
            }
            let e = graph.get_edge(k);
            let a = graph.get_node(e.0);
            let b = graph.get_node(e.1);
            segs.push(
                (Point2 { x: a.pos.x, y: a.pos.y }, Point2 { x: b.pos.x, y: b.pos.y }),
            );
            k = k + 1;
        }

        RiverGen { rng, slope_map, contour, graph, candidates, edges: segs, settings }
    }

    /// A planar point may host a new node when it lies inside the contour
    /// and keeps the configured margin from the contour and from every
    /// existing edge.
    pub fn validate_point(&self, point: Point2) -> (r: bool)
        requires
            self.wf(),
            in_query_range(point),
        ensures
            r == point_admissible(
                self.spec_contour(),
                self.spec_cache(),
                self.spec_settings().edge_margin as int,
                point,
            ),
    {
        proof {
            self.graph.wf_facts();
            assert forall|k: int| 0 <= k < self.edges@.len() implies in_world_xy(
                (#[trigger] self.edges@[k]).0,
            ) && in_world_xy(self.edges@[k].1) by {
                assert(self.edges@[k] == edge_segment(self.graph, k));
            }
        }
        let inside = pnpoly(&self.contour, point);
        let clear_contour = contour_clear_of(&self.contour, point, self.settings.edge_margin);
        let clear_edges = segments_clear_of(&self.edges, point, self.settings.edge_margin);
        inside && clear_contour && clear_edges
    }

    /// Select the position (in the frontier list) of the next tip to
    /// expand: among the tips whose elevation lies within `height_range` of
    /// the lowest tip, the one with the highest priority; ties go to the
    /// earliest such tip in the list.
    fn next_node(&self) -> (r: Option<usize>)
        requires
            self.wf(),
        ensures
            match r {
                None => self.spec_candidates().len() == 0,
                Some(pos) => {
                    &&& (pos as int) < self.spec_candidates().len()
                    &&& tip_in_band(
                        self.spec_graph().spec_nodes(),
                        self.spec_candidates(),
                        self.spec_settings(),
                        pos as int,
                    )
                    &&& forall|j: int|
                        0 <= j < self.spec_candidates().len() && tip_in_band(
                            self.spec_graph().spec_nodes(),
                            self.spec_candidates(),
                            self.spec_settings(),
                            j,
                        ) ==> tip_priority(self.spec_graph().spec_nodes(), self.spec_candidates(), j)
                            <= tip_priority(self.spec_graph().spec_nodes(), self.spec_candidates(), pos as int)
                    &&& forall|j: int|
                        0 <= j < pos as int && tip_in_band(
                            self.spec_graph().spec_nodes(),
                            self.spec_candidates(),
                            self.spec_settings(),
                            j,
                        ) ==> tip_priority(self.spec_graph().spec_nodes(), self.spec_candidates(), j)
                            < tip_priority(self.spec_graph().spec_nodes(), self.spec_candidates(), pos as int)
                },
            },
    {
        let n = self.candidates.len();
        if n == 0 {
            return None;
        }
        proof {
            self.graph.wf_facts();
        }
        let mut minz: i64 = self.graph.get_node(self.candidates[0]).pos.z;
        let mut mini: usize = 0;
        let mut i: usize = 1;
        while i < n
            invariant
                1 <= i <= n,
                n == self.spec_candidates().len(),
                self.wf(),
                mini < i,
                minz as int == frontier_min_z(self.spec_graph().spec_nodes(), self.spec_candidates(), i as int),
                minz as int == tip_z(self.spec_graph().spec_nodes(), self.spec_candidates(), mini as int),
            decreases n - i,
        {
            proof {
                self.graph.wf_facts();
            }
            let z = self.graph.get_node(self.candidates[i]).pos.z;
            if z < minz {
                minz = z;
                mini = i;
            }
            i = i + 1;
        }
        proof {
            self.graph.wf_facts();
        }
        let limit: i64 = minz + self.settings.height_range;
        let mut best: Option<usize> = None;
        let mut j: usize = 0;
        while j < n
            invariant
                j <= n,
                n == self.spec_candidates().len(),
                n >= 1,
                self.wf(),
                limit as int == frontier_min_z(self.spec_graph().spec_nodes(), self.spec_candidates(), n as int)
                    + self.spec_settings().height_range,
                match best {
                    None => forall|k: int|
                        0 <= k < j ==> !tip_in_band(
                            self.spec_graph().spec_nodes(),
                            self.spec_candidates(),
                            self.spec_settings(),
                            k,
                        ),
                    Some(b) => {
                        &&& (b as int) < j
                        &&& tip_in_band(
                            self.spec_graph().spec_nodes(),
                            self.spec_candidates(),
                            self.spec_settings(),
                            b as int,
                        )
                        &&& forall|k: int|
                            0 <= k < j && tip_in_band(
                                self.spec_graph().spec_nodes(),
                                self.spec_candidates(),
                                self.spec_settings(),
                                k,
                            ) ==> tip_priority(self.spec_graph().spec_nodes(), self.spec_candidates(), k)
                                <= tip_priority(self.spec_graph().spec_nodes(), self.spec_candidates(), b as int)
                        &&& forall|k: int|
                            0 <= k < b as int && tip_in_band(
                                self.spec_graph().spec_nodes(),
                                self.spec_candidates(),
                                self.spec_settings(),
                                k,
                            ) ==> tip_priority(self.spec_graph().spec_nodes(), self.spec_candidates(), k)
                                < tip_priority(self.spec_graph().spec_nodes(), self.spec_candidates(), b as int)
                    },
                },
                minz as int == tip_z(self.spec_graph().spec_nodes(), self.spec_candidates(), mini as int),
                mini < n,
                minz <= limit,
            decreases n - j,
        {
            proof {
                self.graph.wf_facts();
            }
            let z = self.graph.get_node(self.candidates[j]).pos.z;
            if z <= limit {
                match best {
                    None => {
                        best = Some(j);
                    },
                    Some(b) => {
                        let pj = self.graph.get_node(self.candidates[j]).priority;
                        let pb = self.graph.get_node(self.candidates[b]).priority;
                        if pj > pb {
                            best = Some(j);
                        }
                    },
                }
            }
            j = j + 1;
        }
        proof {
            if best is None {
                assert(!tip_in_band(
                    self.spec_graph().spec_nodes(),
                    self.spec_candidates(),
                    self.spec_settings(),
                    mini as int,
                ));
            }
        }
        best
    }

    /// Synthesize a child position for the tip `parent_idx` by rejection
    /// sampling: draw an angle, step one edge length from the parent, reject
    /// candidates that fail [`Self::validate_point`], and draw an elevation
    /// offset bounded by the sampled slope's Lipschitz limit.  Gives up
    /// after [`POINT_ATTEMPTS`] failed draws.
    pub fn gen_point(&mut self, parent_idx: usize) -> (r: Option<Point3>)
        requires
            old(self).wf(),
            (parent_idx as int) < old(self).spec_graph().spec_nodes().len(),
        ensures
            final(self).wf(),
            final(self).spec_graph() == old(self).spec_graph(),
            final(self).spec_candidates() == old(self).spec_candidates(),
            final(self).spec_cache() == old(self).spec_cache(),
            final(self).spec_contour() == old(self).spec_contour(),
            final(self).spec_settings() == old(self).spec_settings(),
            final(self).spec_slope_map() == old(self).spec_slope_map(),
            match r {
                None => true,
                Some(p) => {
                    let parent = old(self).spec_graph().spec_nodes()[parent_idx as int];
                    &&& in_world_pos(p)
                    &&& point_admissible(
                        old(self).spec_contour(),
                        old(self).spec_cache(),
                        old(self).spec_settings().edge_margin as int,
                        shadow(p),
                    )
                    &&& dist2(shadow(parent.pos), shadow(p)) <= old(self).spec_settings().edge_length
                        * old(self).spec_settings().edge_length
                    &&& parent.pos.z <= p.z
                    &&& exists|s: int|
                        SLOPE_MIN <= s <= SLOPE_MIN + SLOPE_SPAN && #[trigger] lipschitz_step(
                            parent.pos,
                            p,
                            s,
                        )
                },
            },
            (r, final(self).spec_rng_state()) == spec_gen_point(
                old(self).grow_ctx(),
                old(self).spec_cache(),
                old(self).spec_graph().spec_nodes()[parent_idx as int],
                old(self).spec_rng_state(),
                POINT_ATTEMPTS as nat,
            ),
    {
        proof {
            self.graph.wf_facts();
        }
        let parent = self.graph.get_node(parent_idx);
        let len = self.settings.edge_length;
        let mut attempt: u64 = 0;
        while attempt < POINT_ATTEMPTS
            invariant
                self.wf(),
                self.spec_graph() == old(self).spec_graph(),
                self.spec_candidates() == old(self).spec_candidates(),
                self.spec_cache() == old(self).spec_cache(),
                self.spec_contour() == old(self).spec_contour(),
                self.spec_settings() == old(self).spec_settings(),
                self.spec_slope_map() == old(self).spec_slope_map(),
                (parent_idx as int) < self.spec_graph().spec_nodes().len(),
                parent == self.spec_graph().spec_nodes()[parent_idx as int],
                in_world_pos(parent.pos),
                len == self.spec_settings().edge_length,
                attempt <= POINT_ATTEMPTS,
                parent == old(self).spec_graph().spec_nodes()[parent_idx as int],
                spec_gen_point(
                    old(self).grow_ctx(),
                    old(self).spec_cache(),
                    parent,
                    old(self).spec_rng_state(),
                    POINT_ATTEMPTS as nat,
                ) == spec_gen_point(
                    old(self).grow_ctx(),
                    old(self).spec_cache(),
                    parent,
                    self.spec_rng_state(),
                    (POINT_ATTEMPTS - attempt) as nat,
                ),
            decreases POINT_ATTEMPTS - attempt,
        {
            let ghost state_head = self.spec_rng_state();
            let ghost fuel_head = (POINT_ATTEMPTS - attempt) as nat;
            attempt = attempt + 1;
            let a = self.rng.next_unit();
            let (dx, dy) = dir_step(a, len);
            let x = parent.pos.x + dx;
            let y = parent.pos.y + dy;
            let q = Point2 { x, y };
            if !self.validate_point(q) {
                proof {
                    reveal_with_fuel(spec_gen_point, 1);
                    assert(spec_gen_point(
                        old(self).grow_ctx(),
                        old(self).spec_cache(),
                        parent,
                        state_head,
                        fuel_head,
                    ) == spec_gen_point(
                        old(self).grow_ctx(),
                        old(self).spec_cache(),
                        parent,
                        self.spec_rng_state(),
                        (fuel_head - 1) as nat,
                    ));
                }
                continue;
            }
            if x < -WORLD_LIMIT || x > WORLD_LIMIT || y < -WORLD_LIMIT || y > WORLD_LIMIT {
                proof {
                    reveal_with_fuel(spec_gen_point, 1);
                    assert(spec_gen_point(
                        old(self).grow_ctx(),
                        old(self).spec_cache(),
                        parent,
                        state_head,
                        fuel_head,
                    ) == spec_gen_point(
                        old(self).grow_ctx(),
                        old(self).spec_cache(),
                        parent,
                        self.spec_rng_state(),
                        (fuel_head - 1) as nat,
                    ));
                }
                continue;
            }
            let v = self.slope_map.sample(q);
            proof {
                assert(v * SLOPE_SPAN <= UNIT * SLOPE_SPAN) by (nonlinear_arith)
                    requires
                        0 <= (v as int) <= (UNIT as int),
                ;
                assert((v as int * SLOPE_SPAN as int) / (UNIT as int) <= SLOPE_SPAN as int)
                    by (nonlinear_arith)
                    requires
                        0 <= (v as int) * (SLOPE_SPAN as int) <= (UNIT as int) * (SLOPE_SPAN
                            as int),
                ;
            }
            let s: u64 = SLOPE_MIN + (v * SLOPE_SPAN) / UNIT;
            proof {
                crate::lemma_square_le(dx as int, WORLD_LIMIT as int);
                crate::lemma_square_le(dy as int, WORLD_LIMIT as int);
            }
            let dxy2: i64 = dx * dx + dy * dy;
            if dxy2 == 0 {
                proof {
                    reveal_with_fuel(spec_gen_point, 1);
                    assert(spec_gen_point(
                        old(self).grow_ctx(),
                        old(self).spec_cache(),
                        parent,
                        state_head,
                        fuel_head,
                    ) == spec_gen_point(
                        old(self).grow_ctx(),
                        old(self).spec_cache(),
                        parent,
                        self.spec_rng_state(),
                        (fuel_head - 1) as nat,
                    ));
                }
                continue;
            }
            proof {
                crate::lemma_square_le(s as int, 251_000);
                crate::lemma_mul_le(
                    (s * s) as int,
                    dxy2 as int,
                    63_001_000_000,
                    20_000_000_000_000_000,
                );
                assert((s as int) * (s as int) < (UNIT as int) * (UNIT as int)) by (nonlinear_arith)
                    requires
                        0 <= (s as int) < (UNIT as int),
                ;
                assert(1 <= (s as int) * (s as int) * (dxy2 as int)) by (nonlinear_arith)
                    requires
                        1 <= (s as int),
                        1 <= (dxy2 as int),
                ;
            }
            let k: u128 = (s as u128) * (s as u128) * (dxy2 as u128);
            let d: u128 = (UNIT as u128) * (UNIT as u128) - (s as u128) * (s as u128);
            let t: u128 = (k - 1) / d;
            proof {
                vstd::arithmetic::div_mod::lemma_fundamental_div_mod((k - 1) as int, d as int);
                assert((t as int) * (d as int) <= (k - 1) as int) by (nonlinear_arith)
                    requires
                        (k - 1) as int == (d as int) * (t as int) + ((k - 1) as int % (d as int)),
                        0 <= (k - 1) as int % (d as int),
                ;
                assert(t < 0x1_0000_0000_0000_0000) by (nonlinear_arith)
                    requires
                        (t as int) * (d as int) <= (k - 1) as int,
                        ((k - 1) as int) < 1_300_000_000_000_000_000_000_000_000,
                        (d as int) >= 936_999_000_000,
                        0 <= t,
                ;
            }
            let lim: u64 = t as u64;
            let dz_max = isqrt64(lim);
            proof {
                assert((lim as int) < 1_600_000_000_000_000) by (nonlinear_arith)
                    requires
                        (lim as int) * (d as int) <= (k - 1) as int,
                        ((k - 1) as int) < 1_300_000_000_000_000_000_000_000_000,
                        (d as int) >= 936_999_000_000,
                        0 <= lim as int,
                ;
                assert(dz_max <= 40_000_000) by (nonlinear_arith)
                    requires
                        (dz_max as int) * (dz_max as int) <= lim as int,
                        (lim as int) < 1_600_000_000_000_000,
                        0 <= dz_max,
                ;
            }
            let dz = self.rng.next_range(0, dz_max + 1);
            let z = parent.pos.z + (dz as i64);
            if z > HEIGHT_LIMIT {
                proof {
                    reveal_with_fuel(spec_gen_point, 1);
                    assert(spec_gen_point(
                        old(self).grow_ctx(),
                        old(self).spec_cache(),
                        parent,
                        state_head,
                        fuel_head,
                    ) == spec_gen_point(
                        old(self).grow_ctx(),
                        old(self).spec_cache(),
                        parent,
                        self.spec_rng_state(),
                        (fuel_head - 1) as nat,
                    ));
                }
                continue;
            }
            let p = Point3 { x, y, z };
            proof {
                assert(shadow(p) == q);
                assert((parent.pos.x - p.x) * (parent.pos.x - p.x) == (dx as int) * (dx as int))
                    by (nonlinear_arith)
                    requires
                        (p.x as int) == parent.pos.x + (dx as int),
                ;
                assert((parent.pos.y - p.y) * (parent.pos.y - p.y) == (dy as int) * (dy as int))
                    by (nonlinear_arith)
                    requires
                        (p.y as int) == parent.pos.y + (dy as int),
                ;
                assert(dist2(shadow(parent.pos), shadow(p)) == dx * dx + dy * dy);
                assert((dz as int) * (dz as int) <= t as int) by (nonlinear_arith)
                    requires
                        0 <= (dz as int) <= (dz_max as int),
                        (dz_max as int) * (dz_max as int) <= (t as int),
                ;
                assert((t as int) * ((UNIT as int) * (UNIT as int) - (s as int) * (s as int)) <= (s
                    as int) * (s as int) * (dxy2 as int) - 1) by (nonlinear_arith)
                    requires
                        (t as int) * (d as int) <= (k - 1) as int,
                        (d as int) == (UNIT as int) * (UNIT as int) - (s as int) * (s as int),
                        (k as int) == (s as int) * (s as int) * (dxy2 as int),
                        1 <= k as int,
                ;
                lemma_elevation_bound(dz as int, s as int, dxy2 as int, t as int);
                assert(lipschitz_step(parent.pos, p, s as int));
                reveal_with_fuel(spec_gen_point, 1);
                assert(spec_gen_point(
                    old(self).grow_ctx(),
                    old(self).spec_cache(),
                    parent,
                    state_head,
                    fuel_head,
                ) == (Some(p), self.spec_rng_state()));
            }
            return Some(p);
        }
        proof {
            reveal_with_fuel(spec_gen_point, 1);
            assert(spec_gen_point(
                old(self).grow_ctx(),
                old(self).spec_cache(),
                parent,
                self.spec_rng_state(),
                0,
            ) == (None::<Point3>, self.spec_rng_state()));
        }
        None
    }

    /// Insert `node` as a child of `parent_idx`: the node, the edge, the
    /// cached planar segment and the frontier entry appear together.
    pub fn add_node(&mut self, parent_idx: usize, node: RiverNode) -> (idx: usize)
        requires
            old(self).wf(),
            parent_idx < old(self).spec_graph().spec_nodes().len(),
            in_world_pos(node.pos),
        ensures
            final(self).wf(),
            idx == old(self).spec_graph().spec_nodes().len(),
            final(self).spec_graph().spec_nodes() == old(self).spec_graph().spec_nodes().push(node),
            final(self).spec_graph().spec_edges() == old(self).spec_graph().spec_edges().push(
                (parent_idx, idx),
            ),
            final(self).spec_cache() == old(self).spec_cache().push(
                (
                    shadow(old(self).spec_graph().spec_nodes()[parent_idx as int].pos),
                    shadow(node.pos),
                ),
            ),
            final(self).spec_candidates() == old(self).spec_candidates().push(idx),
            final(self).spec_settings() == old(self).spec_settings(),
            final(self).spec_contour() == old(self).spec_contour(),
            final(self).spec_slope_map() == old(self).spec_slope_map(),
            final(self).spec_rng_state() == old(self).spec_rng_state(),
    {
        let parent = self.graph.get_node(parent_idx);
        let idx = self.graph.add_node(node);
        self.graph.add_edge(parent_idx, idx);
        self.edges.push(
            (Point2 { x: parent.pos.x, y: parent.pos.y }, Point2 { x: node.pos.x, y: node.pos.y }),
        );
        self.candidates.push(idx);
        proof {
            old(self).graph.wf_facts();
            assert forall|k: int| 0 <= k < self.edges@.len() implies #[trigger] self.edges@[k]
                == edge_segment(self.graph, k) by {
                if k < old(self).edges@.len() {
                    assert(old(self).edges@[k] == edge_segment(old(self).graph, k));
                }
            }
        }
        idx
    }

    /// Attempt one child of priority `child_priority` under the tip
    /// `parent_idx`: synthesize a position, and materialize the node if one
    /// was found and the arena has room.  A failed attempt changes nothing
    /// but the randomness source; in particular, where the network has no
    /// room to grow at all, every attempt fails.
    #[verifier::rlimit(100)]
    fn try_grow(&mut self, parent_idx: usize, child_priority: u32)
        requires
            old(self).wf(),
            (parent_idx as int) < old(self).spec_graph().spec_nodes().len(),
            child_priority <= old(self).spec_graph().spec_nodes()[parent_idx as int].priority,
        ensures
            final(self).wf(),
            final(self).spec_settings() == old(self).spec_settings(),
            final(self).spec_contour() == old(self).spec_contour(),
            final(self).spec_slope_map() == old(self).spec_slope_map(),
            ({
                &&& final(self).spec_graph() == old(self).spec_graph()
                &&& final(self).spec_cache() == old(self).spec_cache()
                &&& final(self).spec_candidates() == old(self).spec_candidates()
            } || {
                let old_n = old(self).spec_graph().spec_nodes().len() as int;
                let old_e = old(self).spec_graph().spec_edges().len() as int;
                &&& old_n < NODE_CAP
                &&& final(self).spec_graph().spec_nodes().len() == old_n + 1
                &&& forall|i: int| 0 <= i < old_n
                    ==> final(self).spec_graph().spec_nodes()[i] == old(self).spec_graph().spec_nodes()[i]
                &&& final(self).spec_graph().spec_edges() == old(self).spec_graph().spec_edges().push((parent_idx, old_n as usize))
                &&& final(self).spec_graph().spec_nodes()[old_n].priority == child_priority
                &&& final(self).spec_graph().spec_nodes()[old_n].pos.z >= old(self).spec_graph().spec_nodes()[parent_idx as int].pos.z
                &&& final(self).spec_candidates() == old(self).spec_candidates().push(
                    old_n as usize,
                )
                &&& polygon_contains(
                    old(self).spec_contour(),
                    shadow(final(self).spec_graph().spec_nodes()[old_n].pos),
                )
            }),
            nowhere_to_grow(
                old(self).spec_graph(),
                old(self).spec_contour(),
                old(self).spec_cache(),
                old(self).spec_settings(),
            ) ==> {
                &&& final(self).spec_graph() == old(self).spec_graph()
                &&& final(self).spec_cache() == old(self).spec_cache()
                &&& final(self).spec_candidates() == old(self).spec_candidates()
            },
            old(self).spec_graph().spec_nodes().len()
                <= final(self).spec_graph().spec_nodes().len(),
            forall|i: int| 0 <= i < old(self).spec_graph().spec_nodes().len()
                ==> final(self).spec_graph().spec_nodes()[i] == old(self).spec_graph().spec_nodes()[i],
            old(self).spec_graph().spec_edges().len()
                <= final(self).spec_graph().spec_edges().len(),
            forall|k: int| 0 <= k < old(self).spec_graph().spec_edges().len()
                ==> final(self).spec_graph().spec_edges()[k] == old(self).spec_graph().spec_edges()[k],
            forall|k: int|
                0 <= k < old(self).spec_graph().spec_edges().len() && grown_edge_ok(
                    old(self).spec_graph(),
                    k,
                ) ==> #[trigger] grown_edge_ok(final(self).spec_graph(), k),
            forall|k: int|
                old(self).spec_graph().spec_edges().len() <= k && k < final(self).spec_graph(
                ).spec_edges().len() ==> #[trigger] grown_edge_ok(final(self).spec_graph(), k),
            final(self).grow_model() == step_try(
                old(self).grow_ctx(),
                old(self).grow_model(),
                parent_idx,
                child_priority,
            ),
    {
        if self.graph.node_count() >= NODE_CAP {
            proof {
                lemma_step_try_full(
                    old(self).grow_ctx(),
                    old(self).grow_model(),
                    parent_idx,
                    child_priority,
                );
            }
            return;
        }
        let found = self.gen_point(parent_idx);
        match found {
            None => {
                proof {
                    lemma_step_try_none(
                        old(self).grow_ctx(),
                        old(self).grow_model(),
                        self.grow_model(),
                        parent_idx,
                        child_priority,
                    );
                }
            },
            Some(p) => {
                proof {
                    old(self).graph.wf_facts();
                    if nowhere_to_grow(
                        old(self).spec_graph(),
                        old(self).spec_contour(),
                        old(self).spec_cache(),
                        old(self).spec_settings(),
                    ) {
                        let g = old(self).spec_graph();
                        assert(dist2(shadow(g.spec_nodes()[parent_idx as int].pos), shadow(p))
                            <= old(self).spec_settings().edge_length * old(self).spec_settings().edge_length);
                        assert(point_admissible(
                            old(self).spec_contour(),
                            old(self).spec_cache(),
                            old(self).spec_settings().edge_margin as int,
                            shadow(p),
                        ));
                        assert(false);
                    }
                }
                let node = RiverNode { pos: p, priority: child_priority };
                let idx = self.add_node(parent_idx, node);
                proof {
                    old(self).graph.wf_facts();
                    let og = old(self).spec_graph();
                    let ng = self.spec_graph();
                    let old_e = og.spec_edges().len() as int;
                    assert forall|k: int|
                        0 <= k < old_e && grown_edge_ok(og, k) implies #[trigger] grown_edge_ok(
                        ng,
                        k,
                    ) by {
                        assert(ng.spec_edges()[k] == og.spec_edges()[k]);
                        assert((og.spec_edges()[k].0 as int) < og.spec_nodes().len());
                        assert((og.spec_edges()[k].1 as int) < og.spec_nodes().len());
                    }
                    assert forall|k: int|
                        old_e <= k && k < ng.spec_edges().len() implies #[trigger] grown_edge_ok(
                        ng,
                        k,
                    ) by {
                        assert(k == old_e);
                        assert(ng.spec_edges()[k] == (parent_idx, idx));
                        assert((parent_idx as int) < (idx as int));
                    }
                    lemma_step_try_some(
                        old(self).grow_ctx(),
                        old(self).grow_model(),
                        self.grow_model(),
                        parent_idx,
                        child_priority,
                        p,
                    );
                }
            },
        }
    }

    /// How many growable tips the frontier currently holds.
    pub fn candidate_count(&self) -> (n: usize)
        ensures
            n == self.spec_candidates().len(),
    {
        self.candidates.len()
    }

    /// Grow the network until no tip can be expanded any more: repeatedly
    /// select a tip from the frontier, decide a branching action, and
    /// attempt to synthesize one or two children.  On return the frontier
    /// is empty; the seed nodes and edges are untouched; every added edge
    /// climbs (or keeps) elevation and never raises priority; every added
    /// node lies inside the contour; and a network with no room to grow
    /// comes back exactly as it was seeded.  The whole run is a pure
    /// function of the engine's state: the result is an iterate of
    /// [`grow_step`], so runs from equal states end in equal networks
    /// ([`lemma_growth_deterministic`]).
    pub fn grow_network(&mut self)
        requires
            old(self).wf(),
        ensures
            final(self).wf(),
            final(self).spec_candidates().len() == 0,
            final(self).spec_settings() == old(self).spec_settings(),
            final(self).spec_contour() == old(self).spec_contour(),
            final(self).spec_slope_map() == old(self).spec_slope_map(),
            old(self).spec_graph().spec_nodes().len()
                <= final(self).spec_graph().spec_nodes().len(),
            forall|i: int| 0 <= i < old(self).spec_graph().spec_nodes().len()
                ==> final(self).spec_graph().spec_nodes()[i] == old(self).spec_graph().spec_nodes()[i],
            old(self).spec_graph().spec_edges().len()
                <= final(self).spec_graph().spec_edges().len(),
            forall|k: int| 0 <= k < old(self).spec_graph().spec_edges().len()
                ==> final(self).spec_graph().spec_edges()[k] == old(self).spec_graph().spec_edges()[k],
            forall|k: int|
                old(self).spec_graph().spec_edges().len() <= k && k < final(self).spec_graph().spec_edges().len() ==> #[trigger] grown_edge_ok(
                    final(self).spec_graph(),
                    k,
                ),
            old(self).spec_graph().edges_monotone() ==> final(self).spec_graph().edges_monotone(),
            forall|i: int|
                old(self).spec_graph().spec_nodes().len() <= i && i < final(self).spec_graph(
                ).spec_nodes().len() ==> polygon_contains(
                    final(self).spec_contour(),
                    shadow((#[trigger] final(self).spec_graph().spec_nodes()[i]).pos),
                ),
            nowhere_to_grow(
                old(self).spec_graph(),
                old(self).spec_contour(),
                old(self).spec_cache(),
                old(self).spec_settings(),
            ) ==> final(self).spec_graph() == old(self).spec_graph(),
            exists|n: nat|
                final(self).grow_model() == #[trigger] grow_iter(
                    old(self).grow_ctx(),
                    old(self).grow_model(),
                    n,
                ),
    {
        let ghost mut steps: nat = 0;
        while self.candidates.len() != 0
            invariant
                self.wf(),
                self.spec_settings() == old(self).spec_settings(),
                self.spec_contour() == old(self).spec_contour(),
                self.spec_slope_map() == old(self).spec_slope_map(),
                old(self).spec_graph().spec_nodes().len()
                    <= self.spec_graph().spec_nodes().len(),
                forall|i: int| 0 <= i < old(self).spec_graph().spec_nodes().len()
                    ==> self.spec_graph().spec_nodes()[i] == old(self).spec_graph().spec_nodes()[i],
                old(self).spec_graph().spec_edges().len()
                    <= self.spec_graph().spec_edges().len(),
                forall|k: int| 0 <= k < old(self).spec_graph().spec_edges().len()
                    ==> self.spec_graph().spec_edges()[k] == old(self).spec_graph().spec_edges()[k],
                forall|k: int|
                    old(self).spec_graph().spec_edges().len() <= k && k < self.spec_graph(
                    ).spec_edges().len() ==> #[trigger] grown_edge_ok(self.spec_graph(), k),
                forall|i: int|
                    old(self).spec_graph().spec_nodes().len() <= i && i < self.spec_graph(
                    ).spec_nodes().len() ==> polygon_contains(
                        self.spec_contour(),
                        shadow((#[trigger] self.spec_graph().spec_nodes()[i]).pos),
                    ),
                nowhere_to_grow(
                    old(self).spec_graph(),
                    old(self).spec_contour(),
                    old(self).spec_cache(),
                    old(self).spec_settings(),
                ) ==> self.spec_graph() == old(self).spec_graph() && self.spec_cache() == old(self).spec_cache(),
                self.grow_model() == grow_iter(old(self).grow_ctx(), old(self).grow_model(), steps),
            decreases spec_room(self.spec_graph()), self.spec_candidates().len(),
        {
            let ghost m_head = self.grow_model();
            let picked = self.next_node();
            let pos = match picked {
                Some(pos) => pos,
                // The frontier is non-empty here, so a tip is always selected.
                None => {
                    proof {
                        assert(false);
                    }
                    0
                },
            };
            let node_idx = self.candidates[pos];
            self.candidates.swap_remove(pos);
            proof {
                assert forall|k: int| 0 <= k < self.candidates@.len() implies (
                #[trigger] self.candidates@[k]) < self.graph.spec_nodes().len() by {
                }
            }
            let priority = self.graph.get_node(node_idx).priority;
            if priority <= 1 {
                self.try_grow(node_idx, priority);
            } else {
                let draw = self.rng.next_unit();
                let pg = self.settings.prob_growth;
                let ps = self.settings.prob_symmetric;
                if draw < pg {
                    self.try_grow(node_idx, priority);
                } else if draw < pg + ps {
                    self.try_grow(node_idx, priority - 1);
                    self.try_grow(node_idx, priority - 1);
                } else {
                    let pr = self.rng.next_range(1, priority as u64);
                    self.try_grow(node_idx, priority);
                    self.try_grow(node_idx, pr as u32);
                }
            }
            proof {
                lemma_selection_unique(
                    m_head.nodes,
                    m_head.cands,
                    old(self).spec_settings(),
                    pos as int,
                );
                assert(self.grow_model() == grow_step(old(self).grow_ctx(), m_head));
                assert(grow_iter(old(self).grow_ctx(), old(self).grow_model(), steps + 1)
                    == grow_step(old(self).grow_ctx(), m_head));
                steps = steps + 1;
            }
        }
        proof {
            old(self).graph.wf_facts();
            if old(self).spec_graph().edges_monotone() {
                assert forall|k: int| 0 <= k < self.spec_graph().spec_edges().len() implies {
                    let e = #[trigger] self.spec_graph().spec_edges()[k];
                    self.spec_graph().spec_nodes()[e.1 as int].pos.z >= self.spec_graph(
                    ).spec_nodes()[e.0 as int].pos.z && self.spec_graph().spec_nodes()[e.1
                        as int].priority <= self.spec_graph().spec_nodes()[e.0 as int].priority
                } by {
                    if k < old(self).spec_graph().spec_edges().len() {
                        assert(self.spec_graph().spec_edges()[k] == old(self).spec_graph().spec_edges()[k]);
                    } else {
                        assert(grown_edge_ok(self.spec_graph(), k));
                    }
                }
            }
        }
    }
}

} // verus!
