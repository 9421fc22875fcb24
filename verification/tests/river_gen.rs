use terrain::river_gen::{RiverGen, RiverGenSettings};
use terrain::river_graph::{RiverGraph, RiverNode};
use terrain::rng::RiverRng;
use terrain::slope_map::ArraySlopeMap;
use terrain::{Point2, Point3};

fn p2(x: i64, y: i64) -> Point2 {
    Point2 { x, y }
}

fn p3(x: i64, y: i64, z: i64) -> Point3 {
    Point3 { x, y, z }
}

fn contour(points: &[(i64, i64)], scale: i64) -> Vec<Point2> {
    points.iter().map(|&(x, y)| p2(x * scale, y * scale)).collect()
}

fn slope_data() -> Vec<u64> {
    vec![
        0, 100_000, 100_000, 0, //
        100_000, 200_000, 100_000, 100_000, //
        0, 200_000, 0, 0, //
        100_000, 100_000, 0, 0,
    ]
}

// One world unit is a thousand fixed-point coordinate units.
const SCALE: i64 = 10_000_000;

fn test_settings() -> RiverGenSettings {
    RiverGenSettings {
        height_range: 2_000,
        prob_growth: 200_000,
        prob_symmetric: 700_000,
        prob_asymetric: 100_000,
        edge_length: 2_000_000,
        edge_margin: 1_500_000,
    }
}

fn river_generator_seeded(seed: u64) -> RiverGen<ArraySlopeMap> {
    let contour = contour(&[(0, 0), (1, 0), (1, 1), (0, 1)], SCALE);

    let mut graph = RiverGraph::new();
    graph.add_node(RiverNode { pos: p3(SCALE / 2, 0, 0), priority: 20 });
    graph.add_node(RiverNode { pos: p3(SCALE / 2, SCALE, 0), priority: 20 });
    graph.add_node(RiverNode { pos: p3(SCALE, SCALE / 2, 0), priority: 20 });

    let slope_map = ArraySlopeMap::new(slope_data(), 4, p2(0, 0), SCALE);

    RiverGen::new(RiverRng::new(seed), slope_map, contour, graph, test_settings())
}

fn river_generator() -> RiverGen<ArraySlopeMap> {
    river_generator_seeded(7)
}

#[test]
fn create_river_generator() {
    let _gen = river_generator();
}

#[test]
fn river_generator_gen_point() {
    let mut gen = river_generator();
    let point = gen.gen_point(0);

    point.expect("point is none");
}

#[test]
fn river_generator_grow_network() {
    let mut gen = river_generator();
    gen.grow_network();
}

#[test]
fn river_generator_validate_point() {
    let mut gen = river_generator();
    let _node_b = gen.add_node(
        0,
        RiverNode { pos: p3(5_000_000, 2_000_000, 10_000), priority: 10 },
    );

    // invalid points, outside
    assert!(!gen.validate_point(p2(-5_000_000, 0)));
    assert!(!gen.validate_point(p2(15_000_000, 0)));
    assert!(!gen.validate_point(p2(0, 15_000_000)));

    // invalid points, contour
    assert!(!gen.validate_point(p2(1_000_000, 1_000_000)));
    assert!(!gen.validate_point(p2(9_000_000, 0)));
    assert!(!gen.validate_point(p2(0, 9_000_000)));

    // invalid points, edges
    assert!(!gen.validate_point(p2(5_000_000, -1_000_000)));
    assert!(!gen.validate_point(p2(5_000_000, 1_000_000)));
    assert!(!gen.validate_point(p2(5_000_000, 3_000_000)));

    // valid points, contour
    assert!(gen.validate_point(p2(2_000_000, 2_000_000)));
    assert!(gen.validate_point(p2(2_000_000, 2_000_000)));
}

#[test]
fn settings_probability_tolerance() {
    let mut settings = test_settings();
    assert!(settings.is_valid());

    // The sum may deviate from one full unit by the tolerance, either way.
    settings.prob_asymetric = 101_000;
    assert!(settings.is_valid());
    settings.prob_asymetric = 101_001;
    assert!(!settings.is_valid());
    settings.prob_asymetric = 99_000;
    assert!(settings.is_valid());
    settings.prob_asymetric = 98_999;
    assert!(!settings.is_valid());
}

#[test]
fn settings_geometry_bounds() {
    let mut settings = test_settings();
    settings.height_range = -1;
    assert!(!settings.is_valid());

    let mut settings = test_settings();
    settings.edge_length = 0;
    assert!(!settings.is_valid());

    let mut settings = test_settings();
    settings.edge_margin = settings.edge_length;
    assert!(!settings.is_valid());

    let mut settings = test_settings();
    settings.edge_margin = -1;
    assert!(!settings.is_valid());

    let mut settings = test_settings();
    settings.edge_margin = settings.edge_length - 1;
    assert!(settings.is_valid());
}

#[test]
fn validate_point_margin_examples() {
    // A point well inside the contour is admissible; one inside but within
    // the margin of the boundary is not.
    let gen = river_generator();
    assert!(gen.validate_point(p2(2_000_000, 2_000_000)));
    assert!(!gen.validate_point(p2(500_000, 500_000)));
}

#[test]
fn grow_network_empties_frontier() {
    let mut gen = river_generator();
    assert_eq!(gen.candidate_count(), 3);
    gen.grow_network();
    assert_eq!(gen.candidate_count(), 0);
}

#[test]
fn grow_network_keeps_seed_when_no_room() {
    // A contour far smaller than the edge length: no candidate point can
    // ever land inside it, so the graph comes back exactly as seeded.
    let contour = vec![p2(0, 0), p2(10, 0), p2(10, 10), p2(0, 10)];
    let mut graph = RiverGraph::new();
    graph.add_node(RiverNode { pos: p3(5, 5, 0), priority: 20 });
    let slope_map = ArraySlopeMap::new(slope_data(), 4, p2(0, 0), SCALE);
    let mut gen = RiverGen::new(
        RiverRng::new(11),
        slope_map,
        contour,
        graph,
        test_settings(),
    );
    gen.grow_network();
    assert_eq!(gen.graph.node_count(), 1);
    assert_eq!(gen.graph.edge_count(), 0);
    assert_eq!(gen.graph.get_node(0).pos, p3(5, 5, 0));
    assert_eq!(gen.graph.get_node(0).priority, 20);
}

#[test]
fn grow_network_monotone_edges() {
    let mut gen = river_generator();
    gen.grow_network();
    assert!(gen.graph.edge_count() > 0, "the fixture should grow");
    for k in 0..gen.graph.edge_count() {
        let (a, b) = gen.graph.get_edge(k);
        let parent = gen.graph.get_node(a);
        let child = gen.graph.get_node(b);
        assert!(child.pos.z >= parent.pos.z);
        assert!(child.priority <= parent.priority);
        assert!(a < b, "parents are inserted before their children");
    }
}

#[test]
fn grow_network_deterministic() {
    let mut first = river_generator_seeded(123);
    let mut second = river_generator_seeded(123);
    first.grow_network();
    second.grow_network();

    assert_eq!(first.graph.node_count(), second.graph.node_count());
    assert_eq!(first.graph.edge_count(), second.graph.edge_count());
    for i in 0..first.graph.node_count() {
        assert_eq!(first.graph.get_node(i), second.graph.get_node(i));
    }
    for k in 0..first.graph.edge_count() {
        assert_eq!(first.graph.get_edge(k), second.graph.get_edge(k));
    }
}

#[test]
fn grow_network_keeps_seed_prefix() {
    let mut gen = river_generator();
    let seeds = [
        gen.graph.get_node(0),
        gen.graph.get_node(1),
        gen.graph.get_node(2),
    ];
    gen.grow_network();
    assert!(gen.graph.node_count() >= 3);
    for (i, seed) in seeds.iter().enumerate() {
        assert_eq!(gen.graph.get_node(i), *seed);
    }
}

#[test]
fn grow_network_low_priority_seeds_only_extend() {
    // Seeds with priority one can only extend, never split: every parent in
    // the result keeps priority one on its child.
    let contour = contour(&[(0, 0), (1, 0), (1, 1), (0, 1)], SCALE);
    let mut graph = RiverGraph::new();
    graph.add_node(RiverNode { pos: p3(SCALE / 2, 0, 0), priority: 1 });
    let slope_map = ArraySlopeMap::new(slope_data(), 4, p2(0, 0), SCALE);
    let mut gen = RiverGen::new(RiverRng::new(3), slope_map, contour, graph, test_settings());
    gen.grow_network();
    for k in 0..gen.graph.edge_count() {
        let (a, b) = gen.graph.get_edge(k);
        assert_eq!(gen.graph.get_node(a).priority, 1);
        assert_eq!(gen.graph.get_node(b).priority, 1);
    }
}

#[test]
fn grow_network_asymmetric_splits_priorities() {
    // With asymmetric splits certain, a split parent keeps its priority on
    // one child and hands a strictly smaller, positive one to the other.
    let contour = contour(&[(0, 0), (1, 0), (1, 1), (0, 1)], SCALE);
    let mut graph = RiverGraph::new();
    graph.add_node(RiverNode { pos: p3(SCALE / 2, 0, 0), priority: 6 });
    let slope_map = ArraySlopeMap::new(slope_data(), 4, p2(0, 0), SCALE);
    let mut settings = test_settings();
    settings.prob_growth = 0;
    settings.prob_symmetric = 0;
    settings.prob_asymetric = 1_000_000;
    let mut gen = RiverGen::new(RiverRng::new(9), slope_map, contour, graph, settings);
    gen.grow_network();
    for k in 0..gen.graph.edge_count() {
        let (a, b) = gen.graph.get_edge(k);
        let parent = gen.graph.get_node(a);
        let child = gen.graph.get_node(b);
        assert!(child.priority <= parent.priority);
        if parent.priority > 1 {
            assert!(child.priority >= 1);
        }
    }
}
