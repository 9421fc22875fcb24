use terrain::fixed::{cos_turns, dir_step, isqrt64};
use terrain::rng::RiverRng;
use terrain::{dist2_of, pnpoly, segment_clear_of, Point2};

fn p2(x: i64, y: i64) -> Point2 {
    Point2 { x, y }
}

fn square() -> Vec<Point2> {
    vec![p2(0, 0), p2(10_000, 0), p2(10_000, 10_000), p2(0, 10_000)]
}

#[test]
fn pnpoly_inside_outside() {
    let c = square();
    assert!(pnpoly(&c, p2(5_000, 5_000)));
    assert!(pnpoly(&c, p2(1, 1)));
    assert!(!pnpoly(&c, p2(-1, 5_000)));
    assert!(!pnpoly(&c, p2(10_001, 5_000)));
    assert!(!pnpoly(&c, p2(5_000, -1)));
    assert!(!pnpoly(&c, p2(5_000, 10_001)));
}

#[test]
fn pnpoly_concave() {
    // An L-shaped polygon: the notch is outside.
    let c = vec![
        p2(0, 0),
        p2(10, 0),
        p2(10, 4),
        p2(6, 4),
        p2(6, 10),
        p2(0, 10),
    ];
    assert!(pnpoly(&c, p2(3, 7)));
    assert!(pnpoly(&c, p2(8, 2)));
    assert!(!pnpoly(&c, p2(8, 7)));
}

#[test]
fn segment_clearance() {
    let a = p2(0, 0);
    let b = p2(10_000, 0);
    // Distance from the segment's interior.
    assert!(segment_clear_of(a, b, p2(5_000, 3_000), 3_000));
    assert!(!segment_clear_of(a, b, p2(5_000, 2_999), 3_000));
    // Beyond an endpoint the clearance is measured to the endpoint.
    assert!(segment_clear_of(a, b, p2(13_000, 4_000), 5_000));
    assert!(!segment_clear_of(a, b, p2(13_000, 3_999), 5_000));
    // A degenerate segment behaves as a point.
    assert!(segment_clear_of(a, a, p2(3, 4), 5));
    assert!(!segment_clear_of(a, a, p2(3, 4), 6));
}

#[test]
fn squared_distance() {
    assert_eq!(dist2_of(p2(0, 0), p2(3, 4)), 25);
    assert_eq!(dist2_of(p2(-2, 1), p2(1, -3)), 25);
    assert_eq!(dist2_of(p2(7, 7), p2(7, 7)), 0);
}

#[test]
fn integer_square_root() {
    assert_eq!(isqrt64(0), 0);
    assert_eq!(isqrt64(1), 1);
    assert_eq!(isqrt64(15), 3);
    assert_eq!(isqrt64(16), 4);
    assert_eq!(isqrt64(1_000_000_000_000), 1_000_000);
    assert_eq!(isqrt64(u64::MAX), 4_294_967_295);
}

#[test]
fn cosine_quarters() {
    assert_eq!(cos_turns(0), 1_000_000);
    assert_eq!(cos_turns(250_000), 0);
    assert_eq!(cos_turns(500_000), -1_000_000);
    assert_eq!(cos_turns(750_000), 0);
}

#[test]
fn direction_step_axes() {
    assert_eq!(dir_step(0, 1_000), (1_000, 0));
    assert_eq!(dir_step(250_000, 1_000), (0, 1_000));
    assert_eq!(dir_step(500_000, 1_000), (-1_000, 0));
    assert_eq!(dir_step(750_000, 1_000), (0, -1_000));
}

#[test]
fn direction_step_stays_on_circle() {
    let mut rng = RiverRng::new(5);
    for _ in 0..200 {
        let a = rng.next_unit();
        let (dx, dy) = dir_step(a, 2_000_000);
        let d2 = dx * dx + dy * dy;
        assert!(d2 <= 2_000_000i64 * 2_000_000);
        // Up to rounding the step has full edge length.
        assert!(d2 >= 1_990_000i64 * 1_990_000);
    }
}

#[test]
fn rng_bounds_and_determinism() {
    let mut a = RiverRng::new(42);
    let mut b = RiverRng::new(42);
    for _ in 0..100 {
        let ua = a.next_unit();
        assert!(ua < 1_000_000);
        assert_eq!(ua, b.next_unit());
        let ra = a.next_range(10, 20);
        assert!((10..20).contains(&ra));
        assert_eq!(ra, b.next_range(10, 20));
    }
    let mut c = RiverRng::new(43);
    let first: Vec<u64> = (0..8).map(|_| RiverRng::new(42).next_word()).collect();
    assert!(first.iter().all(|&w| w == first[0]));
    assert_ne!(RiverRng::new(42).next_word(), c.next_word());
}

#[test]
fn rng_from_entropy_draws_in_range() {
    let mut rng = RiverRng::from_entropy();
    for _ in 0..10 {
        assert!(rng.next_unit() < 1_000_000);
        let r = rng.next_range(3, 9);
        assert!((3..9).contains(&r));
    }
}
