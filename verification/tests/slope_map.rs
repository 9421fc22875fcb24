use terrain::slope_map::{ArraySlopeMap, SlopeMap};
use terrain::Point2;

fn p2(x: i64, y: i64) -> Point2 {
    Point2 { x, y }
}

fn grid_data() -> Vec<u64> {
    vec![
        0, 100_000, 100_000, 0, //
        100_000, 200_000, 100_000, 100_000, //
        0, 200_000, 0, 0, //
        100_000, 100_000, 0, 0,
    ]
}

fn array_slope_map() -> ArraySlopeMap {
    ArraySlopeMap::new(grid_data(), 4, p2(45_000, -10_000), 10_000)
}

#[test]
fn create_array_slope_map() {
    let _map = array_slope_map();
}

#[test]
fn array_slope_map_sample() {
    let map = array_slope_map();

    // points outside the map
    assert_eq!(map.sample(p2(0, 0)), 0);
    assert_eq!(map.sample(p2(60_000, 0)), 0);
    assert_eq!(map.sample(p2(0, -20_000)), 0);
    assert_eq!(map.sample(p2(0, 10_000)), 0);

    // points on the map
    assert_eq!(map.sample(p2(45_000, -10_000)), 0);
    assert_eq!(map.sample(p2(47_500, -10_000)), 100_000);
    assert_eq!(map.sample(p2(47_500, -7_500)), 200_000);
}

#[test]
fn array_slope_map_cell_lookup() {
    // A distinctive value in the first cell: the sample at the grid origin
    // is exactly the stored value, not a constant.
    let mut data = grid_data();
    data[0] = 123_456;
    data[15] = 654_321;
    let map = ArraySlopeMap::new(data, 4, p2(45_000, -10_000), 10_000);
    assert_eq!(map.sample(p2(45_000, -10_000)), 123_456);
    // The far corner of the domain falls in the last cell.
    assert_eq!(map.sample(p2(54_999, -1)), 654_321);
    // One step further is outside the domain.
    assert_eq!(map.sample(p2(55_000, -1)), 0);
}
