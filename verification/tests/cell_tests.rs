use suwaru::node::Node;
use suwaru::rastercell::RasterCell;

#[test]
fn node_test_water_level() {
    let mut node = Node::new_with_xyz(0, 0, 10_500_000);
    node.depth = 500_000;

    // 10.5 + 0.5 = 11.0
    assert_eq!(node.water_level(), 11_000_000);
}

#[test]
fn rastercell_test_water_level() {
    let mut cell = RasterCell::new_with_xyz(0, 0, 10_500_000);
    cell.depth = 500_000;

    // 10.5 + 0.5 = 11.0
    assert_eq!(cell.water_level(), 11_000_000);
}

#[test]
fn test_default_roughness() {
    let node = Node::new();
    assert_eq!(node.x, 0);
    assert_eq!(node.depth, 0);

    let cell = RasterCell::new();
    assert_eq!(cell.kst, 30_000_000);

    let placed = RasterCell::new_with_xy(3, 4);
    assert_eq!(placed.x, 3);
    assert_eq!(placed.y, 4);
    assert_eq!(placed.kst, 30_000_000);

    let wet = RasterCell::new_with_xyzh(1, 2, 2_000_000, 250_000);
    assert_eq!(wet.elevation, 2_000_000);
    assert_eq!(wet.depth, 250_000);
}
