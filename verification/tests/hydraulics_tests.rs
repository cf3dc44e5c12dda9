use suwaru::hydraulics::{
    area, average_depth, average_kst, flow, hydraulic_radius, hydraulic_slope, velocity,
    wetted_perimeter,
};
use suwaru::rastercell::RasterCell;

#[test]
fn test_hydraulic_slope() {
    let cell_size = 1_000_000;
    let cell1 = RasterCell::new_with_xyzh(0, 0, 1_500_000, 250_000);
    let cell2 = RasterCell::new_with_xyzh(0, 0, 1_000_000, 500_000);

    // (1.75 - 1.5) / 1.0 = 0.25
    assert_eq!(hydraulic_slope(&cell1, &cell2, cell_size), 250_000);
}

#[test]
fn test_wetted_perimeter() {
    let cell_size = 1_000_000;
    let cell1 = RasterCell::new_with_xyzh(0, 0, 1_500_000, 250_000);
    let cell2 = RasterCell::new_with_xyzh(0, 0, 1_000_000, 500_000);

    // 1.0 + 0.25 + 0.5 = 1.75
    assert_eq!(wetted_perimeter(&cell1, &cell2, cell_size), 1_000_000 + 250_000 + 500_000);
}

#[test]
fn test_area() {
    let cell_size = 1_000_000;
    let cell1 = RasterCell::new_with_xyzh(0, 0, 1_500_000, 250_000);
    let cell2 = RasterCell::new_with_xyzh(0, 0, 1_000_000, 500_000);

    // 1.0 * 0.5 * (0.25 + 0.5) = 0.375
    assert_eq!(area(&cell1, &cell2, cell_size), 375_000);
}

#[test]
fn test_hydraulic_radius() {
    let cell_size = 1_000_000;
    let mut cell1 = RasterCell::new_with_xyzh(0, 0, 1_500_000, 250_000);
    let mut cell2 = RasterCell::new_with_xyzh(0, 0, 1_000_000, 500_000);

    // 0.375 / 1.75, rounded down at six decimal places.
    assert_eq!(
        hydraulic_radius(&cell1, &cell2, cell_size),
        375_000 * 1_000_000 / 1_750_000,
    );

    cell1.depth = 0;
    cell2.depth = 0;

    assert_eq!(hydraulic_radius(&cell1, &cell2, cell_size), 0);
}

#[test]
fn test_average_kst() {
    let cell1 = RasterCell::new_with_xyzh(0, 0, 1_500_000, 250_000);
    let mut cell2 = RasterCell::new_with_xyzh(0, 0, 1_000_000, 500_000);
    cell2.kst = 10_000_000;

    // 0.5 * (10 + 30) = 20
    assert_eq!(average_kst(&cell1, &cell2), 20_000_000);
}

#[test]
fn test_average_depth() {
    let cell1 = RasterCell::new_with_xyzh(0, 0, 1_500_000, 250_000);
    let mut cell2 = RasterCell::new_with_xyzh(0, 0, 1_000_000, 500_000);
    cell2.kst = 10_000_000;

    // 0.5 * (0.25 + 0.5) = 0.375
    assert_eq!(average_depth(&cell1, &cell2), 375_000);
}

#[test]
fn test_velocity() {
    let cell_size = 1_000_000;
    let cell1 = RasterCell::new_with_xyzh(0, 0, 1_500_000, 250_000);
    let cell2 = RasterCell::new_with_xyzh(0, 0, 1_000_000, 500_000);

    let calc_vel = velocity(&cell1, &cell2, cell_size) as f64 / 1_000_000.0;
    let corr_vel = 5.37139064460491;

    assert_eq!((calc_vel - corr_vel).abs() < 0.0001, true);
}

#[test]
fn test_flow() {
    let cell_size = 1_000_000;
    let cell1 = RasterCell::new_with_xyzh(0, 0, 1_500_000, 250_000);
    let cell2 = RasterCell::new_with_xyzh(0, 0, 1_000_000, 500_000);

    let calc_flow = flow(&cell1, &cell2, cell_size) as f64 / 1_000_000.0;
    let corr_flow = 2.01427149172684;

    assert_eq!((calc_flow - corr_flow).abs() < 0.0001, true);
}
