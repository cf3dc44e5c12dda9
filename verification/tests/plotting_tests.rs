use suwaru::plotting::scale_color;

#[test]
fn test_scale_color_saturates() {
    // 0.6 m against a 0.5 m maximum: full intensity.
    assert_eq!(scale_color(600_000, 500_000), 255);
    assert_eq!(scale_color(500_000, 500_000), 255);
}

#[test]
fn test_scale_color_scales_linearly() {
    // 0.25 m against a 0.5 m maximum: half intensity, rounded down.
    assert_eq!(scale_color(250_000, 500_000), 127);
    assert_eq!(scale_color(0, 500_000), 0);
    assert_eq!(scale_color(100_000, 500_000), 51);
}
