use tp_image::{luminance, Pixel, LUMINANCE_SCALE, MAX_LUMINANCE};

#[test]
fn luminance_of_black_is_zero() {
    assert_eq!(luminance(&Pixel::new(0, 0, 0)), 0);
    assert_eq!(luminance(&Pixel::black()), 0);
}

#[test]
fn luminance_of_white_is_full() {
    assert_eq!(luminance(&Pixel::new(255, 255, 255)), 255_000);
    assert_eq!(luminance(&Pixel::white()), MAX_LUMINANCE);
    assert_eq!(MAX_LUMINANCE, 255 * LUMINANCE_SCALE);
}

#[test]
fn luminance_weights_each_channel() {
    assert_eq!(luminance(&Pixel::new(1, 0, 0)), 299);
    assert_eq!(luminance(&Pixel::new(0, 1, 0)), 587);
    assert_eq!(luminance(&Pixel::new(0, 0, 1)), 114);
    assert_eq!(luminance(&Pixel::new(255, 0, 0)), 76_245);
    assert_eq!(luminance(&Pixel::new(0, 255, 0)), 149_685);
    assert_eq!(luminance(&Pixel::new(0, 0, 255)), 29_070);
}

#[test]
fn luminance_follows_the_formula() {
    assert_eq!(luminance(&Pixel::new(10, 20, 30)), 2_990 + 11_740 + 3_420);
    assert_eq!(luminance(&Pixel::new(0, 128, 255)), 75_136 + 29_070);
    assert_eq!(luminance(&Pixel::new(1, 189, 147)), 128_000);
    assert_eq!(luminance(&Pixel::new(2, 205, 62)), 128_001);
}

#[test]
fn luminance_of_a_grey_is_its_level() {
    for v in 0..=255u8 {
        assert_eq!(luminance(&Pixel::new(v, v, v)), 1000 * u32::from(v));
    }
}

#[test]
fn luminance_stays_in_range() {
    for r in (0..=255u8).step_by(5) {
        for g in (0..=255u8).step_by(5) {
            for b in (0..=255u8).step_by(5) {
                assert!(luminance(&Pixel::new(r, g, b)) <= MAX_LUMINANCE);
            }
        }
    }
}

#[test]
fn colors_compare_by_channels() {
    assert_eq!(Pixel::new(1, 2, 3), Pixel { r: 1, g: 2, b: 3 });
    assert_ne!(Pixel::new(1, 2, 3), Pixel::new(3, 2, 1));
    assert_eq!(Pixel::black(), Pixel::new(0, 0, 0));
    assert_eq!(Pixel::white(), Pixel::new(255, 255, 255));
}
