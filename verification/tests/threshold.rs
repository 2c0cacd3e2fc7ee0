use tp_image::{
    threshold_pixel, threshold_to_custom_colors, threshold_to_monochrome, Pixel, Image,
    LUMINANCE_CUTOFF,
};

fn image_of(width: u32, height: u32, colors: &[Pixel]) -> Image {
    let mut samples: Vec<u8> = Vec::new();
    for c in colors {
        samples.push(c.r);
        samples.push(c.g);
        samples.push(c.b);
    }
    Image::from_raw(width, height, samples).unwrap()
}

fn colors_of(image: &Image) -> Vec<Pixel> {
    let mut colors = Vec::new();
    for y in 0..image.height() {
        for x in 0..image.width() {
            colors.push(image.get_pixel(x, y).unwrap());
        }
    }
    colors
}

fn grey(v: u8) -> Pixel {
    Pixel::new(v, v, v)
}

const BLACK: Pixel = Pixel { r: 0, g: 0, b: 0 };
const WHITE: Pixel = Pixel { r: 255, g: 255, b: 255 };
const BLUE: Pixel = Pixel { r: 0, g: 128, b: 255 };
const YELLOW: Pixel = Pixel { r: 255, g: 255, b: 0 };

#[test]
fn cutoff_is_128_in_thousandths() {
    assert_eq!(LUMINANCE_CUTOFF, 128_000);
}

#[test]
fn monochrome_of_four_greys() {
    let image = image_of(2, 2, &[grey(50), grey(200), grey(128), grey(129)]);
    let out = threshold_to_monochrome(&image);
    assert_eq!(colors_of(&out), vec![BLACK, WHITE, BLACK, WHITE]);
}

#[test]
fn monochrome_leaves_the_input_alone() {
    let image = image_of(2, 2, &[grey(50), grey(200), grey(128), grey(129)]);
    let _ = threshold_to_monochrome(&image);
    assert_eq!(colors_of(&image), vec![grey(50), grey(200), grey(128), grey(129)]);
}

#[test]
fn luminance_exactly_at_cutoff_is_low() {
    let at = Pixel::new(1, 189, 147);
    let above = Pixel::new(2, 205, 62);
    assert_eq!(threshold_pixel(&grey(128), BLACK, WHITE), BLACK);
    assert_eq!(threshold_pixel(&at, BLACK, WHITE), BLACK);
    assert_eq!(threshold_pixel(&above, BLACK, WHITE), WHITE);
    assert_eq!(threshold_pixel(&at, BLUE, YELLOW), BLUE);
    assert_eq!(threshold_pixel(&above, BLUE, YELLOW), YELLOW);
    let out = threshold_to_monochrome(&image_of(3, 1, &[grey(128), at, above]));
    assert_eq!(colors_of(&out), vec![BLACK, BLACK, WHITE]);
}

#[test]
fn threshold_color_picks_by_brightness() {
    assert_eq!(threshold_pixel(&BLACK, BLUE, YELLOW), BLUE);
    assert_eq!(threshold_pixel(&WHITE, BLUE, YELLOW), YELLOW);
    assert_eq!(threshold_pixel(&grey(127), BLUE, YELLOW), BLUE);
    assert_eq!(threshold_pixel(&grey(129), BLUE, YELLOW), YELLOW);
    // pure green is bright, pure red and pure blue are dark
    assert_eq!(threshold_pixel(&Pixel::new(0, 255, 0), BLACK, WHITE), WHITE);
    assert_eq!(threshold_pixel(&Pixel::new(255, 0, 0), BLACK, WHITE), BLACK);
    assert_eq!(threshold_pixel(&Pixel::new(0, 0, 255), BLACK, WHITE), BLACK);
}

#[test]
fn custom_colors_replace_black_and_white() {
    let image = image_of(2, 2, &[grey(50), grey(200), grey(128), grey(129)]);
    let out = threshold_to_custom_colors(&image, BLUE, YELLOW);
    assert_eq!(colors_of(&out), vec![BLUE, YELLOW, BLUE, YELLOW]);
}

#[test]
fn custom_colors_with_black_and_white_is_monochrome() {
    let image = image_of(
        3,
        2,
        &[
            Pixel::new(12, 200, 7),
            Pixel::new(255, 0, 0),
            grey(128),
            Pixel::new(90, 160, 250),
            grey(129),
            Pixel::new(0, 0, 1),
        ],
    );
    let mono = threshold_to_monochrome(&image);
    let custom = threshold_to_custom_colors(&image, BLACK, WHITE);
    assert_eq!(colors_of(&mono), colors_of(&custom));
}

#[test]
fn custom_colors_may_be_equal_or_swapped() {
    let image = image_of(2, 1, &[grey(10), grey(240)]);
    let same = threshold_to_custom_colors(&image, BLUE, BLUE);
    assert_eq!(colors_of(&same), vec![BLUE, BLUE]);
    let swapped = threshold_to_custom_colors(&image, WHITE, BLACK);
    assert_eq!(colors_of(&swapped), vec![WHITE, BLACK]);
}

#[test]
fn monochrome_is_idempotent() {
    let mut colors = Vec::new();
    for i in 0..60u32 {
        colors.push(Pixel::new((i * 7 % 256) as u8, (i * 13 % 256) as u8, (i * 29 % 256) as u8));
    }
    let image = image_of(10, 6, &colors);
    let once = threshold_to_monochrome(&image);
    let twice = threshold_to_monochrome(&once);
    assert_eq!(colors_of(&once), colors_of(&twice));
    assert!(colors_of(&once).iter().all(|c| *c == BLACK || *c == WHITE));
    assert!(colors_of(&once).contains(&BLACK));
    assert!(colors_of(&once).contains(&WHITE));
}

#[test]
fn thresholds_preserve_dimensions() {
    for (w, h) in [(1u32, 1u32), (3, 2), (2, 5), (7, 1), (0, 0), (4, 0), (0, 3)] {
        let image = Image::from_raw(w, h, vec![77u8; (3 * w * h) as usize]).unwrap();
        let mono = threshold_to_monochrome(&image);
        assert_eq!((mono.width(), mono.height()), (w, h));
        let custom = threshold_to_custom_colors(&image, BLUE, YELLOW);
        assert_eq!((custom.width(), custom.height()), (w, h));
    }
}

#[test]
fn thresholds_decide_each_cell_by_its_own_colour() {
    // a 3 x 2 image whose rows differ: the result keeps the layout
    let image = image_of(3, 2, &[grey(0), grey(255), grey(0), grey(255), grey(255), grey(0)]);
    let out = threshold_to_monochrome(&image);
    assert_eq!(out.get_pixel(0, 0), Some(BLACK));
    assert_eq!(out.get_pixel(1, 0), Some(WHITE));
    assert_eq!(out.get_pixel(2, 0), Some(BLACK));
    assert_eq!(out.get_pixel(0, 1), Some(WHITE));
    assert_eq!(out.get_pixel(1, 1), Some(WHITE));
    assert_eq!(out.get_pixel(2, 1), Some(BLACK));
}
