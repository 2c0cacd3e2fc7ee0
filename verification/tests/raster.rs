use tp_image::{Pixel, Image};

#[test]
fn from_raw_reads_pixels_row_by_row() {
    let samples: Vec<u8> = vec![1, 2, 3, 4, 5, 6, 7, 8, 9, 10, 11, 12, 13, 14, 15, 16, 17, 18];
    let image = Image::from_raw(3, 2, samples).unwrap();
    assert_eq!(image.width(), 3);
    assert_eq!(image.height(), 2);
    assert_eq!(image.get_pixel(0, 0), Some(Pixel::new(1, 2, 3)));
    assert_eq!(image.get_pixel(1, 0), Some(Pixel::new(4, 5, 6)));
    assert_eq!(image.get_pixel(2, 0), Some(Pixel::new(7, 8, 9)));
    assert_eq!(image.get_pixel(0, 1), Some(Pixel::new(10, 11, 12)));
    assert_eq!(image.get_pixel(1, 1), Some(Pixel::new(13, 14, 15)));
    assert_eq!(image.get_pixel(2, 1), Some(Pixel::new(16, 17, 18)));
}

#[test]
fn from_raw_refuses_too_few_samples() {
    assert!(Image::from_raw(2, 2, vec![0u8; 11]).is_none());
    assert!(Image::from_raw(1, 1, Vec::new()).is_none());
    assert!(Image::from_raw(u32::MAX, u32::MAX, vec![0u8; 12]).is_none());
}

#[test]
fn from_raw_accepts_exact_and_spare_samples() {
    assert!(Image::from_raw(2, 2, vec![0u8; 12]).is_some());
    let image = Image::from_raw(1, 1, vec![9, 8, 7, 6, 5]).unwrap();
    assert_eq!(image.width(), 1);
    assert_eq!(image.height(), 1);
    assert_eq!(image.get_pixel(0, 0), Some(Pixel::new(9, 8, 7)));
}

#[test]
fn from_raw_accepts_empty_images() {
    let none = Image::from_raw(0, 0, Vec::new()).unwrap();
    assert_eq!((none.width(), none.height()), (0, 0));
    let flat = Image::from_raw(5, 0, Vec::new()).unwrap();
    assert_eq!((flat.width(), flat.height()), (5, 0));
    assert_eq!(flat.get_pixel(0, 0), None);
    let thin = Image::from_raw(0, 7, Vec::new()).unwrap();
    assert_eq!((thin.width(), thin.height()), (0, 7));
    assert_eq!(thin.get_pixel(0, 0), None);
}

#[test]
fn get_pixel_is_none_outside_the_image() {
    let image = Image::from_raw(2, 3, vec![5u8; 18]).unwrap();
    assert_eq!(image.get_pixel(1, 2), Some(Pixel::new(5, 5, 5)));
    assert_eq!(image.get_pixel(2, 0), None);
    assert_eq!(image.get_pixel(0, 3), None);
    assert_eq!(image.get_pixel(u32::MAX, u32::MAX), None);
}

#[test]
fn into_raw_gives_the_samples_back() {
    let samples: Vec<u8> = vec![10, 20, 30, 40, 50, 60];
    let image = Image::from_raw(2, 1, samples.clone()).unwrap();
    assert_eq!(image.into_raw(), samples);
}

#[test]
fn clone_keeps_dimensions_and_pixels() {
    let image = Image::from_raw(2, 2, vec![1, 2, 3, 4, 5, 6, 7, 8, 9, 10, 11, 12]).unwrap();
    let copy = image.clone();
    assert_eq!(copy.width(), 2);
    assert_eq!(copy.height(), 2);
    for y in 0..2 {
        for x in 0..2 {
            assert_eq!(copy.get_pixel(x, y), image.get_pixel(x, y));
        }
    }
    assert_eq!(copy.into_raw(), image.into_raw());
}
