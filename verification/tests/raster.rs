use mark::pixel::{Pixel, Rgb};
use mark::raster::Raster;

fn counting(count: usize) -> Vec<u8> {
    (0..count).map(|i| i as u8).collect()
}

#[test]
fn from_raw_takes_exactly_enough_samples() {
    let raster = Raster::from_raw(3, 2, counting(24)).unwrap();
    assert_eq!(raster.dimensions(), (3, 2));
    assert_eq!(raster.width(), 3);
    assert_eq!(raster.height(), 2);
    assert_eq!(raster.into_raw(), counting(24));
}

#[test]
fn from_raw_refuses_too_few_samples() {
    assert!(Raster::from_raw(3, 2, counting(23)).is_none());
    assert!(Raster::from_raw(1, 1, counting(3)).is_none());
    assert!(Raster::from_raw(1, 1, Vec::new()).is_none());
    assert!(Raster::from_raw(u32::MAX, u32::MAX, counting(64)).is_none());
}

#[test]
fn from_raw_counts_the_samples_of_a_row_in_a_usize() {
    // A row that is too long for a `usize` is refused even where the raster
    // has no row at all.
    let cases: [(u32, u32, usize); 6] = [
        (0x4000_0000, 0, 0),
        (0x3fff_ffff, 0, 0),
        (u32::MAX, 0, 0),
        (u32::MAX, 0, 16),
        (0, u32::MAX, 0),
        (1, 0x4000_0000, 8),
    ];
    for (width, height, len) in cases {
        let row_fits = 4 * width as u128 <= usize::MAX as u128;
        let all_fit = 4 * width as u128 * height as u128 <= len as u128;
        let made = Raster::from_raw(width, height, counting(len));
        assert_eq!(made.is_some(), row_fits && all_fit, "{:?}", (width, height, len));
        if let Some(raster) = made {
            assert_eq!(raster.dimensions(), (width, height));
        }
    }
}

#[test]
fn from_raw_takes_more_samples_than_it_needs() {
    let raster = Raster::from_raw(1, 2, counting(11)).unwrap();
    assert_eq!(raster.dimensions(), (1, 2));
    assert_eq!(raster.get_pixel(0, 1), Pixel { red: 4, green: 5, blue: 6, alpha: 7 });
    assert_eq!(raster.get_pixel_checked(0, 2), None);
    assert_eq!(raster.into_raw(), counting(11));
}

#[test]
fn a_raster_without_pixels_is_a_raster() {
    let raster = Raster::from_raw(0, 0, Vec::new()).unwrap();
    assert_eq!(raster.dimensions(), (0, 0));
    assert_eq!(raster.get_pixel_checked(0, 0), None);
    let raster = Raster::from_raw(0, 5, Vec::new()).unwrap();
    assert_eq!(raster.dimensions(), (0, 5));
    let raster = Raster::from_raw(5, 0, counting(2)).unwrap();
    assert_eq!(raster.dimensions(), (5, 0));
    assert_eq!(raster.into_raw(), counting(2));
}

#[test]
fn get_pixel_reads_row_by_row() {
    let raster = Raster::from_raw(3, 2, counting(24)).unwrap();
    assert_eq!(raster.get_pixel(0, 0), Pixel { red: 0, green: 1, blue: 2, alpha: 3 });
    assert_eq!(raster.get_pixel(2, 0), Pixel { red: 8, green: 9, blue: 10, alpha: 11 });
    assert_eq!(raster.get_pixel(0, 1), Pixel { red: 12, green: 13, blue: 14, alpha: 15 });
    assert_eq!(raster.get_pixel(2, 1), Pixel { red: 20, green: 21, blue: 22, alpha: 23 });
}

#[test]
fn get_pixel_checked_is_none_outside() {
    let raster = Raster::from_raw(3, 2, counting(24)).unwrap();
    assert_eq!(raster.get_pixel_checked(1, 1), Some(raster.get_pixel(1, 1)));
    assert_eq!(raster.get_pixel_checked(3, 0), None);
    assert_eq!(raster.get_pixel_checked(0, 2), None);
    assert_eq!(raster.get_pixel_checked(u32::MAX, 0), None);
    assert_eq!(raster.get_pixel_checked(0, u32::MAX), None);
}

#[test]
fn put_pixel_writes_four_samples() {
    let mut raster = Raster::from_raw(3, 2, counting(30)).unwrap();
    let pixel = Pixel { red: 200, green: 201, blue: 202, alpha: 203 };
    raster.put_pixel(1, 1, pixel);
    assert_eq!(raster.get_pixel(1, 1), pixel);
    assert_eq!(raster.dimensions(), (3, 2));
    let mut expect = counting(30);
    expect[16..20].copy_from_slice(&[200, 201, 202, 203]);
    assert_eq!(raster.into_raw(), expect);
}

#[test]
fn a_raster_is_an_image_buffer() {
    let mut image = image::RgbaImage::new(4, 3);
    image.put_pixel(3, 2, image::Rgba([1, 2, 3, 4]));
    image.put_pixel(0, 1, image::Rgba([5, 6, 7, 8]));
    let (width, height) = image.dimensions();
    let mut raster = Raster::from_raw(width, height, image.into_raw()).unwrap();
    assert_eq!(raster.get_pixel(3, 2), Pixel { red: 1, green: 2, blue: 3, alpha: 4 });
    assert_eq!(raster.get_pixel(0, 1), Pixel { red: 5, green: 6, blue: 7, alpha: 8 });
    raster.put_pixel(2, 0, Pixel { red: 9, green: 10, blue: 11, alpha: 12 });
    let image = image::RgbaImage::from_raw(4, 3, raster.into_raw()).unwrap();
    assert_eq!(image.get_pixel(2, 0), &image::Rgba([9, 10, 11, 12]));
    assert_eq!(image.get_pixel(3, 2), &image::Rgba([1, 2, 3, 4]));
}

#[test]
fn a_pixel_gives_and_takes_its_color() {
    let pixel = Pixel { red: 1, green: 2, blue: 3, alpha: 4 };
    assert_eq!(pixel.rgb(), Rgb { red: 1, green: 2, blue: 3 });
    assert_eq!(
        pixel.with_rgb(Rgb { red: 9, green: 8, blue: 7 }),
        Pixel { red: 9, green: 8, blue: 7, alpha: 4 }
    );
}
