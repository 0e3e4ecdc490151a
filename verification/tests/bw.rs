use mark::bw::{bw, BwMethod, Grayscale, Method};
use mark::pixel::{Pixel, Rgb};
use mark::raster::Raster;
use palette::{Hsl, Hsv, IntoColor, Lab, LinSrgb, Oklab, Srgb};

/// Greys in floating point, over the colour types of `palette`.
struct Tone;

fn to_bw(method: Method, pixel: Srgb) -> Srgb {
    match method {
        Method::SrgbAverage => {
            let value = (pixel.red + pixel.green + pixel.blue) / 3.0;
            Srgb::new(value, value, value)
        }
        Method::LinSrgbAverage => {
            let pixel: LinSrgb = pixel.into_color();
            let value = (pixel.red + pixel.green + pixel.blue) / 3.0;
            LinSrgb::new(value, value, value).into_color()
        }
        Method::Hsl => {
            let mut pixel: Hsl = pixel.into_color();
            pixel.saturation = 0.0;
            pixel.into_color()
        }
        Method::Hsv => {
            let mut pixel: Hsv = pixel.into_color();
            pixel.saturation = 0.0;
            pixel.into_color()
        }
        Method::Cielab => {
            let mut pixel: Lab = pixel.into_color();
            pixel.a = 0.0;
            pixel.b = 0.0;
            pixel.into_color()
        }
        Method::Oklab => {
            let mut pixel: Oklab = pixel.into_color();
            pixel.a = 0.0;
            pixel.b = 0.0;
            pixel.into_color()
        }
    }
}

impl Grayscale for Tone {
    fn to_bw(method: Method, rgb: Rgb) -> Rgb {
        let srgb = Srgb::new(rgb.red, rgb.green, rgb.blue).into_format::<f32>();
        let srgb = to_bw(method, srgb).into_format::<u8>();
        Rgb { red: srgb.red, green: srgb.green, blue: srgb.blue }
    }
}

const METHODS: [Method; 6] = [
    Method::SrgbAverage,
    Method::LinSrgbAverage,
    Method::Hsl,
    Method::Hsv,
    Method::Cielab,
    Method::Oklab,
];

fn raster_of(width: u32, height: u32, pixels: &[[u8; 4]]) -> Raster {
    let samples = pixels.iter().flatten().copied().collect();
    Raster::from_raw(width, height, samples).unwrap()
}

#[test]
fn srgb_average_of_a_pure_color_is_a_third() {
    let mut image = raster_of(3, 1, &[[255, 0, 0, 9], [0, 255, 0, 8], [0, 0, 255, 7]]);
    bw::<Tone>(&mut image, Method::SrgbAverage);
    assert_eq!(image.get_pixel(0, 0), Pixel { red: 85, green: 85, blue: 85, alpha: 9 });
    assert_eq!(image.get_pixel(1, 0), Pixel { red: 85, green: 85, blue: 85, alpha: 8 });
    assert_eq!(image.get_pixel(2, 0), Pixel { red: 85, green: 85, blue: 85, alpha: 7 });
}

#[test]
fn bw_turns_every_pixel_and_keeps_alpha() {
    let pixels: Vec<[u8; 4]> =
        (0..12u8).map(|i| [i * 20, 255 - i * 20, i * 7, 100 + i]).collect();
    for method in METHODS {
        let mut image = raster_of(4, 3, &pixels);
        bw::<Tone>(&mut image, method);
        assert_eq!(image.dimensions(), (4, 3));
        for y in 0..3 {
            for x in 0..4 {
                let before = pixels[(y * 4 + x) as usize];
                let after = image.get_pixel(x, y);
                let expect = Tone::to_bw(
                    method,
                    Rgb { red: before[0], green: before[1], blue: before[2] },
                );
                assert_eq!(after.rgb(), expect);
                assert_eq!(after.alpha, before[3]);
            }
        }
    }
}

#[test]
fn bw_on_an_empty_raster_does_nothing() {
    let mut image = raster_of(0, 0, &[]);
    bw::<Tone>(&mut image, Method::Hsl);
    assert_eq!(image.dimensions(), (0, 0));
    assert_eq!(image.into_raw(), Vec::<u8>::new());
}

#[test]
fn oklab_keeps_lightness_and_drops_chroma() {
    let mut image = raster_of(2, 1, &[[200, 30, 90, 255], [12, 140, 220, 255]]);
    let before: Vec<Oklab> = (0..2)
        .map(|x| {
            let p = image.get_pixel(x, 0);
            Srgb::new(p.red, p.green, p.blue).into_format::<f32>().into_color()
        })
        .collect();
    bw::<Tone>(&mut image, Method::Oklab);
    for x in 0..2 {
        let p = image.get_pixel(x, 0);
        assert_eq!(p.red, p.green);
        assert_eq!(p.green, p.blue);
        let after: Oklab = Srgb::new(p.red, p.green, p.blue).into_format::<f32>().into_color();
        assert!((after.l - before[x as usize].l).abs() < 0.01);
        assert!(after.a.abs() < 0.01 && after.b.abs() < 0.01);
    }
}

#[test]
fn every_name_means_its_method() {
    assert_eq!(Method::from(BwMethod::SrgbAverage), Method::SrgbAverage);
    assert_eq!(Method::from(BwMethod::LinSrgbAverage), Method::LinSrgbAverage);
    assert_eq!(Method::from(BwMethod::Hsl), Method::Hsl);
    assert_eq!(Method::from(BwMethod::Hsv), Method::Hsv);
    assert_eq!(Method::from(BwMethod::Cielab), Method::Cielab);
    assert_eq!(Method::from(BwMethod::Oklab), Method::Oklab);
}
