use mark::color::WorkingColor;
use mark::distance::{Difference, Distance};
use mark::palette::{first_minimum, Palette};
use mark::pixel::Rgb;
use rand::rngs::SmallRng;

/// A colour of one channel, and the plain distance on it.
#[derive(Clone, Copy, Debug, PartialEq)]
struct Level(i32);

struct Apart;

impl Difference<Level> for Apart {
    fn diff(a: Level, b: Level) -> Distance {
        Distance::from_bits(((a.0 - b.0).abs() as f32).to_bits())
    }
}

/// A metric that prefers what is far away.
struct Attracted;

impl Difference<Level> for Attracted {
    fn diff(a: Level, b: Level) -> Distance {
        Distance::from_bits((-((a.0 - b.0).abs() as f32)).to_bits())
    }
}

/// A metric that tells the order of its arguments.
struct TargetOnly;

impl Difference<Level> for TargetOnly {
    fn diff(a: Level, b: Level) -> Distance {
        Distance::from_bits(((a.0 * 1000 - b.0).abs() as f32).to_bits())
    }
}

impl WorkingColor for Level {
    fn to_space(rgb: Rgb) -> Self {
        Level(rgb.red as i32 + rgb.green as i32 + rgb.blue as i32)
    }

    fn from_space(self) -> Rgb {
        let v = (self.0 / 3).clamp(0, 255) as u8;
        Rgb { red: v, green: v, blue: v }
    }

    fn plus(self, other: Self) -> Self {
        Level(self.0 + other.0)
    }

    fn minus(self, other: Self) -> Self {
        Level(self.0 - other.0)
    }

    fn scaled(self, numerator: u8, denominator: u8) -> Self {
        Level(self.0 * numerator as i32 / denominator as i32)
    }

    fn clamped(self) -> Self {
        Level(self.0.clamp(0, 765))
    }

    fn noise(_: &mut SmallRng, _: u8) -> Self {
        Level(0)
    }
}

fn distances(values: &[f32]) -> Vec<Distance> {
    values.iter().map(|v| Distance::from_bits(v.to_bits())).collect()
}

fn levels(values: &[i32]) -> Palette<Level> {
    Palette::new(values.iter().map(|v| Level(*v)).collect())
}

#[test]
fn new_keeps_the_colors_in_order() {
    let palette = levels(&[5, 3, 9]);
    assert_eq!(palette.len(), 3);
    assert!(!palette.is_empty());
    assert_eq!(palette.color(0), Level(5));
    assert_eq!(palette.color(1), Level(3));
    assert_eq!(palette.color(2), Level(9));
    let empty: Palette<Level> = Palette::new(Vec::new());
    assert_eq!(empty.len(), 0);
    assert!(empty.is_empty());
}

#[test]
fn first_minimum_of_nothing_is_none() {
    assert_eq!(first_minimum(&Vec::new()), None);
}

#[test]
fn first_minimum_finds_the_least() {
    assert_eq!(first_minimum(&distances(&[4.0])), Some(0));
    assert_eq!(first_minimum(&distances(&[4.0, 2.0, 3.0])), Some(1));
    assert_eq!(first_minimum(&distances(&[4.0, 2.0, 3.0, 0.5])), Some(3));
    assert_eq!(first_minimum(&distances(&[0.25, 2.0, 3.0, 0.5])), Some(0));
}

#[test]
fn first_minimum_on_a_tie_is_the_earlier() {
    assert_eq!(first_minimum(&distances(&[2.0, 1.0, 1.0])), Some(1));
    assert_eq!(first_minimum(&distances(&[1.0, 1.0, 1.0, 1.0])), Some(0));
    assert_eq!(first_minimum(&distances(&[3.0, 0.0, 5.0, 0.0])), Some(1));
}

#[test]
fn first_minimum_follows_the_total_order() {
    let inf = f32::INFINITY;
    // Minus zero comes before plus zero, and a negative number before both.
    assert_eq!(first_minimum(&distances(&[0.0, -0.0, 1.0])), Some(1));
    assert_eq!(first_minimum(&distances(&[0.0, -0.0, -1.0, -inf])), Some(3));
    // A NaN with the sign bit clear comes after everything else.
    assert_eq!(first_minimum(&distances(&[f32::NAN, inf, 7.0])), Some(2));
    assert_eq!(first_minimum(&distances(&[f32::NAN, inf])), Some(1));
    assert_eq!(first_minimum(&distances(&[f32::NAN, f32::NAN])), Some(0));
    // And one with the sign bit set before everything else.
    assert_eq!(first_minimum(&distances(&[-inf, -f32::NAN, 0.0])), Some(1));
}

#[test]
fn first_minimum_agrees_with_min_by_total_cmp() {
    let values = [
        3.5,
        -0.0,
        0.0,
        1.0e-40,
        f32::MIN_POSITIVE,
        f32::MAX,
        f32::MIN,
        f32::INFINITY,
        f32::NEG_INFINITY,
        f32::NAN,
        -f32::NAN,
        2.0,
        2.0,
        -7.25,
    ];
    for start in 0..values.len() {
        for end in start + 1..=values.len() {
            let part = &values[start..end];
            let expect = part
                .iter()
                .enumerate()
                .min_by(|(_, a), (_, b)| a.total_cmp(b))
                .map(|(i, _)| i);
            assert_eq!(first_minimum(&distances(part)), expect, "{:?}", part);
        }
    }
}

#[test]
fn distances_are_measured_from_each_entry_to_the_target() {
    let palette = levels(&[1, 2, 3]);
    let found = palette.distances::<TargetOnly>(Level(7));
    let found: Vec<f32> = found.iter().map(|d| f32::from_bits(d.to_bits())).collect();
    assert_eq!(found, vec![993.0, 1993.0, 2993.0]);
    let none: Palette<Level> = Palette::new(Vec::new());
    assert!(none.distances::<Apart>(Level(7)).is_empty());
}

#[test]
fn nearest_returns_the_entry_that_equals_the_target() {
    let palette = levels(&[10, 40, 20, 30]);
    for v in [10, 40, 20, 30] {
        assert_eq!(palette.nearest::<Apart>(Level(v)), Level(v));
    }
}

#[test]
fn nearest_returns_the_closest_entry() {
    let palette = levels(&[10, 40, 20, 30]);
    assert_eq!(palette.nearest::<Apart>(Level(-100)), Level(10));
    assert_eq!(palette.nearest::<Apart>(Level(100)), Level(40));
    assert_eq!(palette.nearest::<Apart>(Level(23)), Level(20));
    assert_eq!(palette.nearest::<Apart>(Level(28)), Level(30));
    assert_eq!(palette.nearest::<Attracted>(Level(28)), Level(10));
    assert_eq!(levels(&[6]).nearest::<Apart>(Level(1000)), Level(6));
}

#[test]
fn nearest_between_two_entries_returns_the_one_given_first() {
    assert_eq!(levels(&[10, 20]).nearest::<Apart>(Level(15)), Level(10));
    assert_eq!(levels(&[20, 10]).nearest::<Apart>(Level(15)), Level(20));
    assert_eq!(levels(&[30, 20, 10, 0]).nearest::<Apart>(Level(15)), Level(20));
    assert_eq!(levels(&[0, 30, 10, 20]).nearest::<Apart>(Level(15)), Level(10));
}

#[test]
fn from_device_takes_each_color_into_the_space() {
    let colors = vec![
        Rgb { red: 1, green: 2, blue: 3 },
        Rgb { red: 255, green: 255, blue: 255 },
        Rgb { red: 0, green: 0, blue: 0 },
    ];
    let palette: Palette<Level> = Palette::from_device(&colors);
    assert_eq!(palette.len(), 3);
    assert_eq!(palette.color(0), Level(6));
    assert_eq!(palette.color(1), Level(765));
    assert_eq!(palette.color(2), Level(0));
    let none: Palette<Level> = Palette::from_device(&Vec::new());
    assert!(none.is_empty());
}
