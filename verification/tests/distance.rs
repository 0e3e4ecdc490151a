use mark::distance::Distance;
use std::cmp::Ordering;

fn of(value: f32) -> Distance {
    Distance::from_bits(value.to_bits())
}

const VALUES: [f32; 16] = [
    0.0,
    -0.0,
    1.0,
    -1.0,
    0.5,
    1.0e-40,
    -1.0e-40,
    f32::MIN_POSITIVE,
    f32::EPSILON,
    f32::MAX,
    f32::MIN,
    f32::INFINITY,
    f32::NEG_INFINITY,
    f32::NAN,
    3.4028235e30,
    255.0,
];

#[test]
fn from_bits_and_to_bits_are_inverse() {
    for bits in [0u32, 1, 0x3f80_0000, 0x7f80_0000, 0x7fff_ffff, 0x8000_0000, 0xffff_ffff] {
        assert_eq!(Distance::from_bits(bits).to_bits(), bits);
        assert_eq!(Distance::from_bits(bits), Distance { bits });
    }
}

#[test]
fn precedes_is_the_total_order_of_the_numbers() {
    let mut values = VALUES.to_vec();
    values.push(-f32::NAN);
    values.push(f32::from_bits(0x7f80_0001));
    values.push(f32::from_bits(0xff80_0001));
    for a in &values {
        for b in &values {
            let expect = a.total_cmp(b) == Ordering::Less;
            assert_eq!(of(*a).precedes(of(*b)), expect, "{:e} before {:e}", a, b);
        }
    }
}

#[test]
fn precedes_is_strict() {
    for a in VALUES {
        assert!(!of(a).precedes(of(a)));
    }
}

#[test]
fn precedes_at_the_ends_of_the_order() {
    let least = Distance::from_bits(0xffff_ffff);
    let most = Distance::from_bits(0x7fff_ffff);
    assert!(least.precedes(most));
    assert!(!most.precedes(least));
    assert!(least.precedes(Distance::from_bits(0xffff_fffe)));
    assert!(Distance::from_bits(0x8000_0000).precedes(Distance::from_bits(0)));
    assert!(Distance::from_bits(0x7fff_fffe).precedes(most));
}
