use mark::kernel::{floyd_steinberg_taps, stucki_taps, Tap, FLOYD_STEINBERG_BASE, STUCKI_BASE};

fn tap(dx: i32, dy: i32, weight: u8) -> Tap {
    Tap { dx, dy, weight }
}

#[test]
fn floyd_steinberg_has_four_neighbors() {
    assert_eq!(
        floyd_steinberg_taps(),
        vec![tap(1, 0, 7), tap(-1, 1, 3), tap(0, 1, 5), tap(1, 1, 1)]
    );
    assert_eq!(FLOYD_STEINBERG_BASE, 16);
}

#[test]
fn stucki_has_twelve_neighbors() {
    assert_eq!(
        stucki_taps(),
        vec![
            tap(1, 0, 8),
            tap(2, 0, 4),
            tap(-2, 1, 2),
            tap(-1, 1, 4),
            tap(0, 1, 8),
            tap(1, 1, 4),
            tap(2, 1, 2),
            tap(-2, 2, 1),
            tap(-1, 2, 2),
            tap(0, 2, 4),
            tap(1, 2, 2),
            tap(2, 2, 1),
        ]
    );
    assert_eq!(STUCKI_BASE, 42);
}

#[test]
fn the_shares_of_a_kernel_add_up_to_one() {
    let sum = |taps: Vec<Tap>| taps.iter().map(|t| t.weight as u32).sum::<u32>();
    assert_eq!(sum(floyd_steinberg_taps()), FLOYD_STEINBERG_BASE as u32);
    assert_eq!(sum(stucki_taps()), STUCKI_BASE as u32);
}

#[test]
fn every_neighbor_comes_later_in_raster_order() {
    for t in floyd_steinberg_taps().into_iter().chain(stucki_taps()) {
        assert!(t.dy > 0 || (t.dy == 0 && t.dx > 0), "{:?}", t);
    }
}
