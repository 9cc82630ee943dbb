use mandelbrot::escape::{mand, Escape};
use mandelbrot::fixed::{isqrt, ONE};
use mandelbrot::palette::{colormap, interpolate, Rgb, PHASE_STEPS};

const BLACK: Rgb = Rgb { r: 0, g: 0, b: 0 };

#[test]
fn origin_is_bounded_and_black() {
    let e = mand(0, 0, 200);
    assert_eq!(e, Escape::Bounded);
    for phase in [0u32, 1, 512, 1023] {
        assert_eq!(colormap(e, phase), BLACK);
    }
}

#[test]
fn far_point_escapes_at_once() {
    assert_eq!(mand(3 * ONE, 0, 200), Escape::Smooth(ONE as u128));
    assert_eq!(mand(0, -3 * ONE, 200), Escape::Smooth(ONE as u128));
    // |c|^2 = 1.5^2 + 1.5^2 = 4.5 > 4, though each coordinate is below 2.
    assert_eq!(mand(3 * ONE / 2, 3 * ONE / 2, 200), Escape::Smooth(ONE as u128));
    // Far outside the range that the squares could hold.
    assert_eq!(mand(i128::MAX, i128::MIN, 200), Escape::Smooth(ONE as u128));
}

#[test]
fn cusp_point_stays_bounded() {
    assert_eq!(mand(ONE / 4, 0, 2), Escape::Bounded);
    assert_eq!(mand(ONE / 4, 0, 2000), Escape::Bounded);
}

#[test]
fn classic_escape_point() {
    // Orbit 1, 2, 5: |z|^2 passes 4 at step 2, from exactly 4, so the count is 2.
    match mand(ONE, 0, 200) {
        Escape::Smooth(s) => {
            assert!(s > 0);
            assert_eq!(s, 2 * ONE as u128);
        }
        Escape::Bounded => panic!("c = 1 escapes"),
    }
}

#[test]
fn smooth_count_interpolates_between_magnitudes() {
    // c = 0.5: orbit 0.5, 0.75, 1.0625, 1.6289..., 3.1533...; escapes at step 4
    // with a fractional part strictly between 0 and 1.
    match mand(ONE / 2, 0, 200) {
        Escape::Smooth(s) => {
            assert!(s > 4 * ONE as u128);
            assert!(s < 5 * ONE as u128);
        }
        Escape::Bounded => panic!("c = 0.5 escapes"),
    }
}

#[test]
fn escape_result_stable_under_larger_bound() {
    let c = (ONE / 2, ONE / 3);
    let first = mand(c.0, c.1, 20);
    assert!(matches!(first, Escape::Smooth(_)));
    for n in [20u64, 21, 50, 200, 1000] {
        assert_eq!(mand(c.0, c.1, n), first);
    }
    // Bounded under a large bound: bounded under every smaller one.
    for n in [2u64, 3, 10, 100] {
        assert_eq!(mand(-ONE, 0, n), Escape::Bounded);
    }
}

#[test]
fn bound_is_inclusive() {
    // c = 1 escapes at step 2: with bound 1 steps 0 and 1 run, and it is bounded.
    assert_eq!(mand(ONE, 0, 1), Escape::Bounded);
    assert_eq!(mand(ONE, 0, 2), Escape::Smooth(2 * ONE as u128));
}

#[test]
fn palette_starts_at_first_key() {
    assert_eq!(colormap(Escape::Smooth(0), 0), Rgb { r: 184, g: 141, b: 242 });
}

#[test]
fn palette_halfway_between_keys() {
    // s = 10 gives position 0.5: halfway from the first key to the second.
    let c = colormap(Escape::Smooth(10 * ONE as u128), 0);
    assert_eq!(c, Rgb { r: 213, g: 137, b: 234 });
}

#[test]
fn palette_wraps_from_last_key_to_first() {
    // Position 4.5: halfway from the last key back to the first.
    let c = colormap(Escape::Smooth(90 * ONE as u128), 0);
    assert_eq!(c, Rgb { r: 212, g: 95, b: 169 });
    // Position 5 is the first key again.
    assert_eq!(colormap(Escape::Smooth(100 * ONE as u128), 0), Rgb { r: 184, g: 141, b: 242 });
}

#[test]
fn rotation_shifts_palette() {
    // A quarter turn is 1.25 keys: position 1.25.
    let c = colormap(Escape::Smooth(0), 256);
    assert_eq!(c.r, interpolate(242, 236, ONE as u128 / 4));
    assert_eq!(c.g, interpolate(133, 218, ONE as u128 / 4));
    assert_eq!(c.b, interpolate(226, 242, ONE as u128 / 4));
    assert_ne!(c, colormap(Escape::Smooth(0), 0));
}

#[test]
fn full_rotation_gives_same_colour() {
    for s in [0u128, 12345678901234567, 7 * ONE as u128, 123 * ONE as u128 + 99] {
        for phase in [0u32, 3, 700] {
            assert_eq!(
                colormap(Escape::Smooth(s), phase),
                colormap(Escape::Smooth(s), phase + PHASE_STEPS)
            );
        }
    }
}

#[test]
fn palette_changes_by_at_most_one_per_step() {
    let mut prev = colormap(Escape::Smooth(0), 0);
    let step = (ONE as u128) * 20 / 64;
    for k in 1..=64u128 * 6 {
        let c = colormap(Escape::Smooth(k * step), 0);
        assert!((c.r as i32 - prev.r as i32).abs() <= 5);
        assert!((c.g as i32 - prev.g as i32).abs() <= 5);
        assert!((c.b as i32 - prev.b as i32).abs() <= 5);
        prev = c;
    }
    // Right before a key and at the key: at most one apart.
    let before = colormap(Escape::Smooth(20 * ONE as u128 - 20), 0);
    let at = colormap(Escape::Smooth(20 * ONE as u128), 0);
    assert!((before.r as i32 - at.r as i32).abs() <= 1);
    assert!((before.g as i32 - at.g as i32).abs() <= 1);
    assert!((before.b as i32 - at.b as i32).abs() <= 1);
}

#[test]
fn escaped_points_are_never_black() {
    for s in [0u128, 1, ONE as u128, 17 * ONE as u128 / 3, 99 * ONE as u128] {
        for phase in [0u32, 100, 1023] {
            assert_ne!(colormap(Escape::Smooth(s), phase), BLACK);
        }
    }
}

#[test]
fn interpolate_endpoints() {
    assert_eq!(interpolate(10, 200, 0), 10);
    assert_eq!(interpolate(200, 10, 0), 200);
    assert_eq!(interpolate(0, 255, ONE as u128 - 1), 254);
    assert_eq!(interpolate(255, 0, ONE as u128 - 1), 0);
    assert_eq!(interpolate(100, 100, ONE as u128 / 3), 100);
}

#[test]
fn integer_square_root() {
    assert_eq!(isqrt(0), 0);
    assert_eq!(isqrt(15), 3);
    assert_eq!(isqrt(16), 4);
    let big = (ONE as u128) * (ONE as u128) * 4;
    assert_eq!(isqrt(big), 2 * ONE as u128);
    assert_eq!(isqrt(big - 1), 2 * ONE as u128 - 1);
}

#[test]
fn interpolate_clamps_beyond_the_segment() {
    let one = ONE as u128;
    assert_eq!(interpolate(184, 242, one / 2), 213);
    assert_eq!(interpolate(97, 242, one / 2), 169);
    assert_eq!(interpolate(0, 255, one), 255);
    assert_eq!(interpolate(255, 0, one), 0);
    assert_eq!(interpolate(0, 255, 2 * one), 255);
    assert_eq!(interpolate(255, 0, 2 * one), 0);
    // 100 + 50 * 1.5 = 175: extrapolation inside the range is not clamped.
    assert_eq!(interpolate(100, 150, 3 * one / 2), 175);
    assert_eq!(interpolate(10, 0, mandelbrot::palette::MAX_FRACTION), 0);
}

#[test]
fn rotation_moves_colour_gradually() {
    for s in [0u128, 5 * ONE as u128, 77 * ONE as u128 / 3] {
        for (p1, p2) in [(0u32, 1u32), (10, 13), (100, 400), (1000, 1023)] {
            let a = colormap(Escape::Smooth(s), p1);
            let b = colormap(Escape::Smooth(s), p2);
            let k = (p2 - p1) as i64;
            for (x, y) in [(a.r, b.r), (a.g, b.g), (a.b, b.b)] {
                assert!(1024 * (x as i64 - y as i64).abs() < 860 * k + 1024);
            }
        }
    }
}
