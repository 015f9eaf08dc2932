use skeleton_solver::fixed::{div_trunc, isqrt, ONE};
use skeleton_solver::heading::{compose_exec, unit_from, Heading};
use skeleton_solver::vec2::Vec2;

#[test]
fn isqrt_exact_squares() {
    assert_eq!(isqrt(0), 0);
    assert_eq!(isqrt(1), 1);
    assert_eq!(isqrt(144), 12);
    assert_eq!(isqrt((1u128 << 120) - 1), (1u64 << 60) - 1);
}

#[test]
fn isqrt_rounds_down() {
    assert_eq!(isqrt(2), 1);
    assert_eq!(isqrt(99), 9);
    assert_eq!(isqrt(10_000_000_001), 100_000);
}

#[test]
fn div_trunc_rounds_toward_zero() {
    assert_eq!(div_trunc(7, 2), 3);
    assert_eq!(div_trunc(-7, 2), -3);
    assert_eq!(div_trunc(6, 3), 2);
    assert_eq!(div_trunc(-6, 3), -2);
}

#[test]
fn distance_of_three_four_five_triangle() {
    let a = Vec2 { x: 0, y: 0 };
    let b = Vec2 { x: 3 * ONE, y: 4 * ONE };
    assert_eq!(a.distance(&b), 5 * ONE);
    assert_eq!(a.distance_squared(&b), 25 * (ONE as i128) * (ONE as i128));
}

#[test]
fn unit_from_normalises_a_three_four_displacement() {
    let h = unit_from(3, 4);
    // 3/5 and 4/5 of one fixed-point unit, rounded toward zero.
    assert_eq!(h.c, 3 * ONE / 5);
    assert_eq!(h.s, 4 * ONE / 5);
}

#[test]
fn unit_from_zero_falls_back_to_x_axis() {
    let h = unit_from(0, 0);
    assert_eq!(h, Heading { c: ONE, s: 0 });
}

#[test]
fn compose_quarter_turns() {
    let east = Heading { c: ONE, s: 0 };
    let north = Heading { c: 0, s: ONE };
    // A quarter turn after a quarter turn points west.
    let west = compose_exec(&north, &north);
    assert_eq!(west, Heading { c: -ONE, s: 0 });
    // The x-axis is the identity for exactly representable directions.
    assert_eq!(compose_exec(&north, &east), north);
    assert_eq!(compose_exec(&east, &east), east);
}

#[test]
fn reversed_mirrors_the_sine() {
    let north = Heading { c: 0, s: ONE };
    assert_eq!(north.reversed(), Heading { c: 0, s: -ONE });
}
