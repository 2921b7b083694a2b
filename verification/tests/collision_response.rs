use physics::collision::{contact, impulses, rebound, Contact};
use physics::fixed::{Fixed, ONE_RAW};
use physics::vec2::Vec2;

const EPSILON: i64 = 512;
const HALF: i64 = ONE_RAW / 2;

fn v(x: i32, y: i32) -> Vec2 {
    Vec2::new(Fixed::from_int(x), Fixed::from_int(y))
}

fn as_real(value: Fixed) -> f64 {
    value.raw as f64 / ONE_RAW as f64
}

fn overlap_of_two_tens() -> Contact {
    contact(v(0, 0), Fixed::from_int(10), v(15, 0), Fixed::from_int(10), Fixed::from_raw(EPSILON))
        .unwrap()
}

#[test]
fn circles_apart_have_no_contact() {
    let eps = Fixed::from_raw(EPSILON);
    assert!(contact(v(0, 0), Fixed::from_int(10), v(25, 0), Fixed::from_int(10), eps).is_none());
    assert!(contact(v(0, 0), Fixed::from_int(10), v(20, 0), Fixed::from_int(10), eps).is_none());
    assert!(contact(v(0, 0), Fixed::from_int(10), v(12, 16), Fixed::from_int(10), eps).is_none());
    assert!(contact(v(0, 0), Fixed::from_int(0), v(0, 0), Fixed::from_int(0), eps).is_none());
}

#[test]
fn contact_gives_normal_and_penetration() {
    let found = overlap_of_two_tens();
    assert_eq!(found.penetration.raw, 5 * ONE_RAW - EPSILON);
    assert_eq!(found.normal.x.raw, -4294967261);
    assert_eq!(found.normal.y.raw, 0);
    let diagonal =
        contact(v(3, 4), Fixed::from_int(5), v(0, 0), Fixed::from_int(5), Fixed::from_raw(EPSILON))
            .unwrap();
    assert!((as_real(diagonal.normal.x) - 0.6).abs() < 1e-6);
    assert!((as_real(diagonal.normal.y) - 0.8).abs() < 1e-6);
    assert!((as_real(diagonal.penetration) - 5.0).abs() < 1e-6);
}

#[test]
fn coincident_centres_give_a_finite_response() {
    let found =
        contact(v(7, 7), Fixed::from_int(10), v(7, 7), Fixed::from_int(10), Fixed::from_raw(EPSILON))
            .unwrap();
    assert_eq!(found.normal, v(0, 0));
    assert_eq!(found.penetration.raw, 20 * ONE_RAW - EPSILON);
    let moves = found.corrections(Fixed::from_raw(HALF));
    assert_eq!(moves.0, v(0, 0));
    assert_eq!(moves.1, v(0, 0));
}

#[test]
fn overlapping_circles_separate_symmetrically() {
    let found = overlap_of_two_tens();
    let moves = found.corrections(Fixed::from_raw(HALF));
    assert_eq!(moves.0.x.raw, -10737417896);
    assert_eq!(moves.0.y.raw, 0);
    assert_eq!(moves.1, moves.0.neg());
    let magnitude = as_real(moves.0.length());
    assert!((magnitude - as_real(found.penetration) / 2.0).abs() < 1e-6);
    let first = v(0, 0).plus(moves.0);
    let second = v(15, 0).plus(moves.1);
    let distance = as_real(first.minus(second).length());
    assert!(distance >= 19.999);
    assert!(distance <= 20.0);
}

#[test]
fn elastic_head_on_collision_of_equal_masses_swaps_velocities() {
    let one = Fixed::from_int(1);
    let after = rebound(one, Fixed::from_int(1), one, Fixed::from_int(-1), one);
    assert_eq!(after, (Fixed::from_int(-1), Fixed::from_int(1)));

    let found = overlap_of_two_tens();
    let v1 = v(1, 0).dot(found.normal);
    let v2 = v(-1, 0).dot(found.normal);
    let along = rebound(one, v1, one, v2, one);
    let first = found.normal.scale(along.0);
    let second = found.normal.scale(along.1);
    assert!((as_real(first.x) + 1.0).abs() < 1e-6 && first.y.raw == 0);
    assert!((as_real(second.x) - 1.0).abs() < 1e-6 && second.y.raw == 0);
}

#[test]
fn elastic_rebound_keeps_the_momentum() {
    let m1 = Fixed::from_int(2);
    let m2 = Fixed::from_int(5);
    let v1 = Fixed::from_int(3);
    let v2 = Fixed::from_int(-1);
    let after = rebound(m1, v1, m2, v2, Fixed::from_int(1));
    let before = as_real(m1) * as_real(v1) + as_real(m2) * as_real(v2);
    let sum = as_real(m1) * as_real(after.0) + as_real(m2) * as_real(after.1);
    assert!((before - sum).abs() < 1e-6);
    assert!((as_real(after.0) - (1.0 - 5.0 * 4.0) / 7.0).abs() < 1e-6);
    assert!((as_real(after.1) - (1.0 + 2.0 * 4.0) / 7.0).abs() < 1e-6);
}

#[test]
fn inelastic_rebound_is_shared() {
    let zero = Fixed::zero();
    let after = rebound(Fixed::from_int(2), Fixed::from_int(3), Fixed::from_int(5), Fixed::from_int(-1), zero);
    assert_eq!(after.0, after.1);
    assert_eq!(after.0.raw, 613566756);
    let other = rebound(
        Fixed::from_int(3),
        Fixed::from_raw(3 * HALF),
        Fixed::from_int(1),
        Fixed::from_raw(-9 * ONE_RAW / 4),
        zero,
    );
    assert_eq!(other.0, other.1);
    assert_eq!(other.0.raw, 2415919104);
}

#[test]
fn half_restitution_lies_between() {
    let after = rebound(
        Fixed::from_int(1),
        Fixed::from_int(1),
        Fixed::from_int(1),
        Fixed::from_int(-1),
        Fixed::from_raw(HALF),
    );
    assert_eq!(after, (Fixed::from_raw(-HALF), Fixed::from_raw(HALF)));
}

#[test]
fn impulses_are_damped_changes_along_the_normal() {
    let found = overlap_of_two_tens();
    let one = Fixed::from_int(1);
    let changes = impulses(found, v(1, 0), one, v(-1, 0), one, one, Fixed::from_raw(HALF));
    assert_eq!(changes.0.x.raw, -4294967226);
    assert_eq!(changes.0.y.raw, 0);
    assert_eq!(changes.1.x.raw, 4294967226);
    assert_eq!(changes.1.y.raw, 0);
    let still = impulses(found, v(0, 3), one, v(0, -3), one, one, Fixed::from_raw(HALF));
    assert_eq!(still.0, v(0, 0));
    assert_eq!(still.1, v(0, 0));
}

fn momentum_change(m1: i64, v1: i64, m2: i64, v2: i64, e: i64) -> i128 {
    let after = rebound(
        Fixed::from_raw(m1),
        Fixed::from_raw(v1),
        Fixed::from_raw(m2),
        Fixed::from_raw(v2),
        Fixed::from_raw(e),
    );
    let before = m1 as i128 * v1 as i128 + m2 as i128 * v2 as i128;
    m1 as i128 * after.0.raw as i128 + m2 as i128 * after.1.raw as i128 - before
}

#[test]
fn rebound_keeps_the_momentum_within_the_rounding_bound() {
    let limit: i64 = 1 << 46;
    let masses = [1, 2, 3, 1000, ONE_RAW, 5 * ONE_RAW / 3, limit - 1, limit];
    let speeds = [0, 1, -1, 7, -ONE_RAW, 3 * ONE_RAW / 7, -limit, limit, limit - 5];
    let shares = [0, 1, ONE_RAW / 3, HALF, ONE_RAW - 1, ONE_RAW];
    for m1 in masses {
        for m2 in masses {
            for v1 in speeds {
                for v2 in speeds {
                    for e in shares {
                        let bound = 4 * ONE_RAW as i128 + m1 as i128 + m2 as i128;
                        assert!(momentum_change(m1, v1, m2, v2, e).abs() < bound);
                    }
                }
            }
        }
    }
}

#[test]
fn changes_of_velocity_of_a_pair_carry_opposite_momenta() {
    let found = overlap_of_two_tens();
    let m1 = Fixed::from_int(3);
    let m2 = Fixed::from_int(5);
    for e in [0, HALF, ONE_RAW] {
        let changes = impulses(
            found,
            v(7, -2),
            m1,
            v(-4, 9),
            m2,
            Fixed::from_raw(e),
            Fixed::from_raw(HALF),
        );
        let bound = 4 * ONE_RAW as i128 + 3 * (m1.raw as i128 + m2.raw as i128);
        let x = m1.raw as i128 * changes.0.x.raw as i128 + m2.raw as i128 * changes.1.x.raw as i128;
        let y = m1.raw as i128 * changes.0.y.raw as i128 + m2.raw as i128 * changes.1.y.raw as i128;
        assert!(x.abs() < bound && y.abs() < bound);
        assert!(changes.0.x.raw != 0);
    }
}

#[test]
fn contact_normals_are_at_most_one_long() {
    let eps = Fixed::from_raw(EPSILON);
    for (x, y) in [(1, 0), (0, -1), (3, 4), (-6, 8), (1, 1), (-7, -7)] {
        let found = contact(v(x, y), Fixed::from_int(20), v(0, 0), Fixed::from_int(20), eps).unwrap();
        assert!(found.normal.x.raw.abs() <= ONE_RAW && found.normal.y.raw.abs() <= ONE_RAW);
        assert!(found.normal.length().raw <= ONE_RAW);
    }
}
