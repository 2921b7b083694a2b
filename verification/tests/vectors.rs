use physics::fixed::{Fixed, MAX_RAW, MIN_RAW, ONE_RAW};
use physics::sqrt::isqrt;
use physics::vec2::Vec2;

fn v(x: i32, y: i32) -> Vec2 {
    Vec2::new(Fixed::from_int(x), Fixed::from_int(y))
}

#[test]
fn integer_square_roots() {
    assert_eq!(isqrt(0), 0);
    assert_eq!(isqrt(1), 1);
    assert_eq!(isqrt(3), 1);
    assert_eq!(isqrt(4), 2);
    assert_eq!(isqrt(99), 9);
    assert_eq!(isqrt(100), 10);
    assert_eq!(isqrt(u128::MAX), u64::MAX);
    assert_eq!(isqrt((1u128 << 64) - 1), (1u64 << 32) - 1);
}

#[test]
fn length_of_three_four_is_five() {
    assert_eq!(v(3, 4).length(), Fixed::from_int(5));
    assert_eq!(v(-3, 4).length(), Fixed::from_int(5));
    assert_eq!(v(0, 0).length(), Fixed::zero());
}

#[test]
fn length_rounds_down_and_saturates() {
    let diagonal = Vec2::new(Fixed::from_raw(1), Fixed::from_raw(1));
    assert_eq!(diagonal.length().raw, 1);
    let huge = Vec2::new(Fixed::from_raw(MIN_RAW), Fixed::from_raw(MIN_RAW));
    assert_eq!(huge.length().raw, MAX_RAW);
    let flat = Vec2::new(Fixed::from_raw(MIN_RAW), Fixed::zero());
    assert_eq!(flat.length().raw, MAX_RAW);
}

#[test]
fn componentwise_operations() {
    assert_eq!(v(1, 2).plus(v(10, 20)), v(11, 22));
    assert_eq!(v(1, 2).minus(v(10, 20)), v(-9, -18));
    assert_eq!(v(1, -2).neg(), v(-1, 2));
    assert_eq!(v(3, -5).scale(Fixed::from_int(2)), v(6, -10));
    assert_eq!(v(6, -10).div(Fixed::from_int(2)), v(3, -5));
    assert_eq!(v(1, 2).dot(v(3, 4)), Fixed::from_int(11));
    assert_eq!(Vec2::zero(), v(0, 0));
    let half = Fixed::from_raw(ONE_RAW / 2);
    assert_eq!(v(3, 0).scale(half).x.raw, 3 * ONE_RAW / 2);
}
