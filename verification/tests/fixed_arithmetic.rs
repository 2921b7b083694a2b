use physics::fixed::{Fixed, MAX_RAW, MIN_RAW, ONE_RAW};

#[test]
fn sum_of_whole_numbers() {
    let a = Fixed::from_int(3);
    let b = Fixed::from_int(4);
    assert_eq!(a.plus(b), Fixed::from_int(7));
}

#[test]
fn sum_saturates_at_both_ends() {
    let top = Fixed::from_raw(MAX_RAW);
    let bottom = Fixed::from_raw(MIN_RAW);
    assert_eq!(top.plus(Fixed::one()).raw, MAX_RAW);
    assert_eq!(bottom.minus(Fixed::one()).raw, MIN_RAW);
    assert_eq!(bottom.neg().raw, MAX_RAW);
    assert_eq!(bottom.abs().raw, MAX_RAW);
}

#[test]
fn product_rounds_toward_zero() {
    let half = Fixed::from_raw(ONE_RAW / 2);
    assert_eq!(Fixed::from_raw(3).times(half).raw, 1);
    assert_eq!(Fixed::from_raw(-3).times(half).raw, -1);
    assert_eq!(Fixed::from_int(6).times(Fixed::from_int(-7)), Fixed::from_int(-42));
}

#[test]
fn quotient_rounds_toward_zero() {
    assert_eq!(Fixed::from_int(7).over(Fixed::from_int(2)).raw, 7 * ONE_RAW / 2);
    assert_eq!(Fixed::from_raw(7).over(Fixed::from_int(2)).raw, 3);
    assert_eq!(Fixed::from_raw(-7).over(Fixed::from_int(2)).raw, -3);
    assert_eq!(Fixed::from_raw(7).over(Fixed::from_int(-2)).raw, -3);
    assert_eq!(Fixed::from_raw(-7).over(Fixed::from_int(-2)).raw, 3);
}

#[test]
fn quotient_saturates() {
    let tiny = Fixed::from_raw(1);
    assert_eq!(Fixed::from_int(1).over(tiny).raw, MAX_RAW);
    assert_eq!(Fixed::from_int(-1).over(tiny).raw, MIN_RAW);
}

#[test]
fn nearness_is_exact_at_the_ends_of_the_range() {
    let top = Fixed::from_raw(MAX_RAW);
    let bottom = Fixed::from_raw(MIN_RAW);
    assert!(!top.is_near(bottom, top));
    assert!(top.is_near(top, Fixed::zero()));
    assert!(Fixed::from_int(3).is_near(Fixed::from_int(5), Fixed::from_int(2)));
    assert!(!Fixed::from_int(3).is_near(Fixed::from_int(5), Fixed::from_raw(2 * ONE_RAW - 1)));
    assert!(!Fixed::from_int(3).is_near(Fixed::from_int(3), Fixed::from_raw(-1)));
}

#[test]
fn whole_numbers_and_order() {
    assert_eq!(Fixed::from_int(-2).raw, -2 * ONE_RAW);
    assert_eq!(Fixed::one().raw, ONE_RAW);
    assert_eq!(Fixed::zero().raw, 0);
    assert!(Fixed::from_int(-2).lt(Fixed::from_int(1)));
    assert!(Fixed::from_int(1).le(Fixed::from_int(1)));
    assert!(!Fixed::from_int(1).lt(Fixed::from_int(1)));
}
