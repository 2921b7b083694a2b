use physics::ball::Ball;
use physics::fixed::{Fixed, ONE_RAW};
use physics::particle::Particle;
use physics::vec2::Vec2;

fn v(x: i32, y: i32) -> Vec2 {
    Vec2::new(Fixed::from_int(x), Fixed::from_int(y))
}

fn ball(x: i32, y: i32, radius: i32, vx: i32, vy: i32) -> Ball {
    Ball::new(v(x, y), Fixed::from_int(1), Fixed::from_int(radius), v(vx, vy))
}

#[test]
fn ball_moves_at_its_velocity() {
    let mut b = ball(1, 2, 1, 3, -4);
    b.integrate(Fixed::from_raw(ONE_RAW / 2));
    assert_eq!(b.pos.x.raw, 10737418240);
    assert_eq!(b.pos.y.raw, 0);
    assert_eq!(b.vel, v(3, -4));
}

#[test]
fn ball_takes_displacement_acceleration_force_and_velocity() {
    let mut b = Ball::new(v(0, 0), Fixed::from_int(2), Fixed::from_int(1), v(1, 1));
    b.displace(v(5, -5));
    assert_eq!(b.pos, v(5, -5));
    assert_eq!(b.vel, v(1, 1));
    b.apply_acceleration(v(0, -10));
    assert_eq!(b.vel, v(1, -9));
    b.apply_force(v(6, -3));
    assert_eq!(b.vel.x.raw, 4 * ONE_RAW);
    assert_eq!(b.vel.y.raw, -21 * ONE_RAW / 2);
    b.apply_velocity(v(-4, 0));
    assert_eq!(b.vel.x.raw, 0);
    assert_eq!(b.pos, v(5, -5));
    assert_eq!(b.mass, Fixed::from_int(2));
    assert_eq!(b.radius, Fixed::from_int(1));
}

#[test]
fn left_wall_cancels_the_penetration() {
    let mut b = ball(-5, 50, 10, -3, 2);
    b.constrain(Fixed::from_int(800));
    assert_eq!(b.pos, v(10, 50));
    assert_eq!(b.pos.x.minus(b.radius), Fixed::zero());
    assert_eq!(b.vel, v(3, 2));
}

#[test]
fn floor_cancels_the_penetration() {
    let mut b = ball(50, 4, 10, -3, -2);
    b.constrain(Fixed::from_int(800));
    assert_eq!(b.pos, v(50, 10));
    assert_eq!(b.vel, v(-3, 2));
}

#[test]
fn right_wall_cancels_the_penetration() {
    let mut b = ball(795, 50, 10, 7, 2);
    b.constrain(Fixed::from_int(800));
    assert_eq!(b.pos, v(790, 50));
    assert_eq!(b.vel, v(-7, 2));
}

#[test]
fn nothing_holds_a_ball_from_above() {
    let mut b = ball(50, 100000, 10, 0, 9);
    let before = b;
    b.constrain(Fixed::from_int(800));
    assert_eq!(b, before);
}

#[test]
fn ball_inside_or_touching_is_left_alone() {
    for (x, y) in [(10, 10), (400, 10), (790, 300), (10, 300)] {
        let mut b = ball(x, y, 10, 1, -1);
        let before = b;
        b.constrain(Fixed::from_int(800));
        assert_eq!(b, before);
    }
}

#[test]
fn second_wall_pass_changes_nothing() {
    let starts = [
        ball(-5, 50, 10, -3, 2),
        ball(50, -4, 10, -3, -2),
        ball(795, 50, 10, 7, 2),
        ball(-5, -5, 10, 1, 1),
        ball(900, -900, 10, 1, 1),
        ball(5, 5, 10, 2, 3),
        ball(30, 5, 10, 2, 3),
        ball(-30, 5, 10, 2, 3),
    ];
    for width in [800, 15, 0, -20] {
        for start in starts {
            let mut once = start;
            once.constrain(Fixed::from_int(width));
            let mut twice = once;
            twice.constrain(Fixed::from_int(width));
            assert_eq!(twice, once);
        }
    }
}

#[test]
fn particle_starts_at_rest() {
    let p = Particle::new(4, v(3, 9), Fixed::from_int(1), Fixed::from_int(20));
    assert_eq!(p.id, 4);
    assert_eq!(p.pos, v(3, 9));
    assert_eq!(p.pos_last, v(3, 9));
    assert_eq!(p.accel, v(0, 0));
    assert_eq!(p.velocity(), v(0, 0));
    let b = p.as_ball();
    assert_eq!(b.pos, v(3, 9));
    assert_eq!(b.vel, v(0, 0));
    assert_eq!(b.radius, Fixed::from_int(20));
}

#[test]
fn particle_moves_on_by_its_implied_velocity() {
    let mut p = Particle::new(0, v(10, 10), Fixed::from_int(1), Fixed::from_int(1));
    p.pos_last = v(9, 12);
    p.apply_acceleration(Vec2::new(Fixed::zero(), Fixed::from_raw(-42090679501)));
    p.integrate(Fixed::from_raw(429496730));
    assert_eq!(p.pos_last, v(10, 10));
    assert_eq!(p.pos.x.raw, 47244640256);
    assert_eq!(p.pos.y.raw, 33938831573);
    assert_eq!(p.accel, v(0, 0));
    assert_eq!(p.velocity().x.raw, ONE_RAW);
}

#[test]
fn particle_displacement_carries_a_share_to_the_previous_position() {
    let mut p = Particle::new(0, v(10, 10), Fixed::from_int(1), Fixed::from_int(1));
    p.displace(v(4, -8), Fixed::from_raw(ONE_RAW / 4));
    assert_eq!(p.pos, v(14, 2));
    assert_eq!(p.pos_last, v(11, 8));
    let mut q = Particle::new(0, v(10, 10), Fixed::from_int(1), Fixed::from_int(1));
    q.displace(v(4, -8), Fixed::zero());
    assert_eq!(q.velocity(), v(4, -8));
    let mut r = Particle::new(0, v(10, 10), Fixed::from_int(1), Fixed::from_int(1));
    r.displace(v(4, -8), Fixed::from_int(1));
    assert_eq!(r.velocity(), v(0, 0));
}

#[test]
fn particle_force_is_divided_by_the_mass() {
    let mut p = Particle::new(0, v(0, 0), Fixed::from_int(2), Fixed::from_int(1));
    p.apply_force(v(6, -3));
    assert_eq!(p.accel.x.raw, 3 * ONE_RAW);
    assert_eq!(p.accel.y.raw, -3 * ONE_RAW / 2);
}

#[test]
fn particle_walls_move_the_position_only() {
    let mut p = Particle::new(0, v(-5, 4), Fixed::from_int(1), Fixed::from_int(10));
    p.constrain(Fixed::from_int(800));
    assert_eq!(p.pos, v(10, 10));
    assert_eq!(p.pos_last, v(-5, 4));
    let once = p;
    p.constrain(Fixed::from_int(800));
    assert_eq!(p, once);
    let mut q = Particle::new(0, v(795, 40), Fixed::from_int(1), Fixed::from_int(10));
    q.constrain(Fixed::from_int(800));
    assert_eq!(q.pos, v(790, 40));
}
