use physics::ball::{disc_mass, Ball};
use physics::broad_phase::{
    build_chain_axis, build_range_axis, candidates, chain_candidates, chain_pass, holds,
    insert_ascending, radii_fit, range_candidates, range_pass, visit_listed,
};
use physics::config::{Config, Strategy};
use physics::fixed::{Fixed, ONE_RAW};
use physics::particle_world::ParticleWorld;
use physics::response::{exhaustive_pass, responses, visit, zero_buffers};
use physics::vec2::Vec2;
use physics::world::{mean_speed, World};

fn v(x: i32, y: i32) -> Vec2 {
    Vec2::new(Fixed::from_int(x), Fixed::from_int(y))
}

struct Lcg(u64);

impl Lcg {
    fn next(&mut self, bound: i64) -> i64 {
        self.0 = self.0.wrapping_mul(6364136223846793005).wrapping_add(1442695040888963407);
        ((self.0 >> 1) as i64) % bound
    }
}

fn crowd(seed: u64, count: usize, side: i64, max_radius: i64) -> Vec<Ball> {
    let mut rng = Lcg(seed);
    let mut balls = Vec::new();
    for _ in 0..count {
        let pos = Vec2::new(
            Fixed::from_raw(rng.next(side * ONE_RAW)),
            Fixed::from_raw(rng.next(side * ONE_RAW)),
        );
        let vel = Vec2::new(
            Fixed::from_raw(rng.next(200 * ONE_RAW) - 100 * ONE_RAW),
            Fixed::from_raw(rng.next(200 * ONE_RAW) - 100 * ONE_RAW),
        );
        let radius = Fixed::from_raw(ONE_RAW + rng.next(max_radius * ONE_RAW - ONE_RAW));
        balls.push(Ball::new(pos, disc_mass(radius), radius, vel));
    }
    balls
}

fn with_strategy(strategy: Strategy, neighbor_radius: i32) -> Config {
    let mut config = Config::standard();
    config.strategy = strategy;
    config.neighbor_radius = Fixed::from_int(neighbor_radius);
    config
}

#[test]
fn membership_and_ascending_insertion() {
    let mut list: Vec<usize> = Vec::new();
    for item in [5usize, 1, 9, 5, 3, 1, 7] {
        insert_ascending(&mut list, item);
    }
    assert_eq!(list, vec![1, 3, 5, 7, 9]);
    assert!(holds(&list, 7));
    assert!(!holds(&list, 4));
    assert!(!holds(&Vec::new(), 0));
}

#[test]
fn candidates_are_the_common_indices_in_ascending_order() {
    let xs = vec![8usize, 2, 5, 11, 0];
    let ys = vec![0usize, 7, 5, 8, 3];
    assert_eq!(candidates(&xs, &ys), vec![0, 5, 8]);
    assert_eq!(candidates(&xs, &Vec::new()), Vec::<usize>::new());
    assert_eq!(candidates(&Vec::new(), &ys), Vec::<usize>::new());
}

#[test]
fn radii_fit_compares_the_two_widest() {
    let balls = vec![
        Ball::new(v(0, 0), Fixed::from_int(1), Fixed::from_int(3), v(0, 0)),
        Ball::new(v(0, 0), Fixed::from_int(1), Fixed::from_int(10), v(0, 0)),
        Ball::new(v(0, 0), Fixed::from_int(1), Fixed::from_int(7), v(0, 0)),
    ];
    assert!(radii_fit(&balls, Fixed::from_int(20)));
    assert!(!radii_fit(&balls, Fixed::from_raw(20 * ONE_RAW - 1)));
    assert!(radii_fit(&Vec::new(), Fixed::from_int(-1)));
}

#[test]
fn disc_mass_is_pi_r_squared() {
    let mass = disc_mass(Fixed::from_int(10));
    assert!((mass.raw as f64 / ONE_RAW as f64 - 314.159265).abs() < 1e-5);
    assert_eq!(disc_mass(Fixed::zero()), Fixed::zero());
}

#[test]
fn mean_speed_of_no_balls_is_none() {
    assert!(mean_speed(&Vec::new()).is_none());
    let one = vec![Ball::new(v(0, 0), Fixed::from_int(1), Fixed::from_int(1), v(-3, 4))];
    assert_eq!(mean_speed(&one), Some(Fixed::from_int(5)));
}

#[test]
fn indexed_passes_agree_with_the_exhaustive_pass() {
    for seed in 1..8 {
        let balls = crowd(seed, 150, 300, 10);
        let config = with_strategy(Strategy::Exhaustive, 20);
        let expected = exhaustive_pass(&balls, &config);
        assert!(expected.0.iter().any(|d| *d != v(0, 0)));
        assert!(radii_fit(&balls, config.neighbor_radius));
        assert_eq!(chain_pass(&balls, &config), expected);
        assert_eq!(range_pass(&balls, &config), expected);
        assert_eq!(responses(&balls, &with_strategy(Strategy::ChainIntersection, 20)), expected);
        assert_eq!(responses(&balls, &with_strategy(Strategy::AxisRange, 20)), expected);
        assert_eq!(responses(&balls, &with_strategy(Strategy::AxisRange, 1000)), expected);
    }
}

#[test]
fn indexed_passes_fall_back_where_the_radius_is_too_small() {
    let balls = crowd(42, 80, 120, 10);
    let expected = exhaustive_pass(&balls, &with_strategy(Strategy::Exhaustive, 5));
    assert!(!radii_fit(&balls, Fixed::from_int(5)));
    assert_eq!(responses(&balls, &with_strategy(Strategy::ChainIntersection, 5)), expected);
    assert_eq!(responses(&balls, &with_strategy(Strategy::AxisRange, 5)), expected);
}

#[test]
fn indexed_passes_handle_stacked_and_aligned_balls() {
    let mut balls = Vec::new();
    for i in 0..12 {
        balls.push(Ball::new(v(50, 50), Fixed::from_int(1), Fixed::from_int(5), v(i, -i)));
        balls.push(Ball::new(v(50 + i, 50), Fixed::from_int(2), Fixed::from_int(5), v(0, 0)));
        balls.push(Ball::new(v(50, 50 - i), Fixed::from_int(3), Fixed::from_int(5), v(1, 1)));
    }
    let config = with_strategy(Strategy::Exhaustive, 10);
    let expected = exhaustive_pass(&balls, &config);
    assert_eq!(chain_pass(&balls, &config), expected);
    assert_eq!(range_pass(&balls, &config), expected);
}

#[test]
fn ticks_agree_under_every_strategy() {
    let mut worlds: Vec<World> = Vec::new();
    let strategies = [Strategy::Exhaustive, Strategy::AxisRange, Strategy::ChainIntersection];
    for _ in strategies {
        let mut world = World::new();
        for ball in crowd(9, 100, 250, 10) {
            world.spawn(ball.pos, ball.mass, ball.radius, ball.vel);
        }
        worlds.push(world);
    }
    for _ in 0..5 {
        for (world, strategy) in worlds.iter_mut().zip(strategies) {
            world.solve_physics(&with_strategy(strategy, 20), Fixed::from_int(250));
        }
        assert_eq!(worlds[0].balls, worlds[1].balls);
        assert_eq!(worlds[0].balls, worlds[2].balls);
    }
}

#[test]
fn particle_ticks_agree_under_every_strategy() {
    let strategies = [Strategy::Exhaustive, Strategy::AxisRange, Strategy::ChainIntersection];
    let mut worlds: Vec<ParticleWorld> = Vec::new();
    for _ in strategies {
        let mut world = ParticleWorld::new();
        for ball in crowd(5, 60, 150, 10) {
            world.spawn(ball.pos, Fixed::from_int(1), Fixed::from_int(10));
        }
        worlds.push(world);
    }
    for _ in 0..5 {
        for (world, strategy) in worlds.iter_mut().zip(strategies) {
            world.solve_physics(&with_strategy(strategy, 20), Fixed::from_int(150));
        }
        assert_eq!(worlds[0].particles, worlds[1].particles);
        assert_eq!(worlds[0].particles, worlds[2].particles);
    }
    assert!(worlds[0].system_energy().is_some());
}

#[test]
fn chain_candidates_are_the_balls_near_on_both_axes() {
    let balls = crowd(3, 90, 200, 10);
    let config = with_strategy(Strategy::ChainIntersection, 20);
    let mut x_axis = build_chain_axis(&balls, config.neighbor_radius, false);
    let mut y_axis = build_chain_axis(&balls, config.neighbor_radius, true);
    let mut some = false;
    for i in 0..balls.len() {
        let x_rank = x_axis.rank_of(i);
        let y_rank = y_axis.rank_of(i);
        assert_eq!(x_axis.get(x_rank), (i, balls[i].pos.x));
        assert_eq!(y_axis.get(y_rank), (i, balls[i].pos.y));
        let listed = chain_candidates(&balls, &config, &x_axis, &y_axis, i);
        let mut expected = Vec::new();
        for j in 0..balls.len() {
            if j == i
                || (balls[i].pos.x.is_near(balls[j].pos.x, config.neighbor_radius)
                    && balls[i].pos.y.is_near(balls[j].pos.y, config.neighbor_radius))
            {
                expected.push(j);
            }
        }
        some = some || expected.len() > 1;
        assert_eq!(listed, expected);
    }
    assert!(some);
}

#[test]
fn range_candidates_are_the_balls_near_on_the_horizontal_axis() {
    let balls = crowd(4, 90, 200, 10);
    let config = with_strategy(Strategy::AxisRange, 20);
    let mut axis = build_range_axis(&balls, config.neighbor_radius);
    for i in 0..balls.len() {
        let listed = range_candidates(&balls, &config, &mut axis, i);
        let mut expected = Vec::new();
        for j in 0..balls.len() {
            if j == i || balls[i].pos.x.is_near(balls[j].pos.x, config.neighbor_radius) {
                expected.push(j);
            }
        }
        assert_eq!(listed, expected);
    }
}

#[test]
fn visiting_the_listed_balls_fills_one_row() {
    let balls = vec![
        Ball::new(v(100, 100), Fixed::from_int(1), Fixed::from_int(10), v(0, 0)),
        Ball::new(v(115, 100), Fixed::from_int(1), Fixed::from_int(10), v(0, 0)),
        Ball::new(v(500, 100), Fixed::from_int(1), Fixed::from_int(10), v(0, 0)),
    ];
    let config = Config::standard();
    let mut listed = zero_buffers(3);
    visit_listed(&balls, &config, &mut listed.0, &mut listed.1, 0, &vec![1]);
    let mut single = zero_buffers(3);
    visit(&balls, &config, &mut single.0, &mut single.1, 0, 1);
    assert_eq!(listed, single);
    assert_eq!(listed.0[0].x.raw, -10737417896);
    assert_eq!(listed.0[1].x.raw, 10737417896);
    assert_eq!(listed.0[2], v(0, 0));
    let mut own = zero_buffers(3);
    visit(&balls, &config, &mut own.0, &mut own.1, 1, 1);
    assert_eq!(own, zero_buffers(3));
}
