use physics::config::Config;
use physics::consts;
use physics::fixed::{Fixed, ONE_RAW};
use physics::particle_world::ParticleWorld;
use physics::response::responses;
use physics::vec2::Vec2;
use physics::world::World;

fn v(x: i32, y: i32) -> Vec2 {
    Vec2::new(Fixed::from_int(x), Fixed::from_int(y))
}

fn as_real(value: Fixed) -> f64 {
    value.raw as f64 / ONE_RAW as f64
}

fn at_rest_config() -> Config {
    let mut config = Config::standard();
    config.iterations = 0;
    config
}

#[test]
fn standard_parameters() {
    let config = Config::standard();
    assert_eq!(config.iterations, 4);
    assert_eq!(config.dt.raw, 17895697);
    assert_eq!(config.gravity, v(0, 0));
    assert_eq!(config.elasticity.raw, ONE_RAW / 2);
    assert_eq!(config.neighbor_radius, Fixed::from_int(20));
    assert_eq!(config.correction.raw, ONE_RAW / 2);
    assert_eq!(config.damping.raw, ONE_RAW / 2);
    assert_eq!(config.smoothing.raw, ONE_RAW / 4);
    assert_eq!(config.epsilon.raw, 512);
    assert_eq!(consts::RADIUS, 10 * ONE_RAW);
    assert_eq!(consts::PHY_DT / 4, consts::PHY_SDT);
    assert!((consts::GRAVITY_Y as f64 / ONE_RAW as f64 + 9.8).abs() < 1e-9);
    assert!((consts::PI as f64 / ONE_RAW as f64 - std::f64::consts::PI).abs() < 1e-9);
    assert_eq!(consts::GRAVITY_X, 0);
}

#[test]
fn empty_world_ticks_without_effect() {
    let mut world = World::new();
    world.solve_physics(&Config::standard(), Fixed::from_int(800));
    assert_eq!(world.len(), 0);
    assert!(world.system_energy().is_none());
    let sums = responses(&world.balls, &Config::standard());
    assert!(sums.0.is_empty() && sums.1.is_empty());
    let mut particles = ParticleWorld::new();
    particles.solve_physics(&Config::standard(), Fixed::from_int(800));
    assert_eq!(particles.len(), 0);
}

#[test]
fn single_ball_is_not_displaced_by_the_pass() {
    let mut world = World::new();
    world.spawn(v(100, 100), Fixed::from_int(1), Fixed::from_int(10), v(0, 0));
    let sums = responses(&world.balls, &Config::standard());
    assert_eq!(sums.0, vec![v(0, 0)]);
    assert_eq!(sums.1, vec![v(0, 0)]);
    world.solve_physics(&Config::standard(), Fixed::from_int(800));
    assert_eq!(world.len(), 1);
    assert_eq!(world.get(0).pos, v(100, 100));
    assert_eq!(world.get(0).vel, v(0, 0));
}

#[test]
fn single_moving_ball_only_moves() {
    let mut world = World::new();
    world.spawn(v(100, 100), Fixed::from_int(1), Fixed::from_int(10), v(240, -480));
    world.solve_physics(&Config::standard(), Fixed::from_int(800));
    let ball = world.get(0);
    assert_eq!(ball.pos.x.raw, 100 * ONE_RAW + 4 * (240 * 17895697));
    assert_eq!(ball.pos.y.raw, 100 * ONE_RAW - 4 * (480 * 17895697));
    assert_eq!(ball.vel, v(240, -480));
}

#[test]
fn single_particle_is_not_displaced_by_the_pass() {
    let mut world = ParticleWorld::new();
    world.spawn(v(100, 100), Fixed::from_int(1), Fixed::from_int(20));
    world.solve_physics(&at_rest_config(), Fixed::from_int(800));
    assert_eq!(world.get(0).pos, v(100, 100));
    assert_eq!(world.get(0).pos_last, v(100, 100));
    assert_eq!(world.get(0).id, 0);
}

#[test]
fn spawn_and_clear() {
    let mut world = World::new();
    world.spawn(v(1, 2), Fixed::from_int(3), Fixed::from_int(4), v(5, 6));
    world.spawn(v(7, 8), Fixed::from_int(9), Fixed::from_int(10), v(11, 12));
    assert_eq!(world.len(), 2);
    assert_eq!(world.get(1).pos, v(7, 8));
    assert_eq!(world.get(1).mass, Fixed::from_int(9));
    assert_eq!(world.get(1).radius, Fixed::from_int(10));
    assert_eq!(world.get(1).vel, v(11, 12));
    world.clear();
    assert_eq!(world.len(), 0);
    let mut particles = ParticleWorld::new();
    particles.spawn(v(1, 2), Fixed::from_int(3), Fixed::from_int(4));
    particles.spawn(v(1, 2), Fixed::from_int(3), Fixed::from_int(4));
    assert_eq!(particles.get(1).id, 1);
    particles.clear();
    assert_eq!(particles.len(), 0);
}

#[test]
fn mean_speed_of_three_balls() {
    let mut world = World::new();
    world.spawn(v(0, 0), Fixed::from_int(1), Fixed::from_int(1), v(3, 4));
    world.spawn(v(0, 0), Fixed::from_int(1), Fixed::from_int(1), v(-6, 8));
    world.spawn(v(0, 0), Fixed::from_int(1), Fixed::from_int(1), v(0, 1));
    assert_eq!(world.system_energy().unwrap().raw, 22906492245);
}

#[test]
fn two_overlapping_balls_swap_velocities_in_an_elastic_tick() {
    let mut config = at_rest_config();
    config.elasticity = Fixed::from_int(1);
    let mut world = World::new();
    world.spawn(v(100, 100), Fixed::from_int(1), Fixed::from_int(10), v(1, 0));
    world.spawn(v(115, 100), Fixed::from_int(1), Fixed::from_int(10), v(-1, 0));
    world.solve_physics(&config, Fixed::from_int(1000));
    let first = world.get(0);
    let second = world.get(1);
    assert_eq!(first.pos.x.raw, 408021893808);
    assert_eq!(second.pos.x.raw, 515396074832);
    assert_eq!(first.pos.y, Fixed::from_int(100));
    assert_eq!(first.vel.x.raw, -4294967156);
    assert_eq!(second.vel.x.raw, 4294967156);
    assert!((as_real(first.vel.x) + 1.0).abs() < 1e-6);
    assert!((as_real(second.vel.x) - 1.0).abs() < 1e-6);
    assert_eq!(first.vel.y.raw, 0);
    assert_eq!(first.pos.x.raw - 100 * ONE_RAW, 115 * ONE_RAW - second.pos.x.raw);
}

#[test]
fn the_pass_reads_positions_as_they_stood_before_it() {
    let mut world = World::new();
    world.spawn(v(100, 100), Fixed::from_int(1), Fixed::from_int(10), v(0, 0));
    world.spawn(v(115, 100), Fixed::from_int(1), Fixed::from_int(10), v(0, 0));
    world.spawn(v(130, 100), Fixed::from_int(1), Fixed::from_int(10), v(0, 0));
    let sums = responses(&world.balls, &at_rest_config());
    assert_eq!(sums.0[1], v(0, 0));
    assert_eq!(sums.0[0].x.raw, -sums.0[2].x.raw);
    assert_eq!(sums.0[0].x.raw, 2 * -10737417896);
}

#[test]
fn a_tick_of_three_balls() {
    let mut world = World::new();
    world.spawn(v(5, 3), Fixed::from_int(2), Fixed::from_int(10), v(-60, -120));
    world.spawn(v(20, 12), Fixed::from_int(1), Fixed::from_int(10), v(30, 0));
    world.spawn(v(500, 300), Fixed::from_int(3), Fixed::from_int(20), v(240, 480));
    world.solve_physics(&Config::standard(), Fixed::from_int(510));
    let raw: Vec<[i64; 4]> = world
        .balls
        .iter()
        .map(|b| [b.pos.x.raw, b.pos.y.raw, b.vel.x.raw, b.vel.y.raw])
        .collect();
    assert_eq!(raw[0], [3664590178, 35466800050, 148162276910, 494532121074]);
    assert_eq!(raw[1], [127331912342, 59022480462, 347920540582, 41727908892]);
    assert_eq!(raw[2], [2104533975040, 1322849927040, -1030792151040, 2061584302080]);
}

#[test]
fn overlapping_particles_are_pushed_apart() {
    let mut world = ParticleWorld::new();
    world.spawn(v(100, 100), Fixed::from_int(1), Fixed::from_int(10));
    world.spawn(v(115, 100), Fixed::from_int(1), Fixed::from_int(10));
    world.solve_physics(&at_rest_config(), Fixed::from_int(1000));
    let first = world.get(0);
    let second = world.get(1);
    assert_eq!(first.pos.x.raw, 100 * ONE_RAW - 2 * 10737417896);
    assert_eq!(second.pos.x.raw, 115 * ONE_RAW + 2 * 10737417896);
    assert_eq!(first.pos_last.x.raw, 100 * ONE_RAW - 2 * 10737417896 / 4);
    assert_eq!(first.pos.y, Fixed::from_int(100));
}

#[test]
fn gravity_pulls_particles_down() {
    let mut config = Config::standard();
    config.iterations = 1;
    config.dt = Fixed::from_raw(429496730);
    config.gravity = Vec2::new(Fixed::zero(), Fixed::from_raw(consts::GRAVITY_Y));
    let mut world = ParticleWorld::new();
    world.spawn(v(100, 100), Fixed::from_int(1), Fixed::from_int(10));
    world.solve_physics(&config, Fixed::from_int(1000));
    let p = world.get(0);
    assert_eq!(p.pos.x, Fixed::from_int(100));
    assert!((as_real(p.pos.y) - (100.0 - 0.098)).abs() < 1e-6);
    assert_eq!(p.pos_last, v(100, 100));
}

#[test]
fn the_parts_of_a_tick_one_by_one() {
    let mut world = World::new();
    world.spawn(v(5, 3), Fixed::from_int(2), Fixed::from_int(10), v(-60, -120));
    world.spawn(v(20, 12), Fixed::from_int(1), Fixed::from_int(10), v(30, 0));
    world.accelerate_all(v(0, -8));
    assert_eq!(world.get(0).vel, v(-60, -128));
    assert_eq!(world.get(1).vel, v(30, -8));
    world.integrate_all(Fixed::from_raw(ONE_RAW / 2), 2);
    assert_eq!(world.get(0).pos, v(-55, -125));
    assert_eq!(world.get(1).pos, v(50, 4));
    world.constrain_all(Fixed::from_int(55));
    assert_eq!(world.get(0).pos, v(10, 10));
    assert_eq!(world.get(0).vel, v(60, 128));
    assert_eq!(world.get(1).pos, v(45, 10));
    assert_eq!(world.get(1).vel, v(-30, 8));
    world.apply(&vec![v(1, 2), v(3, 4)], &vec![v(-1, -2), v(-3, -4)]);
    assert_eq!(world.get(0).pos, v(11, 12));
    assert_eq!(world.get(0).vel, v(59, 126));
    assert_eq!(world.get(1).pos, v(48, 14));
    assert_eq!(world.get(1).vel, v(-33, 4));
}

#[test]
fn the_parts_of_a_particle_tick_one_by_one() {
    let mut world = ParticleWorld::new();
    world.spawn(v(5, 30), Fixed::from_int(1), Fixed::from_int(10));
    world.accelerate_all(v(0, -8));
    assert_eq!(world.get(0).accel, v(0, -8));
    world.integrate_all(Fixed::from_int(1), 2);
    assert_eq!(world.get(0).pos, v(5, 14));
    assert_eq!(world.get(0).pos_last, v(5, 22));
    assert_eq!(world.get(0).accel, v(0, 0));
    assert_eq!(world.system_energy(), Some(Fixed::from_int(8)));
    let balls = world.to_balls();
    assert_eq!(balls[0].vel, v(0, -8));
    assert_eq!(balls[0].pos, v(5, 14));
    world.constrain_all(Fixed::from_int(100));
    assert_eq!(world.get(0).pos, v(10, 14));
    assert_eq!(world.get(0).pos_last, v(5, 22));
    world.displace_all(&vec![v(4, -8)], Fixed::from_raw(ONE_RAW / 4));
    assert_eq!(world.get(0).pos, v(14, 6));
    assert_eq!(world.get(0).pos_last, v(6, 20));
}

#[test]
fn a_ball_at_rest_settles_in_one_tick() {
    for (x, y, width) in [(-5, 50, 800), (900, -30, 800), (400, 300, 800), (3, 3, 20), (30, 5, 12)] {
        let mut world = World::new();
        world.spawn(v(x, y), Fixed::from_int(1), Fixed::from_int(10), v(0, 0));
        world.solve_physics(&Config::standard(), Fixed::from_int(width));
        let once = world.get(0);
        assert_eq!(once.vel, v(0, 0));
        assert!(once.pos.y.raw >= once.radius.raw);
        if width >= 20 {
            assert!(once.pos.x.raw >= once.radius.raw);
            assert!(once.pos.x.raw + once.radius.raw <= Fixed::from_int(width).raw);
        }
        world.solve_physics(&Config::standard(), Fixed::from_int(width));
        assert_eq!(world.get(0), once);
    }
}

#[test]
fn a_tick_of_two_colliding_balls_keeps_the_momentum_up_to_rounding() {
    for elasticity in [0, ONE_RAW / 2, ONE_RAW] {
        let mut config = at_rest_config();
        config.elasticity = Fixed::from_raw(elasticity);
        let mut world = World::new();
        world.spawn(v(100, 100), Fixed::from_int(3), Fixed::from_int(10), v(40, -7));
        world.spawn(v(112, 109), Fixed::from_int(5), Fixed::from_int(10), v(-25, 13));
        let before: Vec<i128> = [0, 1]
            .iter()
            .map(|&axis| {
                world
                    .balls
                    .iter()
                    .map(|b| b.mass.raw as i128 * [b.vel.x.raw, b.vel.y.raw][axis] as i128)
                    .sum()
            })
            .collect();
        world.solve_physics(&config, Fixed::from_int(1000));
        assert!(world.get(0).vel != v(40, -7));
        let bound = 2 * (4 * ONE_RAW as i128 + 3 * 8 * ONE_RAW as i128);
        for axis in 0..2 {
            let after: i128 = world
                .balls
                .iter()
                .map(|b| b.mass.raw as i128 * [b.vel.x.raw, b.vel.y.raw][axis] as i128)
                .sum();
            assert!((after - before[axis]).abs() < bound);
        }
    }
}
