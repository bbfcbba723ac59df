use n_body::body::{Body, Vec2};
use n_body::fixed::{clamp_wide, div_trunc, sqrt_floor, LIMIT, SCALE};
use n_body::physics::{interact_pair, resolve};
use n_body::simulation::{integrate_body, SimConfig, Simulation, ANCHOR_RADIUS};
use rand::rngs::StdRng;
use rand::SeedableRng;

fn still(x: i64, y: i64, radius: i64) -> Body {
    Body::new(Vec2::new(x, y), Vec2::zero(), radius)
}

fn plain_config() -> SimConfig {
    SimConfig {
        speed: 0,
        gravity: SCALE,
        dt: 50_000,
        default_radius: SCALE,
        restitution: 0,
        dt_divisor: 1,
        anchor: false,
    }
}

fn sim_of(bodies: Vec<Body>, config: SimConfig) -> Simulation {
    Simulation::from_bodies(bodies, config, StdRng::seed_from_u64(7))
}

#[test]
fn body_mass_from_radius() {
    let b = still(0, 0, SCALE);
    assert_eq!(b.mass, 3_141_500);
    assert_eq!(b.acc, Vec2::zero());
    assert_eq!(still(0, 0, 1).mass, 1);
    assert_eq!(still(0, 0, 2 * SCALE).mass, 12_566_000);
}

#[test]
fn two_bodies_attract_over_one_tick() {
    let mut sim = sim_of(vec![still(-5 * SCALE, 0, SCALE), still(5 * SCALE, 0, SCALE)], plain_config());
    sim.tick(None);
    let a = sim.body(0);
    let b = sim.body(1);
    assert_eq!(a.acc, Vec2::new(31_415, 0));
    assert_eq!(b.acc, Vec2::new(-31_415, 0));
    assert_eq!(a.vel, Vec2::new(1_570, 0));
    assert_eq!(b.vel, Vec2::new(-1_570, 0));
    assert!(a.vel.x > 0 && b.vel.x < 0);
    assert_eq!(a.pos, Vec2::new(-5 * SCALE + 78, 0));
    assert_eq!(b.pos, Vec2::new(5 * SCALE - 78, 0));
}

#[test]
fn displacement_grows_with_square_of_timestep() {
    let mut short = plain_config();
    short.dt = 25_000;
    let mut sim = sim_of(vec![still(-5 * SCALE, 0, SCALE), still(5 * SCALE, 0, SCALE)], short);
    sim.tick(None);
    let moved = sim.body(0).pos.x + 5 * SCALE;
    assert_eq!(moved, 19);
    assert_eq!(sim.body(0).vel.x, 785);
}

#[test]
fn unequal_masses_balance_momentum() {
    let mut bodies = vec![still(0, 0, 3 * SCALE), still(7 * SCALE, 4 * SCALE, SCALE)];
    interact_pair(&mut bodies, 0, 1, 0);
    let (a, b) = (bodies[0], bodies[1]);
    assert!(a.acc.x > 0 && a.acc.y > 0);
    assert!(b.acc.x < 0 && b.acc.y < 0);
    let px = a.mass as i128 * a.acc.x as i128 + b.mass as i128 * b.acc.x as i128;
    let py = a.mass as i128 * a.acc.y as i128 + b.mass as i128 * b.acc.y as i128;
    let bound = a.mass as i128 + b.mass as i128;
    assert!(px.abs() < bound);
    assert!(py.abs() < bound);
}

#[test]
fn lone_body_keeps_velocity() {
    let b = Body::new(Vec2::new(3 * SCALE, -2 * SCALE), Vec2::new(400_000, -250_000), SCALE);
    let mut sim = sim_of(vec![b], plain_config());
    for _ in 0..10 {
        sim.tick(None);
        assert_eq!(sim.body(0).vel, Vec2::new(400_000, -250_000));
        assert_eq!(sim.body(0).acc, Vec2::zero());
    }
    assert_eq!(sim.body(0).pos, Vec2::new(3 * SCALE + 200_000, -2 * SCALE - 125_000));
}

#[test]
fn collision_pushes_bodies_apart() {
    let a = Body::new(Vec2::new(0, 0), Vec2::new(SCALE, 0), SCALE);
    let b = Body::new(Vec2::new(1_500_000, 0), Vec2::new(-SCALE, 0), SCALE);
    let mut bodies = vec![a, b];
    resolve(&mut bodies, 0, 1, 1_500_000, 500_000, 0);
    assert_eq!(bodies[0].pos, Vec2::new(-250_000, 0));
    assert_eq!(bodies[1].pos, Vec2::new(1_750_000, 0));
    assert_eq!(bodies[0].vel, Vec2::zero());
    assert_eq!(bodies[1].vel, Vec2::zero());
    let gap = bodies[1].pos.x - bodies[0].pos.x;
    assert!(gap >= 1_500_000);
    assert!(bodies[1].vel.x - bodies[0].vel.x >= 0);
}

#[test]
fn elastic_collision_reverses_approach() {
    let a = Body::new(Vec2::new(0, 0), Vec2::new(SCALE, 0), SCALE);
    let b = Body::new(Vec2::new(0, 1_200_000), Vec2::new(0, -SCALE), SCALE);
    let mut bodies = vec![a, b];
    resolve(&mut bodies, 0, 1, 1_200_000, 800_000, SCALE);
    assert_eq!(bodies[0].vel, Vec2::new(SCALE, -SCALE));
    assert_eq!(bodies[1].vel, Vec2::zero());
    assert_eq!(bodies[0].pos, Vec2::new(0, -400_000));
    assert_eq!(bodies[1].pos, Vec2::new(0, 1_600_000));
}

#[test]
fn resolve_skips_separating_pair() {
    let a = Body::new(Vec2::new(0, 0), Vec2::new(-SCALE, 0), SCALE);
    let b = Body::new(Vec2::new(SCALE, 0), Vec2::new(SCALE, 0), SCALE);
    let mut bodies = vec![a, b];
    resolve(&mut bodies, 0, 1, SCALE, SCALE, 700_000);
    assert_eq!(bodies[0], a);
    assert_eq!(bodies[1], b);
}

#[test]
fn resolve_skips_coincident_pair() {
    let a = Body::new(Vec2::new(SCALE, SCALE), Vec2::new(SCALE, 0), SCALE);
    let b = Body::new(Vec2::new(SCALE, SCALE), Vec2::new(-SCALE, 0), SCALE);
    let mut bodies = vec![a, b];
    resolve(&mut bodies, 0, 1, 0, 2 * SCALE, 700_000);
    assert_eq!(bodies[0], a);
    assert_eq!(bodies[1], b);
}

#[test]
fn wall_reflects_and_damps_one_axis() {
    let b = Body::new(Vec2::new(10 * SCALE, 0), Vec2::new(2 * SCALE, 3 * SCALE), SCALE);
    let mut sim = sim_of(vec![b], plain_config());
    sim.tick(Some((5 * SCALE, 1_000 * SCALE)));
    let after = sim.body(0);
    assert_eq!(after.vel, Vec2::new(-1_800_000, 3 * SCALE));
    assert_eq!(after.pos, Vec2::new(9_999_000, 150_000));
}

#[test]
fn wall_on_negative_side() {
    let b = Body::new(Vec2::new(0, -8 * SCALE), Vec2::new(0, -SCALE), SCALE);
    let c = plain_config();
    let after = integrate_body(b, &c, Some((SCALE, SCALE)));
    assert_eq!(after.vel, Vec2::new(0, 900_000));
    assert_eq!(after.pos, Vec2::new(0, -7_969_500));
}

#[test]
fn new_places_anchor_and_draws_in_bounds() {
    let sim = Simulation::new(50, 400 * SCALE, 300 * SCALE, SimConfig::anchored(), StdRng::seed_from_u64(11));
    assert_eq!(sim.len(), 50);
    let anchor = sim.body(0);
    assert_eq!(anchor.pos, Vec2::zero());
    assert_eq!(anchor.vel, Vec2::zero());
    assert_eq!(anchor.radius, ANCHOR_RADIUS);
    let mut distinct = false;
    for k in 1..50 {
        let b = sim.body(k);
        assert_eq!(b.radius, SCALE);
        assert!(b.pos.x.abs() <= 400 * SCALE && b.pos.y.abs() <= 300 * SCALE);
        assert!(b.vel.x.abs() <= 5 * SCALE && b.vel.y.abs() <= 5 * SCALE);
        if b.pos.x != -400 * SCALE {
            distinct = true;
        }
    }
    assert!(distinct);
}

#[test]
fn reset_keeps_count_and_configuration() {
    let mut sim = Simulation::new(30, 100 * SCALE, 100 * SCALE, SimConfig::open_space(), StdRng::seed_from_u64(3));
    sim.config.gravity = 2 * SCALE;
    sim.tick(None);
    sim.reset(10 * SCALE, 20 * SCALE);
    assert_eq!(sim.len(), 30);
    assert_eq!(sim.config.gravity, 2 * SCALE);
    assert_eq!(sim.config.dt, 50_000);
    for k in 0..30 {
        let b = sim.body(k);
        assert!(b.pos.x.abs() <= 10 * SCALE && b.pos.y.abs() <= 20 * SCALE);
        assert!(b.vel.x.abs() <= SCALE && b.vel.y.abs() <= SCALE);
        assert_eq!(b.acc, Vec2::zero());
    }
}

#[test]
fn empty_simulation_ticks() {
    let mut sim = Simulation::new(0, SCALE, SCALE, SimConfig::anchored(), StdRng::seed_from_u64(1));
    assert_eq!(sim.len(), 0);
    sim.tick(Some((SCALE, SCALE)));
    assert_eq!(sim.len(), 0);
}

#[test]
fn many_bodies_stay_in_range() {
    let mut sim = Simulation::new(40, 50 * SCALE, 50 * SCALE, SimConfig::anchored(), StdRng::seed_from_u64(5));
    for _ in 0..20 {
        sim.tick(Some((50 * SCALE, 50 * SCALE)));
    }
    for k in 0..40 {
        let b = sim.body(k);
        assert!(b.pos.x.abs() <= LIMIT && b.vel.x.abs() <= LIMIT && b.acc.x.abs() <= LIMIT);
    }
}

#[test]
fn fixed_point_helpers() {
    assert_eq!(sqrt_floor(0), 0);
    assert_eq!(sqrt_floor(99), 9);
    assert_eq!(sqrt_floor(100), 10);
    assert_eq!(sqrt_floor(100_000_000_000_000), 10_000_000);
    assert_eq!(div_trunc(-7, 2), -3);
    assert_eq!(div_trunc(7, 2), 3);
    assert_eq!(clamp_wide(5 * LIMIT as i128), LIMIT);
    assert_eq!(clamp_wide(-5 * LIMIT as i128), -LIMIT);
    assert_eq!(clamp_wide(12), 12);
}
