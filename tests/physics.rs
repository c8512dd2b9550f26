use celestial_pong::ball::{Ball, BallType};
use celestial_pong::gravity::{
    damping, get_gravity_force, get_gravity_radius_over_threshold, get_orbital_velocity,
    nearest_body, orbit_trap_force, GRAVITY,
};
use celestial_pong::vector::{isqrt, Vec2, SUBPIXELS};

fn px(v: i64) -> i64 {
    v * SUBPIXELS
}

fn body_at(x: i64, y: i64, mass: i64) -> Ball {
    Ball::new(Vec2::new(x, y), Vec2::zero(), px(90), mass, 0, 0, BallType::Body)
}

fn ball_at(x: i64, y: i64, v: Vec2) -> Ball {
    Ball::new(Vec2::new(x, y), v, px(7), 40, 0, 0, BallType::Ball)
}

#[test]
fn verlet_round_trip() {
    let mut b = ball_at(px(100), px(-50), Vec2::zero());
    let v = Vec2::new(12345, -6789);
    b.set_velocity(v, 1);
    assert_eq!(b.prev_position, Vec2::new(px(100) - 12345, px(-50) + 6789));
    b.update_verlet(1, Vec2::zero());
    assert_eq!(b.velocity, v);
    assert_eq!(b.position, Vec2::new(px(100) + 12345, px(-50) - 6789));
}

#[test]
fn verlet_round_trip_longer_step() {
    let mut b = ball_at(0, 0, Vec2::zero());
    let v = Vec2::new(-300, 700);
    b.set_velocity(v, 4);
    b.update_verlet(4, Vec2::zero());
    assert_eq!(b.velocity, v);
    assert_eq!(b.position, Vec2::new(-1200, 2800));
}

#[test]
fn verlet_step_with_acceleration() {
    let mut b = ball_at(1000, 2000, Vec2::new(10, 20));
    b.update_verlet(2, Vec2::new(3, -1));
    // next = 2p - prev + a*dt^2 = p + v + a*4
    assert_eq!(b.position, Vec2::new(1000 + 10 + 12, 2000 + 20 - 4));
    assert_eq!(b.prev_position, Vec2::new(1000, 2000));
    assert_eq!(b.velocity, Vec2::new(11, 8));
}

#[test]
fn euler_update() {
    let mut b = ball_at(0, 0, Vec2::new(5, 5));
    b.update(1, Vec2::new(1, -2));
    assert_eq!(b.velocity, Vec2::new(6, 3));
    assert_eq!(b.position, Vec2::new(6, 3));
    assert_eq!(b.prev_position, Vec2::new(0, 0));
}

#[test]
fn new_sets_previous_position_from_velocity() {
    let b = Ball::new(Vec2::new(100, 200), Vec2::new(7, -3), 5, 9, -1, 4, BallType::GoodBall);
    assert_eq!(b.prev_position, Vec2::new(93, 203));
    assert_eq!(b.double_radius, 10);
    assert_eq!(b.rotation, celestial_pong::ball::TURN - 1);
    assert_eq!(b.spin, 4);
}

#[test]
fn rotation_wraps_around() {
    let turn = celestial_pong::ball::TURN;
    let mut b = Ball::new(Vec2::zero(), Vec2::zero(), 5, 9, turn - 2, 5, BallType::Ball);
    b.update_verlet(1, Vec2::zero());
    assert_eq!(b.rotation, 3);
}

#[test]
fn collision_area_is_four_radii_wide() {
    let b = ball_at(1000, -1000, Vec2::zero());
    let r = b.get_collision_area();
    assert_eq!(r.width, px(28));
    assert_eq!(r.height, px(28));
    assert_eq!(r.left, 1000 - px(14));
    assert_eq!(r.top, -1000 - px(14));
    assert!(r.contains(b.position));
}

#[test]
fn check_collision_at_exact_contact() {
    let a = Ball::new(Vec2::new(0, 0), Vec2::zero(), 3, 1, 0, 0, BallType::Ball);
    let b = Ball::new(Vec2::new(3, 4), Vec2::zero(), 2, 1, 0, 0, BallType::Ball);
    let c = Ball::new(Vec2::new(3, 5), Vec2::zero(), 2, 1, 0, 0, BallType::Ball);
    assert!(a.check_collision(&b));
    assert!(b.check_collision(&a));
    assert!(!a.check_collision(&c));
}

#[test]
fn collision_head_on_swaps_equal_masses() {
    let mut a = ball_at(-px(5), 0, Vec2::new(4000, 0));
    let mut b = ball_at(px(5), 0, Vec2::new(-1000, 0));
    a.collide(&mut b, 1, 100);
    assert_eq!(a.velocity, Vec2::new(-1000, 0));
    assert_eq!(b.velocity, Vec2::new(4000, 0));
    assert_eq!(a.prev_position, Vec2::new(-px(5) + 1000, 0));
    assert_eq!(b.prev_position, Vec2::new(px(5) - 4000, 0));
}

#[test]
fn collision_conserves_momentum() {
    let mut a = Ball::new(Vec2::new(0, 0), Vec2::new(3000, 1200), px(7), 40, 0, 0, BallType::Ball);
    let mut b = Ball::new(
        Vec2::new(px(9), px(5)),
        Vec2::new(-2500, -700),
        px(8),
        80,
        0,
        0,
        BallType::Projectil,
    );
    let px0 = 40 * a.velocity.x + 80 * b.velocity.x;
    let py0 = 40 * a.velocity.y + 80 * b.velocity.y;
    a.collide(&mut b, 1, 100);
    let px1 = 40 * a.velocity.x + 80 * b.velocity.x;
    let py1 = 40 * a.velocity.y + 80 * b.velocity.y;
    assert!((px1 - px0).abs() < 120);
    assert!((py1 - py0).abs() < 120);
    assert_ne!(a.velocity, Vec2::new(3000, 1200));
}

#[test]
fn collision_with_lost_energy() {
    let mut a = ball_at(-px(5), 0, Vec2::new(4000, 0));
    let mut b = ball_at(px(5), 0, Vec2::new(0, 0));
    a.collide(&mut b, 1, 50);
    // impulse scaled by (1 + 0.5) / 2
    assert_eq!(a.velocity, Vec2::new(1000, 0));
    assert_eq!(b.velocity, Vec2::new(3000, 0));
}

#[test]
fn separating_bodies_do_not_collide() {
    let mut a = ball_at(-px(5), 0, Vec2::new(-100, 0));
    let mut b = ball_at(px(5), 0, Vec2::new(100, 0));
    let (a0, b0) = (a, b);
    a.collide(&mut b, 1, 100);
    assert_eq!(a, a0);
    assert_eq!(b, b0);
}

#[test]
fn isqrt_values() {
    assert_eq!(isqrt(0), 0);
    assert_eq!(isqrt(1), 1);
    assert_eq!(isqrt(15), 3);
    assert_eq!(isqrt(16), 4);
    assert_eq!(isqrt(u128::MAX), u64::MAX);
    assert_eq!(isqrt(1u128 << 100), 1u64 << 50);
}

#[test]
fn gravity_force_exact_value() {
    let body = body_at(0, 0, 1000);
    let ball = ball_at(3000, 4000, Vec2::zero());
    let f = get_gravity_force(&ball, &body, GRAVITY);
    // G*M*dx/d/d^2 with d = 5000
    let gm = GRAVITY as i128 * 1000;
    let fx = -(gm * 3000 / 5000 / 25_000_000) as i64;
    let fy = -(gm * 4000 / 5000 / 25_000_000) as i64;
    assert_eq!(f, Vec2::new(fx, fy));
}

#[test]
fn gravity_force_zero_distance_is_zero() {
    let body = body_at(10, 10, 1000);
    let ball = ball_at(10, 10, Vec2::zero());
    assert_eq!(get_gravity_force(&ball, &body, GRAVITY), Vec2::zero());
}

#[test]
fn orbital_velocity_exact_value() {
    let body = body_at(0, 0, 10_000_000);
    let ball = ball_at(px(210), 0, Vec2::zero());
    let v = get_orbital_velocity(&ball, &body, GRAVITY);
    let d = px(210) as u128;
    let speed = isqrt(GRAVITY as u128 * 10_000_000 / d) as i64;
    assert_eq!(v, Vec2::new(0, speed));
    // about 218 px per second at 240 ticks per second
    let px_per_s = speed as f64 * 240.0 / SUBPIXELS as f64;
    assert!((px_per_s - 218.2).abs() < 0.5);
}

#[test]
fn radius_over_threshold() {
    let r = get_gravity_radius_over_threshold(1000, 1_000_000, GRAVITY);
    assert_eq!(r as u128, isqrt(GRAVITY as u128 * 1000 / 1_000_000) as u128);
}

#[test]
fn damping_exact_value() {
    let v = damping(Vec2::new(0, 0), Vec2::new(1200, -2400), 1, 12);
    assert_eq!(v, Vec2::new(100, -200));
}

#[test]
fn orbit_trap_steers_toward_ideal_orbit() {
    let body = body_at(0, 0, 10_000_000);
    let ball = ball_at(px(210), 0, Vec2::zero());
    // at rest the heading does not match the ideal orbit, so it steers along the other way
    let f = orbit_trap_force(&ball, &body, GRAVITY, 182, 171798692);
    assert_eq!(f, Vec2::new(0, -182));
    let ideal = get_orbital_velocity(&ball, &body, GRAVITY);
    let on_orbit = ball_at(px(210), 0, ideal);
    assert_eq!(orbit_trap_force(&on_orbit, &body, GRAVITY, 182, 171798692), Vec2::zero());
}

#[test]
fn nearest_body_first_on_ties() {
    let bodies = vec![body_at(100, 0, 5), body_at(-100, 0, 5), body_at(50, 0, 5)];
    assert_eq!(nearest_body(&bodies, Vec2::new(0, 0)), Some(2));
    let tied = vec![body_at(100, 0, 5), body_at(-100, 0, 5)];
    assert_eq!(nearest_body(&tied, Vec2::new(0, 0)), Some(0));
    assert_eq!(nearest_body(&Vec::new(), Vec2::new(0, 0)), None);
}

#[test]
fn orbital_seeding_stays_near_radius() {
    let body = body_at(0, 0, 10_000_000);
    let r = px(210);
    let mut ball = ball_at(r, 0, Vec2::zero());
    let v = get_orbital_velocity(&ball, &body, GRAVITY);
    ball.set_velocity(v, 1);
    for _ in 0..4000 {
        let acc = get_gravity_force(&ball, &body, GRAVITY);
        ball.update_verlet(1, acc);
        let d2 = (ball.position.x as i128).pow(2) + (ball.position.y as i128).pow(2);
        let d = isqrt(d2 as u128) as i64;
        assert!(d > r * 95 / 100 && d < r * 105 / 100, "distance {} left the band", d);
    }
}
