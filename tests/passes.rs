use celestial_pong::ball::{Ball, BallType};
use celestial_pong::garden_level::{FrameInput, GardenLevel};
use celestial_pong::gravity::{damping, get_gravity_force, orbit_trap_force, GRAVITY};
use celestial_pong::simulation::LevelParameters;
use celestial_pong::quad_tree::Rect;
use celestial_pong::sandbox_level::{orbit_all, pick_ball, slow_down_all};
use celestial_pong::simulation::{
    ball_acceleration, build_tree, consume_touching, integrate_all, mark_escaped,
    orbital_position, seed_marker, unmarked, SeededFlower,
};
use celestial_pong::vector::{Vec2, SUBPIXELS};

fn px(v: i64) -> i64 {
    v * SUBPIXELS
}

fn ball(x: i64, y: i64, t: BallType) -> Ball {
    Ball::new(Vec2::new(x, y), Vec2::zero(), px(7), 40, 0, 0, t)
}

fn attractor() -> Ball {
    Ball::new(Vec2::zero(), Vec2::zero(), px(90), 10_000_000, 0, 0, BallType::Body)
}

#[test]
fn attractor_consumes_touching_bodies_once() {
    let balls = vec![
        ball(px(50), 0, BallType::GoodBall),
        ball(px(300), 0, BallType::Ball),
        ball(0, px(96), BallType::BadBall),
    ];
    let bodies = vec![attractor()];
    let tree = build_tree(&balls, Rect::new(0, 0, px(4000), px(4000)));
    let mut marked = unmarked(3);
    let mut flowers: Vec<SeededFlower> = Vec::new();
    consume_touching(&balls, &bodies, &tree, &mut marked, &mut flowers, 10);
    assert_eq!(marked, vec![true, false, true]);
    assert_eq!(flowers.len(), 1);
    assert_eq!(flowers[0], seed_marker(&balls[0], &bodies[0]));
    let mut no_room: Vec<SeededFlower> = Vec::new();
    let mut marked2 = unmarked(3);
    consume_touching(&balls, &bodies, &tree, &mut marked2, &mut no_room, 0);
    assert!(no_room.is_empty());
    assert_eq!(marked2, vec![true, false, true]);
}

#[test]
fn marker_sits_behind_the_consumed_body() {
    let b = ball(px(100), 0, BallType::GoodBall);
    let m = seed_marker(&b, &attractor());
    // one and a half radii further out than the body
    assert_eq!(m.position, Vec2::new(px(100) + px(7) * 3 / 2, 0));
    assert_eq!(m.direction, Vec2::new(-px(100), 0));
}

#[test]
fn escaped_bodies_are_flagged() {
    let balls = vec![
        ball(px(800), 0, BallType::Ball),
        ball(px(600), 0, BallType::BadBall),
        ball(px(400), 0, BallType::Ball),
        ball(px(100), px(-600), BallType::BadBall),
    ];
    let mut marked = unmarked(4);
    let kill = (px(707) as i128) * (px(707) as i128);
    mark_escaped(&balls, &mut marked, kill, px(500), px(500));
    assert_eq!(marked, vec![true, true, false, true]);
}

#[test]
fn integration_uses_gravity_and_trap() {
    let bodies = vec![attractor()];
    let mut balls = vec![ball(px(210), 0, BallType::Ball), ball(px(-250), 0, BallType::Ball)];
    let before = balls.clone();
    integrate_all(&mut balls, &bodies, GRAVITY, 182, 171798692, Some(1), 1);
    let a0 = get_gravity_force(&before[0], &bodies[0], GRAVITY);
    let t0 = orbit_trap_force(&before[0], &bodies[0], GRAVITY, 182, 171798692);
    let acc0 = Vec2::new(a0.x + t0.x, a0.y + t0.y);
    assert_eq!(ball_acceleration(&before[0], &bodies, GRAVITY, 182, 171798692, true), acc0);
    let mut expected0 = before[0];
    expected0.update_verlet(1, acc0);
    assert_eq!(balls[0], expected0);
    // the held body feels only the trap
    let t1 = orbit_trap_force(&before[1], &bodies[0], GRAVITY, 182, 171798692);
    let mut expected1 = before[1];
    expected1.update_verlet(1, t1);
    assert_eq!(balls[1], expected1);
}

#[test]
fn orbital_position_exact() {
    let p = orbital_position(Vec2::new(10, 20), Vec2::new(3000, 4000), 1000);
    assert_eq!(p, Vec2::new(10 + 600, 20 + 800));
}

#[test]
fn pick_finds_body_under_cursor() {
    let balls = vec![ball(px(100), px(100), BallType::Ball), ball(px(-100), 0, BallType::Ball)];
    let area = Rect::new(0, 0, px(4000), px(4000));
    assert_eq!(pick_ball(&balls, area, Vec2::new(px(-100) + px(5), px(3))), Some(1));
    assert_eq!(pick_ball(&balls, area, Vec2::new(px(-100) + px(20), 0)), None);
}

#[test]
fn slow_down_and_orbit_all() {
    let body = attractor();
    let mut balls = vec![Ball::new(Vec2::new(px(300), 0), Vec2::new(101, -7), px(3), 40, 0, 0, BallType::Ball)];
    slow_down_all(&mut balls);
    assert_eq!(balls[0].velocity, Vec2::new(50, -3));
    assert_eq!(balls[0].prev_position, Vec2::new(px(300) - 50, 3));
    orbit_all(&mut balls, &body, GRAVITY);
    let v = celestial_pong::gravity::get_orbital_velocity(&balls[0], &body, GRAVITY);
    assert_eq!(balls[0].velocity, v);
    assert!(v.y > 0);
}

#[test]
fn damping_with_negative_elasticity() {
    let v = damping(Vec2::new(0, 0), Vec2::new(1200, -2400), 1, -12);
    assert_eq!(v, Vec2::new(-100, 200));
    assert_eq!(damping(Vec2::new(5, 5), Vec2::new(5, 5), 1, 3), Vec2::zero());
}

#[test]
fn two_bonus_bodies_plant_two_markers() {
    let balls = vec![
        ball(px(50), 0, BallType::GoodBall),
        ball(-px(50), 0, BallType::GoodBall),
        ball(0, px(50), BallType::Ball),
    ];
    let bodies = vec![attractor()];
    let tree = build_tree(&balls, Rect::new(0, 0, px(4000), px(4000)));
    let mut marked = unmarked(3);
    marked[1] = true;
    let mut flowers: Vec<SeededFlower> = Vec::new();
    consume_touching(&balls, &bodies, &tree, &mut marked, &mut flowers, 10);
    // the second bonus body was already flagged, so only the first plants a marker
    assert_eq!(marked, vec![true, true, true]);
    assert_eq!(flowers, vec![seed_marker(&balls[0], &bodies[0])]);
}

#[test]
fn level_configuration_is_settable() {
    let params = LevelParameters {
        window_size: Vec2::new(px(1000), px(1000)),
        play_area_size: Vec2::new(px(1000), px(1000)),
    };
    let mut a = GardenLevel::new(params);
    let mut b = GardenLevel::new(params);
    assert_eq!(a.trace_index, 0);
    a.init();
    b.config.gravity = a.config.gravity * 2;
    b.init();
    assert_ne!(a.balls[0].velocity, b.balls[0].velocity);
    let idle = FrameInput { toggle_pause: true, reset: false, shot: None };
    let before = a.balls.clone();
    a.update(&idle);
    assert_eq!(a.balls, before);
    let resume = FrameInput { toggle_pause: true, reset: false, shot: None };
    a.update(&resume);
    assert_ne!(a.balls, before);
}

#[test]
fn collision_area_includes_all_edges() {
    let b = ball(0, 0, BallType::Ball);
    let area = b.get_collision_area();
    assert!(area.holds(Vec2::new(px(14), px(14))));
    assert!(area.holds(Vec2::new(-px(14), -px(14))));
    assert!(!area.holds(Vec2::new(px(14) + 1, 0)));
    let others = vec![b, ball(px(14), 0, BallType::Ball)];
    let tree = build_tree(&others, Rect::new(0, 0, px(4000), px(4000)));
    let mut near = Vec::new();
    tree.query_entries(&area, &mut near);
    assert_eq!(near.len(), 2);
}

#[test]
fn shot_velocity_points_at_target() {
    let v = celestial_pong::garden_level::shot_velocity(Vec2::new(0, 0), Vec2::new(300, -400), 7000);
    assert_eq!(v, Vec2::new(4200, -5600));
    assert_eq!(celestial_pong::garden_level::shot_velocity(Vec2::new(9, 9), Vec2::new(9, 9), 7000), Vec2::zero());
}

#[test]
fn drawn_directions_are_filtered() {
    assert_eq!(celestial_pong::simulation::accept_direction(3000, 4000), Some(Vec2::new(3000, 4000)));
    assert_eq!(celestial_pong::simulation::accept_direction(3, 4), None);
    assert_eq!(celestial_pong::simulation::accept_direction(32768, 32768), None);
}
