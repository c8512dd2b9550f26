use celestial_pong::ball::{Ball, BallType};
use celestial_pong::garden_level::{FrameInput, GardenLevel, Shot, NB_BALLS};
use celestial_pong::quad_tree::{QuadTree, QuadTreeEntry, Rect};
use celestial_pong::sandbox_level::{SandboxInput, SandboxLevel};
use celestial_pong::simulation::{
    build_tree, collide_all, contains_index, random_orbital_pos, record_traces, remove_marked,
    terminal_score, unmarked, LevelParameters,
};
use celestial_pong::vector::{isqrt, Vec2, COORD_LIMIT, SUBPIXELS};

fn px(v: i64) -> i64 {
    v * SUBPIXELS
}

fn typed(x: i64, t: BallType) -> Ball {
    Ball::new(Vec2::new(x, 0), Vec2::zero(), px(7), 40, 0, 0, t)
}

fn params() -> LevelParameters {
    LevelParameters {
        window_size: Vec2::new(px(1000), px(1000)),
        play_area_size: Vec2::new(px(1000), px(1000)),
    }
}

#[test]
fn quadtree_completeness() {
    let area = Rect::new(0, 0, px(4000), px(4000));
    let mut tree = QuadTree::new(area);
    let mut seed: u64 = 12345;
    let n = 500;
    for i in 0..n {
        seed = seed.wrapping_mul(6364136223846793005).wrapping_add(1442695040888963407);
        let x = ((seed >> 33) % 4_000_000) as i64 - 2_000_000;
        seed = seed.wrapping_mul(6364136223846793005).wrapping_add(1442695040888963407);
        let y = ((seed >> 33) % 4_000_000) as i64 - 2_000_000;
        tree.add(QuadTreeEntry::new(Vec2::new(x * 1000, y * 1000), i));
    }
    assert!(tree.children.is_some());
    let mut out = Vec::new();
    tree.query_entries(&area, &mut out);
    assert_eq!(out.len(), n);
    let mut payloads: Vec<usize> = out.iter().map(|e| e.payload).collect();
    payloads.sort();
    payloads.dedup();
    assert_eq!(payloads.len(), n);
}

#[test]
fn quadtree_equal_positions_do_not_split_forever() {
    let area = Rect::new(0, 0, 64, 64);
    let mut tree = QuadTree::new(area);
    for i in 0..40 {
        tree.add(QuadTreeEntry::new(Vec2::new(5, 5), i));
    }
    let mut out = Vec::new();
    tree.query_entries(&Rect::new(5, 5, 2, 2), &mut out);
    assert_eq!(out.len(), 40);
}

#[test]
fn quadtree_drops_outside_and_filters_window() {
    let area = Rect::new(0, 0, 100, 100);
    let mut tree = QuadTree::new(area);
    tree.add(QuadTreeEntry::new(Vec2::new(10, 10), 0));
    tree.add(QuadTreeEntry::new(Vec2::new(-10, 10), 1));
    tree.add(QuadTreeEntry::new(Vec2::new(500, 0), 2));
    tree.add(QuadTreeEntry::new(Vec2::new(-50, -50), 3));
    tree.add(QuadTreeEntry::new(Vec2::new(50, 0), 4));
    let mut all = Vec::new();
    tree.query_entries(&area, &mut all);
    let mut p: Vec<usize> = all.iter().map(|e| e.payload).collect();
    p.sort();
    assert_eq!(p, vec![0, 1, 3]);
    let mut some = Vec::new();
    tree.query_entries(&Rect::new(0, 10, 21, 2), &mut some);
    let mut q: Vec<usize> = some.iter().map(|e| e.payload).collect();
    q.sort();
    assert_eq!(q, vec![0, 1]);
}

#[test]
fn no_double_collision() {
    let mut balls = Vec::new();
    for i in 0..6 {
        balls.push(Ball::new(
            Vec2::new(i * px(3), 0),
            Vec2::new(if i % 2 == 0 { 500 } else { -500 }, 0),
            px(7),
            40,
            0,
            0,
            BallType::Ball,
        ));
    }
    let area = Rect::new(0, 0, px(4000), px(4000));
    let tree = build_tree(&balls, area);
    let mut collided = Vec::new();
    collide_all(&mut balls, &tree, &mut collided, 1, 100);
    assert!(!collided.is_empty());
    assert_eq!(collided.len() % 2, 0);
    for (k, a) in collided.iter().enumerate() {
        assert!(*a < balls.len());
        for b in collided.iter().skip(k + 1) {
            assert_ne!(a, b);
        }
    }
}

#[test]
fn deletion_index_safety() {
    let mut balls: Vec<Ball> = (0..6).map(|i| typed(i * 100, BallType::Ball)).collect();
    let before = balls.clone();
    let mut marked = unmarked(6);
    marked[1] = true;
    marked[4] = true;
    let selected = remove_marked(&mut balls, &marked, Some(3));
    assert_eq!(selected, Some(2));
    assert_eq!(balls[2], before[3]);
    assert_eq!(balls.len(), 4);
    assert_eq!(balls, vec![before[0], before[2], before[3], before[5]]);
    let mut again = before.clone();
    assert_eq!(remove_marked(&mut again, &marked, Some(4)), None);
    let mut third = before.clone();
    assert_eq!(remove_marked(&mut third, &marked, Some(0)), Some(0));
    assert_eq!(remove_marked(&mut third, &unmarked(4), None), None);
}

#[test]
fn termination_counts_neutral_bodies() {
    let balls = vec![
        typed(0, BallType::Ball),
        typed(1, BallType::GoodBall),
        typed(2, BallType::Ball),
        typed(3, BallType::Projectil),
    ];
    assert_eq!(terminal_score(&balls, 0), Some(2));
    assert_eq!(terminal_score(&balls, 3), Some(32));
    let mut hostile = balls.clone();
    hostile.push(typed(4, BallType::BadBall));
    assert_eq!(terminal_score(&hostile, 0), None);
    assert_eq!(terminal_score(&Vec::new(), 0), Some(0));
}

#[test]
fn contains_index_finds_members() {
    let v = vec![3, 9, 1];
    assert!(contains_index(&v, 9));
    assert!(!contains_index(&v, 2));
}

#[test]
fn traces_wrap_around() {
    let mut traces = vec![Vec2::zero(); 3];
    let balls: Vec<Ball> = (1..=4).map(|i| typed(i, BallType::Ball)).collect();
    let next = record_traces(&mut traces, 1, &balls);
    assert_eq!(next, 2);
    assert_eq!(traces, vec![Vec2::new(3, 0), Vec2::new(4, 0), Vec2::new(2, 0)]);
}

#[test]
fn random_positions_lie_on_the_ring() {
    let rng = macroquad::rand::RandGenerator::new();
    rng.srand(7);
    let mut distinct = std::collections::HashSet::new();
    for _ in 0..200 {
        let p = random_orbital_pos(Vec2::zero(), px(210) as i32, px(351) as i32, &rng);
        let d = isqrt((p.x as i128 * p.x as i128 + p.y as i128 * p.y as i128) as u128) as i64;
        assert!(d >= px(209) && d <= px(352), "distance {}", d);
        distinct.insert(p);
    }
    assert!(distinct.len() > 190);
}

#[test]
fn garden_reset_builds_population() {
    let mut level = GardenLevel::new(params());
    level.init();
    level.reset(1);
    assert_eq!(level.balls.len(), NB_BALLS);
    let bad = level.balls.iter().filter(|b| b.ball_type == BallType::BadBall).count();
    let good = level.balls.iter().filter(|b| b.ball_type == BallType::GoodBall).count();
    assert_eq!(bad, 20);
    assert_eq!(good, 15);
    assert_eq!(level.balls.iter().filter(|b| b.ball_type == BallType::Ball).count(), 265);
    let mut other = GardenLevel::new(params());
    other.init();
    other.reset(1);
    assert_eq!(level.balls, other.balls);
    other.reset(2);
    assert_ne!(level.balls, other.balls);
    for b in &level.balls {
        let d = isqrt((b.position.x as i128).pow(2) as u128 + (b.position.y as i128).pow(2) as u128);
        assert!(d as i64 >= px(209) && d as i64 <= px(352));
    }
}

#[test]
fn end_to_end_scenario() {
    let mut level = GardenLevel::new(params());
    level.init();
    level.reset(1);
    assert_eq!(level.static_bodies[0].mass, 10_000_000);
    let mut count = level.balls.len();
    assert_eq!(count, 300);
    for _ in 0..1000 {
        level.step();
        assert!(level.balls.len() <= count);
        count = level.balls.len();
        for b in &level.balls {
            assert!(b.position.x.abs() <= COORD_LIMIT && b.position.y.abs() <= COORD_LIMIT);
        }
    }
    assert!(count <= 300);
}

#[test]
fn garden_pause_and_shots() {
    let mut level = GardenLevel::new(params());
    level.init();
    let input = FrameInput { toggle_pause: true, reset: false, shot: None };
    let before = level.balls.clone();
    assert_eq!(level.update(&input), None);
    assert!(level.paused);
    assert_eq!(level.balls, before);
    let shot = Shot { origin: Vec2::new(px(300), px(300)), velocity: Vec2::new(px(7), 0) };
    let fire = FrameInput { toggle_pause: false, reset: false, shot: Some(shot) };
    level.update(&fire);
    assert_eq!(level.balls.len(), before.len() + 1);
    let last = level.balls[level.balls.len() - 1];
    assert_eq!(last.ball_type, BallType::Projectil);
    assert_eq!(last.prev_position, Vec2::new(px(293), px(300)));
    assert!(!level.spawn_projectile(Vec2::new(COORD_LIMIT + 1, 0), Vec2::zero()));
}

#[test]
fn garden_wins_once_hostiles_are_gone() {
    let mut level = GardenLevel::new(params());
    level.init();
    level.balls.retain(|b| b.ball_type != BallType::BadBall);
    let neutral = level.balls.iter().filter(|b| b.ball_type == BallType::Ball).count();
    assert_eq!(level.is_terminal(), Some(neutral + 10 * level.seeded_flowers.len()));
}

#[test]
fn sandbox_drag_and_release() {
    let mut level = SandboxLevel::new(Vec2::new(px(1000), px(1000)), Vec2::new(px(1000), px(1000)));
    level.init();
    assert_eq!(level.balls.len(), 220);
    let target = level.balls[10].position;
    let press = SandboxInput {
        toggle_pause: true,
        toggle_drawing: false,
        slow_down: false,
        reset: false,
        orbit: false,
        cursor: target,
        pressed: true,
        released: false,
    };
    level.update(&press);
    assert!(level.paused);
    let sel = level.selected_ball.expect("a body lies under the cursor");
    assert!(sel < level.balls.len());
    let release = SandboxInput { toggle_pause: false, pressed: false, released: true, ..press };
    level.update(&release);
    assert_eq!(level.selected_ball, None);
}

#[test]
fn sandbox_slow_down_halves_velocity() {
    let mut level = SandboxLevel::new(Vec2::new(px(1000), px(1000)), Vec2::new(px(1000), px(1000)));
    level.init();
    let v0 = level.balls[0].velocity;
    let input = SandboxInput {
        toggle_pause: true,
        toggle_drawing: false,
        slow_down: true,
        reset: false,
        orbit: false,
        cursor: Vec2::new(px(5000), px(5000)),
        pressed: false,
        released: false,
    };
    level.update(&input);
    assert_eq!(level.balls[0].velocity, Vec2::new(v0.x / 2, v0.y / 2));
}
