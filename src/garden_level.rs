use vstd::prelude::*;

use crate::ball::{wrap_angle, wrap_angle_spec, Ball, BallType, MAX_DT, TURN};
use crate::gravity::{
    along, get_orbital_velocity, lemma_component_le_sqrt, orbital_spec, GRAVITY, GRAVITY_LIMIT,
};
use crate::quad_tree::{QuadTree, Rect};
use crate::random::gen_range_i32;
use crate::simulation::{
    all_wf, build_tree, collide_all, collision_outcome, consume_touching, consumed, escaped,
    index_entries, integrate_all, integrated, kept, mark_escaped, in_band, planted,
    random_orbital_pos, record_traces, remove_marked, score_spec, terminal_score, unmarked,
    has_hostile, count_type, lemma_integrated_types, lemma_collision_types, lemma_kept_member,
    LevelParameters, SeededFlower, SimConfig, MAX_AREA,
};
use crate::vector::{floor_sqrt, isqrt, trunc_div, Vec2, COORD_LIMIT, VEL_LIMIT};
use macroquad::rand::RandGenerator;

verus! {

/// Bodies placed by a reset.
pub const NB_BALLS: usize = 300;

/// Radius of a neutral body (7 px).
pub const BALL_RADII: i64 = 7340032;

/// Radius of a hostile body (1.3 times a neutral one).
pub const BAD_BALL_RADII: i64 = 9542041;

/// Radius of a bonus body (0.8 times a neutral one).
pub const SEED_RADII: i64 = 5872025;

/// Radius of a projectile (1.2 times a neutral one).
pub const PROJECTILE_RADII: i64 = 8808038;

pub const BALL_MASS: i64 = 40;

pub const PROJECTILE_MASS: i64 = 80;

/// The first indices of a reset population are hostile.
pub const NB_BAD_BALLS: usize = 20;

/// The indices after the hostile ones are bonus bodies.
pub const NB_SEED: usize = 15;

pub const BODY_MASS: i64 = 10000000;

/// Radius of the attractor (90 px).
pub const BODY_RADIUS: i64 = 94371840;

/// Orbit-trap steering acceleration (10 px/s^2).
pub const ORBIT_TRAP: i64 = 182;

/// Squared velocity gap beyond which the orbit trap steers ((3 px/s)^2).
pub const ORBIT_TRAP_SIZE: i64 = 171798692;

/// Inner radius of the start ring (210 px).
pub const MIN_START_ORBIT: i32 = 220200960;

/// Outer radius of the start ring (351 px).
pub const MAX_START_ORBIT: i32 = 368050176;

/// Slots of the position trace buffer.
pub const TRACE_SIZE: usize = 5000;

/// One tick.
pub const SIMULATION_DT: i64 = 1;

/// Share of the relative normal speed a collision keeps, in percent.
pub const RESTITUTION: i64 = 100;

/// Most moving bodies a level holds; projectiles beyond it are refused.
pub const MAX_BALLS: usize = 1000000;

/// Most markers a level plants.
pub const MAX_MARKERS: usize = 1000000;

/// Largest start spin, in angle units per tick (one turn per second).
pub const MAX_SPIN: i32 = 4369;

/// Radius of the player's orbit (400 px).
pub const PLAYER_ORBIT: i64 = 419430400;

/// Angular speed of the player, in angle units per tick (-0.15 rad/s).
pub const PLAYER_SPEED: i64 = -104;

/// Speed of a projectile (7 px per tick).
pub const SHOT_SPEED: i64 = 7340032;

/// Velocity of magnitude `speed` (rounded toward zero per component) along the line from
/// `from` toward `to`; none when the two points coincide.
pub open spec fn aim_spec(from: Vec2, to: Vec2, speed: int) -> Vec2 {
    let d = to.sub_spec(from);
    let l = floor_sqrt(d.len_sq());
    if l == 0 {
        Vec2 { x: 0, y: 0 }
    } else {
        Vec2 { x: trunc_div(d.x * speed, l) as i64, y: trunc_div(d.y * speed, l) as i64 }
    }
}

/// The velocity of a shot fired from `from` toward `to` at `speed`.
pub fn shot_velocity(from: Vec2, to: Vec2, speed: i64) -> (r: Vec2)
    requires
        from.within(COORD_LIMIT as int),
        to.within(COORD_LIMIT as int),
        0 <= speed <= 549755813888,
    ensures
        r == aim_spec(from, to, speed as int),
        r.within(speed as int),
{
    let d = to.sub(from);
    let l = isqrt(d.length_squared() as u128) as i128;
    if l == 0 {
        return Vec2::zero();
    }
    proof {
        lemma_component_le_sqrt(d.x as int, d.y as int, l as int);
        lemma_component_le_sqrt(d.y as int, d.x as int, l as int);
    }
    Vec2 { x: along(d.x, speed as i128, l), y: along(d.y, speed as i128, l) }
}

/// Type of the body a reset puts at `index`.
pub open spec fn garden_type(index: int) -> BallType {
    if index < NB_BAD_BALLS {
        BallType::BadBall
    } else if index < NB_BAD_BALLS + NB_SEED {
        BallType::GoodBall
    } else {
        BallType::Ball
    }
}

/// Radius of a reset body of type `t`.
pub open spec fn garden_radius(t: BallType) -> int {
    match t {
        BallType::BadBall => BAD_BALL_RADII as int,
        BallType::GoodBall => SEED_RADII as int,
        _ => BALL_RADII as int,
    }
}

/// What a reset puts at `index`: a body of the index's type and radius on the start ring
/// around `center`, moving on the circular orbit of the attractor `body`.
pub open spec fn reset_body(b: Ball, index: int, body: Ball, gravity: int) -> bool {
    &&& b.wf()
    &&& b.ball_type == garden_type(index)
    &&& b.radius == garden_radius(b.ball_type)
    &&& b.mass == BALL_MASS
    &&& exists|rad: int|
        MIN_START_ORBIT <= rad <= MAX_START_ORBIT && in_band(b.position.sub_spec(body.position), rad)
    &&& b.velocity == orbital_spec(body.position.sub_spec(b.position), gravity, body.mass as int)
    &&& b == b.with_velocity(b.velocity, SIMULATION_DT as int)
}

/// Replaces the population with `NB_BALLS` bodies on a ring around the first attractor.
pub fn reset_balls(
    balls: &mut Vec<Ball>,
    static_bodies: &Vec<Ball>,
    gravity: i64,
    rng: &RandGenerator,
)
    requires
        static_bodies.len() > 0,
        0 < gravity <= GRAVITY_LIMIT,
        all_wf(static_bodies@),
    ensures
        final(balls).len() == NB_BALLS,
        all_wf(final(balls)@),
        forall|i: int|
            0 <= i < NB_BALLS ==> reset_body(#[trigger] final(balls)[i], i, static_bodies[0], gravity as int),
{
    balls.clear();
    let body = static_bodies[0];
    let mut index: usize = 0;
    while index < NB_BALLS
        invariant
            index <= NB_BALLS,
            balls.len() == index,
            body == static_bodies[0],
            body.wf(),
            forall|i: int| 0 <= i < index ==> reset_body(#[trigger] balls[i], i, body, gravity as int),
            0 < gravity <= GRAVITY_LIMIT,
        decreases NB_BALLS - index,
    {
        let position = random_orbital_pos(body.position, MIN_START_ORBIT, MAX_START_ORBIT, rng);
        let ball_type = if index < NB_BAD_BALLS {
            BallType::BadBall
        } else if index < NB_BAD_BALLS + NB_SEED {
            BallType::GoodBall
        } else {
            BallType::Ball
        };
        let radius = match ball_type {
            BallType::BadBall => BAD_BALL_RADII,
            BallType::GoodBall => SEED_RADII,
            _ => BALL_RADII,
        };
        let rotation = gen_range_i32(rng, -524288, 524288);
        let spin = gen_range_i32(rng, -MAX_SPIN, MAX_SPIN);
        let mut ball = Ball::new(
            position,
            Vec2::zero(),
            radius,
            BALL_MASS,
            rotation as i64,
            spin as i64,
            ball_type,
        );
        let v = get_orbital_velocity(&ball, &body, gravity);
        ball.set_velocity(v, SIMULATION_DT);
        balls.push(ball);
        index = index + 1;
    }
    proof {
        assert forall|i: int| 0 <= i < balls.len() implies (#[trigger] balls@[i]).wf() by {
            assert(reset_body(balls[i], i, body, gravity as int));
        }
    }
}

/// The bodies that left the play field after moving.
pub open spec fn escape_marks(
    moved: Seq<Ball>,
    kill_distance_squared: int,
    half_w: int,
    half_h: int,
) -> Seq<bool> {
    Seq::new(moved.len(), |i: int| escaped(moved[i], kill_distance_squared, half_w, half_h))
}

/// The bodies a garden tick removes: those that left the play field after moving, and
/// those an attractor consumed after the collisions.
pub open spec fn garden_marks(
    moved: Seq<Ball>,
    hit: Seq<Ball>,
    bodies: Seq<Ball>,
    t: QuadTree,
    kill_distance_squared: int,
    half_w: int,
    half_h: int,
) -> Seq<bool> {
    Seq::new(
        moved.len(),
        |i: int|
            escaped(moved[i], kill_distance_squared, half_w, half_h) || consumed(t, bodies, hit, i),
    )
}

/// The bodies of `before` after moving under gravity and the orbit trap.
pub open spec fn garden_moved(before: GardenLevel) -> Seq<Ball> {
    integrated(
        before.balls@,
        before.static_bodies@,
        before.config.gravity as int,
        before.config.trap_gain as int,
        before.config.trap_threshold as int,
        None,
        SIMULATION_DT as int,
    )
}

/// With `hit` the bodies after the collision pass: the collisions resolved as the pass
/// states, the escaped or consumed bodies removed in order, and one marker planted per
/// consumed bonus body.
pub open spec fn tick_outcome(before: GardenLevel, after: GardenLevel, hit: Seq<Ball>) -> bool {
    let moved = garden_moved(before);
    let kill = before.kill_distance_squared as int;
    let hw = before.level_parameters.window_size.x / 2;
    let hh = before.level_parameters.window_size.y / 2;
    let marks = garden_marks(moved, hit, before.static_bodies@, after.quad_tree, kill, hw, hh);
    &&& collision_outcome(
        after.quad_tree,
        moved,
        hit,
        after.collided_balls@,
        SIMULATION_DT as int,
        before.config.restitution as int,
    )
    &&& after.balls@ == kept(hit, marks, moved.len() as int)
    &&& planted(
        before.seeded_flowers@,
        after.seeded_flowers@,
        escape_marks(moved, kill, hw, hh),
        marks,
        hit,
        before.static_bodies@,
        MAX_MARKERS as int,
    )
}

/// One garden tick from `before` to `after`: the index rebuilt from the positions before
/// the tick, every body moved, the collisions resolved, the escaped or consumed bodies
/// removed and their markers planted.
pub open spec fn garden_tick(before: GardenLevel, after: GardenLevel) -> bool {
    &&& after.quad_tree.contents() =~= index_entries(
        before.balls@,
        before.tree_area,
        before.balls.len() as int,
    )
    &&& exists|hit: Seq<Ball>| #[trigger] tick_outcome(before, after, hit)
}

/// One frame of the garden level: `mid` is the level after the pause toggle and the
/// reset, `ticked` after the tick (none while paused), `after` after the shot.
pub open spec fn garden_frame(
    before: GardenLevel,
    input: FrameInput,
    mid: GardenLevel,
    ticked: GardenLevel,
    after: GardenLevel,
) -> bool {
    &&& mid == (GardenLevel {
        paused: mid.paused,
        balls: mid.balls,
        seeded_flowers: mid.seeded_flowers,
        ..before
    })
    &&& mid.paused == (before.paused != input.toggle_pause)
    &&& !input.reset ==> mid.balls == before.balls && mid.seeded_flowers == before.seeded_flowers
    &&& input.reset ==> {
        &&& mid.balls.len() == NB_BALLS
        &&& forall|i: int|
            0 <= i < NB_BALLS ==> reset_body(
                #[trigger] mid.balls[i],
                i,
                before.static_bodies[0],
                before.config.gravity as int,
            )
        &&& mid.seeded_flowers.len() == 0
    }
    &&& ticked.player == (Player {
        azimut: wrap_angle_spec(mid.player.azimut + mid.player.azimut_speed * SIMULATION_DT)
            as i64,
        ..mid.player
    })
    &&& mid.paused ==> ticked == (GardenLevel { player: ticked.player, ..mid })
    &&& !mid.paused ==> {
        &&& garden_tick(mid, ticked)
        &&& ticked.paused == mid.paused
        &&& ticked.static_bodies == mid.static_bodies
        &&& ticked.tree_area == mid.tree_area
        &&& ticked.kill_distance_squared == mid.kill_distance_squared
        &&& ticked.level_parameters == mid.level_parameters
        &&& ticked.config == mid.config
    }
    &&& after == (GardenLevel { balls: after.balls, ..ticked })
    &&& match input.shot {
        Some(shot) => if shot.origin.within(COORD_LIMIT as int) && shot.velocity.within(
            VEL_LIMIT as int,
        ) && ticked.balls.len() < MAX_BALLS {
            after.balls@ == ticked.balls@.push(
                Ball::new_spec(
                    shot.origin,
                    shot.velocity,
                    PROJECTILE_RADII,
                    PROJECTILE_MASS,
                    BallType::Projectil,
                ),
            )
        } else {
            after.balls@ == ticked.balls@
        },
        None => after.balls@ == ticked.balls@,
    }
}

/// A frame without a reset brings no hostile body into a population that has none, so
/// the frame ends the level with the score of the neutral bodies and the markers.
pub proof fn lemma_frame_keeps_hostiles_out(
    before: GardenLevel,
    input: FrameInput,
    mid: GardenLevel,
    ticked: GardenLevel,
    after: GardenLevel,
)
    requires
        garden_frame(before, input, mid, ticked, after),
        !input.reset,
        !has_hostile(before.balls@),
    ensures
        !has_hostile(after.balls@),
        score_spec(after.balls@, after.seeded_flowers.len() as int) == Some(
            count_type(after.balls@, BallType::Ball, after.balls.len() as int) + 10
                * after.seeded_flowers.len(),
        ),
{
    assert(mid.balls == before.balls);
    if !mid.paused {
        let hit = choose|hit: Seq<Ball>| #[trigger] tick_outcome(mid, ticked, hit);
        let moved = garden_moved(mid);
        lemma_integrated_types(
            mid.balls@,
            mid.static_bodies@,
            mid.config.gravity as int,
            mid.config.trap_gain as int,
            mid.config.trap_threshold as int,
            None,
            SIMULATION_DT as int,
        );
        lemma_collision_types(
            ticked.quad_tree,
            moved,
            hit,
            ticked.collided_balls@,
            SIMULATION_DT as int,
            mid.config.restitution as int,
        );
        let marks = garden_marks(
            moved,
            hit,
            mid.static_bodies@,
            ticked.quad_tree,
            mid.kill_distance_squared as int,
            mid.level_parameters.window_size.x / 2,
            mid.level_parameters.window_size.y / 2,
        );
        assert forall|j: int| 0 <= j < ticked.balls.len() implies (#[trigger] ticked.balls@[j]).ball_type
            != BallType::BadBall by {
            lemma_kept_member(hit, marks, moved.len() as int, j);
            let i = choose|i: int|
                0 <= i < moved.len() && #[trigger] hit[i] == kept(hit, marks, moved.len() as int)[j];
            assert(hit[i].ball_type == moved[i].ball_type);
            assert(moved[i].ball_type == mid.balls@[i].ball_type);
            assert(mid.balls@[i].ball_type != BallType::BadBall);
        }
    }
    assert forall|j: int| 0 <= j < after.balls.len() implies (#[trigger] after.balls@[j]).ball_type
        != BallType::BadBall by {
        if j < ticked.balls.len() {
            assert(after.balls@[j] == ticked.balls@[j]);
        }
    }
}

/// The player's reticle: it circles `orbiting_center` at `orbiting_radius`, at angle
/// `azimut` (in angle units, `TURN` to a turn).
#[derive(Clone, Copy, PartialEq, Eq, Structural, Debug)]
pub struct Player {
    pub orientation: i64,
    pub orbiting_center: Vec2,
    pub orbiting_radius: i64,
    pub azimut: i64,
    pub azimut_speed: i64,
}

impl Player {
    pub open spec fn wf(self) -> bool {
        0 <= self.azimut < TURN && -TURN <= self.azimut_speed <= TURN
    }

    /// Turns the reticle along its orbit for `dt` ticks.
    pub fn update(&mut self, dt: i64)
        requires
            old(self).wf(),
            1 <= dt <= MAX_DT,
        ensures
            final(self).wf(),
            *final(self) == (Player {
                azimut: wrap_angle_spec(old(self).azimut + old(self).azimut_speed * dt) as i64,
                ..*old(self)
            }),
    {
        proof {
            crate::vector::lemma_mul_abs_bound(
                self.azimut_speed as int,
                dt as int,
                TURN as int,
                MAX_DT as int,
            );
        }
        self.azimut = wrap_angle(self.azimut + self.azimut_speed * dt);
    }
}

/// A shot the player fired this frame.
#[derive(Clone, Copy, PartialEq, Eq, Structural, Debug)]
pub struct Shot {
    pub origin: Vec2,
    pub velocity: Vec2,
}

/// What the player did this frame.
#[derive(Clone, Copy, PartialEq, Eq, Structural, Debug)]
pub struct FrameInput {
    pub toggle_pause: bool,
    pub reset: bool,
    pub shot: Option<Shot>,
}

/// The garden level: moving bodies orbiting one attractor; the level ends once every
/// hostile body is gone.
pub struct GardenLevel {
    pub paused: bool,
    pub balls: Vec<Ball>,
    pub static_bodies: Vec<Ball>,
    pub tree_area: Rect,
    pub quad_tree: QuadTree,
    pub player: Player,
    pub collided_balls: Vec<usize>,
    pub traces: Vec<Vec2>,
    pub trace_index: usize,
    pub seeded_flowers: Vec<SeededFlower>,
    pub kill_distance_squared: i128,
    pub level_parameters: LevelParameters,
    pub config: SimConfig,
}

impl GardenLevel {
    pub open spec fn wf(self) -> bool {
        &&& all_wf(self.balls@)
        &&& self.balls.len() <= MAX_BALLS
        &&& all_wf(self.static_bodies@)
        &&& self.tree_area.wf()
        &&& self.quad_tree.wf()
        &&& self.traces.len() == TRACE_SIZE
        &&& self.trace_index < TRACE_SIZE
        &&& self.seeded_flowers.len() <= MAX_MARKERS
        &&& self.player.wf()
        &&& self.level_parameters.wf()
        &&& self.kill_distance_squared >= 0
        &&& self.collided_balls@.no_duplicates()
        &&& self.config.wf()
    }

    /// An empty level for the given window and play area.
    pub fn new(level_parameters: LevelParameters) -> (r: GardenLevel)
        requires
            level_parameters.wf(),
        ensures
            r.wf(),
            !r.paused,
            r.balls.len() == 0,
            r.static_bodies.len() == 0,
            r.seeded_flowers.len() == 0,
            r.trace_index == 0,
            r.collided_balls.len() == 0,
            r.player == (Player {
                orientation: 0,
                orbiting_center: Vec2::zero_spec(),
                orbiting_radius: PLAYER_ORBIT,
                azimut: 0,
                azimut_speed: PLAYER_SPEED,
            }),
            r.level_parameters == level_parameters,
            r.config == (SimConfig {
                gravity: GRAVITY,
                trap_gain: ORBIT_TRAP,
                trap_threshold: ORBIT_TRAP_SIZE,
                restitution: RESTITUTION,
            }),
            r.tree_area == Rect::new_spec(
                0,
                0,
                4 * level_parameters.play_area_size.x,
                4 * level_parameters.play_area_size.x,
            ),
            r.kill_distance_squared == level_parameters.window_size.x
                * level_parameters.window_size.x / 2,
    {
        let side = level_parameters.play_area_size.x * 4;
        let tree_area = Rect::new(0, 0, side, side);
        let mut traces: Vec<Vec2> = Vec::new();
        let mut i: usize = 0;
        while i < TRACE_SIZE
            invariant
                i <= TRACE_SIZE,
                traces.len() == i,
            decreases TRACE_SIZE - i,
        {
            traces.push(Vec2::zero());
            i = i + 1;
        }
        let w = level_parameters.window_size.x as i128;
        proof {
            crate::vector::lemma_mul_abs_bound(w as int, w as int, MAX_AREA as int, MAX_AREA as int);
        }
        GardenLevel {
            paused: false,
            balls: Vec::new(),
            static_bodies: Vec::new(),
            tree_area,
            quad_tree: QuadTree::new(tree_area),
            player: Player {
                orientation: 0,
                orbiting_center: Vec2::zero(),
                orbiting_radius: PLAYER_ORBIT,
                azimut: 0,
                azimut_speed: PLAYER_SPEED,
            },
            collided_balls: Vec::new(),
            traces,
            trace_index: 0,
            seeded_flowers: Vec::new(),
            kill_distance_squared: w * w / 2,
            level_parameters,
            config: SimConfig {
                gravity: GRAVITY,
                trap_gain: ORBIT_TRAP,
                trap_threshold: ORBIT_TRAP_SIZE,
                restitution: RESTITUTION,
            },
        }
    }

    /// Places the attractor at the origin and the first population around it, drawn from
    /// a generator in its initial state.
    pub fn init(&mut self)
        requires
            old(self).wf(),
            old(self).static_bodies.len() == 0,
        ensures
            final(self).wf(),
            final(self).static_bodies.len() == 1,
            final(self).static_bodies[0] == Ball::new_spec(
                Vec2::zero_spec(),
                Vec2::zero_spec(),
                BODY_RADIUS,
                BODY_MASS,
                BallType::Body,
            ),
            final(self).balls.len() == NB_BALLS,
            forall|i: int|
                0 <= i < NB_BALLS ==> reset_body(
                    #[trigger] final(self).balls[i],
                    i,
                    final(self).static_bodies[0],
                    final(self).config.gravity as int,
                ),
            final(self).config == old(self).config,
    {
        let body = Ball::new(Vec2::zero(), Vec2::zero(), BODY_RADIUS, BODY_MASS, 0, 0, BallType::Body);
        self.static_bodies.push(body);
        let rng = RandGenerator::new();
        reset_balls(&mut self.balls, &self.static_bodies, self.config.gravity, &rng);
    }

    /// Replaces the moving population with a fresh one drawn from `seed`, and clears the
    /// planted markers.
    pub fn reset(&mut self, seed: u64)
        requires
            old(self).wf(),
            old(self).static_bodies.len() > 0,
        ensures
            final(self).wf(),
            final(self).static_bodies == old(self).static_bodies,
            final(self).balls.len() == NB_BALLS,
            final(self).seeded_flowers.len() == 0,
            final(self).paused == old(self).paused,
            final(self).tree_area == old(self).tree_area,
            final(self).kill_distance_squared == old(self).kill_distance_squared,
            final(self).level_parameters == old(self).level_parameters,
            forall|i: int|
                0 <= i < NB_BALLS ==> reset_body(
                    #[trigger] final(self).balls[i],
                    i,
                    old(self).static_bodies[0],
                    old(self).config.gravity as int,
                ),
            final(self).config == old(self).config,
            *final(self) == (GardenLevel {
                balls: final(self).balls,
                seeded_flowers: final(self).seeded_flowers,
                ..*old(self)
            }),
    {
        let rng = RandGenerator::new();
        rng.srand(seed);
        reset_balls(&mut self.balls, &self.static_bodies, self.config.gravity, &rng);
        self.seeded_flowers.clear();
    }

    pub fn toggle_pause(&mut self)
        ensures
            *final(self) == (GardenLevel { paused: !old(self).paused, ..*old(self) }),
    {
        self.paused = !self.paused;
    }

    /// Adds a projectile at `origin` moving at `velocity` (sub-pixels per tick). It is
    /// refused, and `false` returned, when a value lies out of range or the level is full.
    pub fn spawn_projectile(&mut self, origin: Vec2, velocity: Vec2) -> (r: bool)
        requires
            old(self).wf(),
        ensures
            final(self).wf(),
            r == (origin.within(COORD_LIMIT as int) && velocity.within(VEL_LIMIT as int)
                && old(self).balls.len() < MAX_BALLS),
            r ==> final(self).balls@ == old(self).balls@.push(
                Ball::new_spec(origin, velocity, PROJECTILE_RADII, PROJECTILE_MASS, BallType::Projectil),
            ),
            !r ==> final(self).balls@ == old(self).balls@,
            final(self).static_bodies == old(self).static_bodies,
            final(self).paused == old(self).paused,
            final(self).seeded_flowers == old(self).seeded_flowers,
            *final(self) == (GardenLevel { balls: final(self).balls, ..*old(self) }),
    {
        let ok = -COORD_LIMIT <= origin.x && origin.x <= COORD_LIMIT && -COORD_LIMIT <= origin.y
            && origin.y <= COORD_LIMIT && -VEL_LIMIT <= velocity.x && velocity.x <= VEL_LIMIT
            && -VEL_LIMIT <= velocity.y && velocity.y <= VEL_LIMIT && self.balls.len() < MAX_BALLS;
        if !ok {
            return false;
        }
        let ball = Ball::new(
            origin,
            velocity,
            PROJECTILE_RADII,
            PROJECTILE_MASS,
            0,
            0,
            BallType::Projectil,
        );
        self.balls.push(ball);
        proof {
            assert forall|i: int| 0 <= i < self.balls.len() implies (#[trigger] self.balls@[i]).wf() by {
                if i < old(self).balls.len() {
                    assert(old(self).balls@[i].wf());
                }
            }
        }
        true
    }

    /// One simulation tick (when not paused), then the reticle's move. The tick rebuilds
    /// the index from the current positions, moves every body, resolves the collisions,
    /// and removes the bodies that escaped or were consumed.
    pub fn step(&mut self)
        requires
            old(self).wf(),
        ensures
            final(self).wf(),
            !old(self).paused ==> garden_tick(*old(self), *final(self)),
            old(self).paused ==> final(self).balls == old(self).balls && final(self).seeded_flowers
                == old(self).seeded_flowers,
            final(self).player == (Player {
                azimut: wrap_angle_spec(old(self).player.azimut + old(self).player.azimut_speed
                    * SIMULATION_DT) as i64,
                ..old(self).player
            }),
            final(self).balls.len() <= old(self).balls.len(),
            final(self).static_bodies == old(self).static_bodies,
            final(self).paused == old(self).paused,
            final(self).seeded_flowers.len() >= old(self).seeded_flowers.len(),
            final(self).tree_area == old(self).tree_area,
            final(self).kill_distance_squared == old(self).kill_distance_squared,
            final(self).level_parameters == old(self).level_parameters,
            final(self).config == old(self).config,
            old(self).paused ==> *final(self) == (GardenLevel {
                player: final(self).player,
                ..*old(self)
            }),
    {
        let ghost mut hit: Seq<Ball> = Seq::empty();
        if !self.paused {
            self.quad_tree = build_tree(&self.balls, self.tree_area);
            integrate_all(
                &mut self.balls,
                &self.static_bodies,
                self.config.gravity,
                self.config.trap_gain,
                self.config.trap_threshold,
                None,
                SIMULATION_DT,
            );
            self.trace_index = record_traces(&mut self.traces, self.trace_index, &self.balls);
            let mut marked = unmarked(self.balls.len());
            mark_escaped(
                &self.balls,
                &mut marked,
                self.kill_distance_squared,
                self.level_parameters.window_size.x / 2,
                self.level_parameters.window_size.y / 2,
            );
            self.collided_balls.clear();
            collide_all(
                &mut self.balls,
                &self.quad_tree,
                &mut self.collided_balls,
                SIMULATION_DT,
                self.config.restitution,
            );
            proof {
                hit = self.balls@;
            }
            let ghost marks_escaped = marked@;
            consume_touching(
                &self.balls,
                &self.static_bodies,
                &self.quad_tree,
                &mut marked,
                &mut self.seeded_flowers,
                MAX_MARKERS,
            );
            proof {
                let moved = integrated(
                    old(self).balls@,
                    old(self).static_bodies@,
                    old(self).config.gravity as int,
                    old(self).config.trap_gain as int,
                    old(self).config.trap_threshold as int,
                    None,
                    SIMULATION_DT as int,
                );
                assert(marked@ =~= garden_marks(
                    moved,
                    hit,
                    self.static_bodies@,
                    self.quad_tree,
                    self.kill_distance_squared as int,
                    self.level_parameters.window_size.x / 2,
                    self.level_parameters.window_size.y / 2,
                ));
                assert(marks_escaped =~= escape_marks(
                    moved,
                    self.kill_distance_squared as int,
                    self.level_parameters.window_size.x / 2,
                    self.level_parameters.window_size.y / 2,
                ));
            }
            remove_marked(&mut self.balls, &marked, None);
        }
        self.player.update(SIMULATION_DT);
        proof {
            if !old(self).paused {
                assert(tick_outcome(*old(self), *self, hit));
            }
        }
    }

    /// The final score once no hostile body remains: the neutral bodies plus ten per marker.
    pub fn is_terminal(&self) -> (r: Option<usize>)
        requires
            self.wf(),
        ensures
            r matches Some(v) ==> score_spec(self.balls@, self.seeded_flowers.len() as int)
                == Some(v as int),
            r is None ==> score_spec(self.balls@, self.seeded_flowers.len() as int) is None,
    {
        terminal_score(&self.balls, self.seeded_flowers.len())
    }

    /// One frame: applies the player's input, advances the simulation, and reports the
    /// final score once the level is won.
    pub fn update(&mut self, input: &FrameInput) -> (r: Option<usize>)
        requires
            old(self).wf(),
            input.reset ==> old(self).static_bodies.len() > 0,
        ensures
            exists|mid: GardenLevel, ticked: GardenLevel|
                #[trigger] garden_frame(*old(self), *input, mid, ticked, *final(self)),
            final(self).wf(),
            final(self).static_bodies == old(self).static_bodies,
            final(self).paused == (old(self).paused != input.toggle_pause),
            !input.reset ==> final(self).balls.len() <= old(self).balls.len() + 1,
            input.reset ==> final(self).balls.len() <= NB_BALLS + 1,
            input.shot is None ==> final(self).balls.len() <= if input.reset {
                NB_BALLS
            } else {
                old(self).balls.len()
            },
            r matches Some(v) ==> score_spec(
                final(self).balls@,
                final(self).seeded_flowers.len() as int,
            ) == Some(v as int),
            r is None ==> score_spec(final(self).balls@, final(self).seeded_flowers.len() as int)
                is None,
    {
        if input.toggle_pause {
            self.toggle_pause();
        }
        if input.reset {
            self.reset(1);
        }
        let ghost mid = *self;
        self.step();
        let ghost ticked = *self;
        if let Some(shot) = input.shot {
            self.spawn_projectile(shot.origin, shot.velocity);
        }
        assert(garden_frame(*old(self), *input, mid, ticked, *self));
        self.is_terminal()
    }
}

} // verus!
