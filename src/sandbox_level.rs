use vstd::prelude::*;

use crate::ball::{Ball, BallType, TURN};
use crate::gravity::{
    damping, damping_spec, get_orbital_velocity, orbital_spec, GRAVITY, GRAVITY_LIMIT,
};
use crate::quad_tree::{in_rect, QuadTree, QuadTreeEntry, Rect};
use crate::random::gen_range_i32;
use crate::simulation::{
    all_wf, build_tree, collide_all, collision_outcome, consume_touching, consumed,
    index_entries, integrate_all, integrated, kept, in_band, random_orbital_pos,
    record_traces,
    remove_marked, shifted_selection, unmarked, SeededFlower, SimConfig, MAX_AREA,
};
use crate::vector::{trunc_div, Vec2, COORD_LIMIT, VEL_LIMIT};
use macroquad::rand::RandGenerator;
use vstd::multiset::Multiset;

verus! {

/// Bodies placed by a reset.
pub const NB_BALLS: usize = 220;

/// Radius of every moving body (3 px).
pub const RADII: i64 = 3145728;

pub const BALL_MASS: i64 = 40;

pub const BODY_MASS: i64 = 5000000;

/// Radius of the attractor (30 px).
pub const BODY_RADIUS: i64 = 31457280;

/// Orbit-trap steering acceleration (10 px/s^2).
pub const ORBIT_TRAP: i64 = 182;

/// Squared velocity gap beyond which the orbit trap steers ((3 px/s)^2).
pub const ORBIT_TRAP_SIZE: i64 = 171798692;

/// Inner radius of the start ring (290 px).
pub const MIN_START_ORBIT: i32 = 304087040;

/// Outer radius of the start ring (301 px).
pub const MAX_START_ORBIT: i32 = 315621376;

/// Slots of the position trace buffer.
pub const TRACE_SIZE: usize = 1000;

/// One tick.
pub const SIMULATION_DT: i64 = 1;

/// Share of the relative normal speed a collision keeps, in percent.
pub const RESTITUTION: i64 = 100;

/// Ticks a dragged body takes to close its gap to the cursor.
pub const DRAG_ELASTICITY: i64 = 12;

/// Side of the window searched for a body under the cursor (90 px).
pub const PICK_WINDOW: i64 = 94371840;

/// A body is under the cursor when its squared distance is below this (90 px^2).
pub const PICK_DISTANCE_SQUARED: i128 = 98956046499840;

/// Largest start spin, in angle units per tick (one turn per second).
pub const MAX_SPIN: i32 = 4369;

/// What the sandbox puts at any index of a reset: a neutral body on the start ring around
/// the attractor `body`, moving on its circular orbit.
pub open spec fn sandbox_body(b: Ball, body: Ball, gravity: int) -> bool {
    &&& b.wf()
    &&& b.ball_type == BallType::Ball
    &&& b.radius == RADII
    &&& b.mass == BALL_MASS
    &&& exists|rad: int|
        MIN_START_ORBIT <= rad <= MAX_START_ORBIT && in_band(b.position.sub_spec(body.position), rad)
    &&& b.velocity == orbital_spec(body.position.sub_spec(b.position), gravity, body.mass as int)
    &&& b == b.with_velocity(b.velocity, SIMULATION_DT as int)
}

/// Replaces the population with `NB_BALLS` bodies on a ring around the first attractor.
pub fn reset_balls(
    balls: &mut Vec<Ball>,
    static_bodies: &Vec<Ball>,
    gravity: i64,
    rng: &RandGenerator,
)
    requires
        static_bodies.len() > 0,
        0 < gravity <= GRAVITY_LIMIT,
        all_wf(static_bodies@),
    ensures
        final(balls).len() == NB_BALLS,
        all_wf(final(balls)@),
        forall|i: int| 0 <= i < NB_BALLS ==> sandbox_body(#[trigger] final(balls)[i], static_bodies[0], gravity as int),
{
    balls.clear();
    let body = static_bodies[0];
    let mut index: usize = 0;
    while index < NB_BALLS
        invariant
            index <= NB_BALLS,
            balls.len() == index,
            body == static_bodies[0],
            body.wf(),
            forall|i: int| 0 <= i < index ==> sandbox_body(#[trigger] balls[i], body, gravity as int),
            0 < gravity <= GRAVITY_LIMIT,
        decreases NB_BALLS - index,
    {
        let position = random_orbital_pos(body.position, MIN_START_ORBIT, MAX_START_ORBIT, rng);
        let rotation = gen_range_i32(rng, -524288, 524288);
        let spin = gen_range_i32(rng, -MAX_SPIN, MAX_SPIN);
        let mut ball = Ball::new(
            position,
            Vec2::zero(),
            RADII,
            BALL_MASS,
            rotation as i64,
            spin as i64,
            BallType::Ball,
        );
        let v = get_orbital_velocity(&ball, &body, gravity);
        ball.set_velocity(v, SIMULATION_DT);
        balls.push(ball);
        index = index + 1;
    }
    proof {
        assert forall|i: int| 0 <= i < balls.len() implies (#[trigger] balls@[i]).wf() by {
            assert(sandbox_body(balls[i], body, gravity as int));
        }
    }
}

/// The bodies a sandbox tick removes: those an attractor consumed after the collisions.
pub open spec fn sandbox_marks(hit: Seq<Ball>, bodies: Seq<Ball>, t: QuadTree) -> Seq<bool> {
    Seq::new(hit.len(), |i: int| consumed(t, bodies, hit, i))
}

/// Every body of `t` is the body of `s` with its velocity halved (rounded toward zero).
pub open spec fn with_velocities_halved(s: Seq<Ball>, t: Seq<Ball>) -> bool {
    &&& t.len() == s.len()
    &&& forall|i: int|
        0 <= i < s.len() ==> #[trigger] t[i] == s[i].with_velocity(
            Vec2 { x: trunc_div(s[i].velocity.x as int, 2) as i64, y: trunc_div(s[i].velocity.y as int, 2) as i64 },
            SIMULATION_DT as int,
        )
}

/// Halves every body's velocity.
pub fn slow_down_all(balls: &mut Vec<Ball>)
    requires
        all_wf(old(balls)@),
    ensures
        all_wf(final(balls)@),
        with_velocities_halved(old(balls)@, final(balls)@),
{
    let mut i: usize = 0;
    while i < balls.len()
        invariant
            balls.len() == old(balls).len(),
            i <= balls.len(),
            all_wf(balls@),
            forall|j: int| i <= j < balls.len() ==> #[trigger] balls[j] == old(balls)[j],
            forall|j: int|
                0 <= j < i ==> #[trigger] balls[j] == old(balls)[j].with_velocity(
                    Vec2 {
                        x: trunc_div(old(balls)[j].velocity.x as int, 2) as i64,
                        y: trunc_div(old(balls)[j].velocity.y as int, 2) as i64,
                    },
                    SIMULATION_DT as int,
                ),
        decreases balls.len() - i,
    {
        let mut b = balls[i];
        proof {
            crate::vector::lemma_trunc_div_bounds(b.velocity.x as int, 2);
            crate::vector::lemma_trunc_div_bounds(b.velocity.y as int, 2);
        }
        let v = Vec2 {
            x: crate::vector::div_trunc(b.velocity.x as i128, 2) as i64,
            y: crate::vector::div_trunc(b.velocity.y as i128, 2) as i64,
        };
        b.set_velocity(v, SIMULATION_DT);
        balls.set(i, b);
        i = i + 1;
    }
}

/// Puts every body back on the circular orbit of `body`.
pub fn orbit_all(balls: &mut Vec<Ball>, body: &Ball, gravity: i64)
    requires
        all_wf(old(balls)@),
        body.wf(),
        0 < gravity <= GRAVITY_LIMIT,
    ensures
        all_wf(final(balls)@),
        final(balls).len() == old(balls).len(),
        forall|i: int|
            0 <= i < old(balls).len() ==> #[trigger] final(balls)[i] == old(balls)[i].with_velocity(
                orbital_spec(
                    body.position.sub_spec(old(balls)[i].position),
                    gravity as int,
                    body.mass as int,
                ),
                SIMULATION_DT as int,
            ),
{
    let mut i: usize = 0;
    while i < balls.len()
        invariant
            balls.len() == old(balls).len(),
            i <= balls.len(),
            body.wf(),
            0 < gravity <= GRAVITY_LIMIT,
            all_wf(balls@),
            forall|j: int| i <= j < balls.len() ==> #[trigger] balls[j] == old(balls)[j],
            forall|j: int|
                0 <= j < i ==> #[trigger] balls[j] == old(balls)[j].with_velocity(
                    orbital_spec(
                        body.position.sub_spec(old(balls)[j].position),
                        gravity as int,
                        body.mass as int,
                    ),
                    SIMULATION_DT as int,
                ),
        decreases balls.len() - i,
    {
        let mut b = balls[i];
        let v = get_orbital_velocity(&b, body, gravity);
        b.set_velocity(v, SIMULATION_DT);
        balls.set(i, b);
        i = i + 1;
    }
}

/// `r` is a body within the pick distance of `cursor`; `None` only when no body whose
/// position lies in `area` is that close.
pub open spec fn picked(balls: Seq<Ball>, area: Rect, cursor: Vec2, r: Option<usize>) -> bool {
    &&& r matches Some(i) ==> i < balls.len() && balls[i as int].position.sub_spec(cursor).len_sq()
        < PICK_DISTANCE_SQUARED
    &&& r is None ==> forall|i: int|
        0 <= i < balls.len() && area.contains_spec(balls[i].position) ==> (#[trigger] balls[i]).position.sub_spec(
            cursor,
        ).len_sq() >= PICK_DISTANCE_SQUARED
}

/// The first body (in the order the index lists them) within the pick distance of
/// `cursor`, looked up in a fresh index of the current positions.
pub fn pick_ball(balls: &Vec<Ball>, area: Rect, cursor: Vec2) -> (r: Option<usize>)
    requires
        all_wf(balls@),
        area.wf(),
        cursor.within(COORD_LIMIT as int),
    ensures
        picked(balls@, area, cursor, r),
{
    broadcast use vstd::multiset::group_multiset_axioms;

    let tree = build_tree(balls, area);
    let window = Rect::new(cursor.x, cursor.y, PICK_WINDOW, PICK_WINDOW);
    let mut near: Vec<QuadTreeEntry> = Vec::new();
    proof {
        near@.to_multiset_ensures();
        assert(near@.to_multiset() =~= Multiset::empty());
    }
    tree.query_entries(&window, &mut near);
    let mut j: usize = 0;
    while j < near.len()
        invariant
            all_wf(balls@),
            tree.wf(),
            crate::simulation::payloads_below(tree, balls.len() as int),
            window.wf(),
            near@.to_multiset() =~= Multiset::<QuadTreeEntry>::empty().add(
                tree.contents().filter(in_rect(window)),
            ),
            j <= near.len(),
            cursor.within(COORD_LIMIT as int),
            tree.contents() =~= index_entries(balls@, area, balls.len() as int),
            forall|jj: int|
                0 <= jj < j ==> balls[(#[trigger] near[jj]).payload as int].position.sub_spec(
                    cursor,
                ).len_sq() >= PICK_DISTANCE_SQUARED,
        decreases near.len() - j,
    {
        let entry = near[j];
        proof {
            near@.to_multiset_ensures();
            assert(near@.contains(entry));
            assert(near@.to_multiset().count(entry) > 0);
            assert(tree.contents().filter(in_rect(window)).count(entry) > 0);
            assert(tree.contents().count(entry) > 0);
        }
        let i = entry.payload;
        if balls[i].position.sub(cursor).length_squared() < PICK_DISTANCE_SQUARED {
            return Some(i);
        }
        j = j + 1;
    }
    proof {
        assert forall|i: int|
            0 <= i < balls.len() && area.contains_spec(balls[i].position) implies (#[trigger] balls[i]).position.sub_spec(
            cursor,
        ).len_sq() >= PICK_DISTANCE_SQUARED by {
            let d = balls[i].position.sub_spec(cursor);
            if d.len_sq() < PICK_DISTANCE_SQUARED {
                let e = QuadTreeEntry { position: balls[i].position, payload: i as usize };
                crate::simulation::lemma_index_entries_has(balls@, area, balls.len() as int, i);
                assert(d.x * d.x < 47185920 * 47185920) by (nonlinear_arith)
                    requires
                        d.x * d.x + d.y * d.y < 98956046499840,
                ;
                assert(d.y * d.y < 47185920 * 47185920) by (nonlinear_arith)
                    requires
                        d.x * d.x + d.y * d.y < 98956046499840,
                ;
                assert(-47185920 < d.x < 47185920) by (nonlinear_arith)
                    requires
                        d.x * d.x < 47185920 * 47185920,
                ;
                assert(-47185920 < d.y < 47185920) by (nonlinear_arith)
                    requires
                        d.y * d.y < 47185920 * 47185920,
                ;
                assert(window.holds_spec(e.position));
                assert(tree.contents().count(e) > 0);
                assert(tree.contents().filter(in_rect(window)).count(e) > 0);
                assert(near@.to_multiset().count(e) > 0);
                near@.to_multiset_ensures();
                assert(near@.contains(e));
                let jj = choose|jj: int| 0 <= jj < near.len() && near@[jj] == e;
                assert(near[jj].payload == i as usize);
            }
        }
    }
    None
}

/// The frame's commands applied to `before`: pause and drawing toggles, then reset
/// (which pauses and clears the selection), slow-down and re-orbit.
pub open spec fn commands_applied(
    before: SandboxLevel,
    input: SandboxInput,
    after: SandboxLevel,
) -> bool {
    &&& after.static_bodies == before.static_bodies
    &&& after.tree_area == before.tree_area
    &&& after.config == before.config
    &&& after.paused == if input.reset {
        true
    } else {
        before.paused != input.toggle_pause
    }
    &&& after.drawing_enabled == (before.drawing_enabled != input.toggle_drawing)
    &&& after.quad_tree == before.quad_tree
    &&& after.collided_balls == before.collided_balls
    &&& after.traces == before.traces
    &&& after.trace_index == before.trace_index
    &&& after.ball_under == if input.reset {
        None
    } else {
        before.ball_under
    }
    &&& input.reset ==> {
        &&& after.balls.len() == NB_BALLS
        &&& after.selected_ball is None
        &&& forall|i: int|
            0 <= i < NB_BALLS ==> sandbox_body(
                #[trigger] after.balls[i],
                before.static_bodies[0],
                before.config.gravity as int,
            )
    }
    &&& !input.reset ==> after.selected_ball == before.selected_ball
    &&& !input.reset && !input.slow_down && !input.orbit ==> after.balls == before.balls
    &&& !input.reset && input.slow_down && !input.orbit ==> with_velocities_halved(
        before.balls@,
        after.balls@,
    )
    &&& !input.reset && input.orbit ==> after.balls.len() == before.balls.len() && forall|i: int|
        0 <= i < before.balls.len() ==> #[trigger] after.balls[i] == before.balls[i].with_velocity(
            orbital_spec(
                before.static_bodies[0].position.sub_spec(before.balls[i].position),
                before.config.gravity as int,
                before.static_bodies[0].mass as int,
            ),
            SIMULATION_DT as int,
        )
}

/// With `hit` the bodies after the collision pass: the collisions resolved as the pass
/// states, the consumed bodies removed in order, and the selection moved with its body.
pub open spec fn sandbox_outcome(before: SandboxLevel, after: SandboxLevel, hit: Seq<Ball>) -> bool {
    let moved = integrated(
        before.balls@,
        before.static_bodies@,
        before.config.gravity as int,
        before.config.trap_gain as int,
        before.config.trap_threshold as int,
        before.selected_ball,
        SIMULATION_DT as int,
    );
    let marks = sandbox_marks(hit, before.static_bodies@, after.quad_tree);
    &&& collision_outcome(
        after.quad_tree,
        moved,
        hit,
        after.collided_balls@,
        SIMULATION_DT as int,
        before.config.restitution as int,
    )
    &&& after.balls@ == kept(hit, marks, moved.len() as int)
    &&& after.selected_ball == shifted_selection(marks, before.selected_ball)
}

/// The tick of the sandbox from `before` to `after`: nothing moves while paused;
/// otherwise the index is rebuilt from the positions before the tick, every body but the
/// held one moves under gravity, collisions are resolved and consumed bodies removed.
pub open spec fn sandbox_stepped(before: SandboxLevel, after: SandboxLevel) -> bool {
    &&& after.static_bodies == before.static_bodies
    &&& after.tree_area == before.tree_area
    &&& after.config == before.config
    &&& after.paused == before.paused
    &&& after.drawing_enabled == before.drawing_enabled
    &&& before.paused ==> after == before
    &&& !before.paused ==> {
        &&& after.quad_tree.contents() =~= index_entries(
            before.balls@,
            before.tree_area,
            before.balls.len() as int,
        )
        &&& exists|hit: Seq<Ball>| #[trigger] sandbox_outcome(before, after, hit)
    }
}

/// The cursor applied to `before`: the body under the cursor is picked, a press selects
/// it, a release clears the selection, and the selected body is steered toward the cursor.
pub open spec fn cursor_applied(before: SandboxLevel, input: SandboxInput, after: SandboxLevel) -> bool {
    let sel = if input.released {
        None
    } else if input.pressed && after.ball_under is Some {
        after.ball_under
    } else {
        before.selected_ball
    };
    &&& picked(before.balls@, before.tree_area, input.cursor, after.ball_under)
    &&& after.selected_ball == sel
    &&& after == (SandboxLevel {
        balls: after.balls,
        selected_ball: after.selected_ball,
        ball_under: after.ball_under,
        ..before
    })
    &&& match sel {
        Some(i) => after.balls@ == before.balls@.update(
            i as int,
            before.balls[i as int].with_velocity(
                damping_spec(
                    before.balls[i as int].position,
                    input.cursor,
                    SIMULATION_DT as int,
                    DRAG_ELASTICITY as int,
                ),
                SIMULATION_DT as int,
            ),
        ),
        None => after.balls == before.balls,
    }
}

/// What the player did this frame in the sandbox (the cursor in world sub-pixels).
#[derive(Clone, Copy, PartialEq, Eq, Structural, Debug)]
pub struct SandboxInput {
    pub toggle_pause: bool,
    pub toggle_drawing: bool,
    pub slow_down: bool,
    pub reset: bool,
    pub orbit: bool,
    pub cursor: Vec2,
    pub pressed: bool,
    pub released: bool,
}

/// The sandbox: bodies orbit one attractor; the player can drag a body with the cursor.
pub struct SandboxLevel {
    pub paused: bool,
    pub drawing_enabled: bool,
    pub balls: Vec<Ball>,
    pub static_bodies: Vec<Ball>,
    pub tree_area: Rect,
    pub quad_tree: QuadTree,
    pub collided_balls: Vec<usize>,
    pub selected_ball: Option<usize>,
    pub traces: Vec<Vec2>,
    pub trace_index: usize,
    pub ball_under: Option<usize>,
    pub config: SimConfig,
}

impl SandboxLevel {
    pub open spec fn wf(self) -> bool {
        &&& all_wf(self.balls@)
        &&& all_wf(self.static_bodies@)
        &&& self.tree_area.wf()
        &&& self.quad_tree.wf()
        &&& self.traces.len() == TRACE_SIZE
        &&& self.trace_index < TRACE_SIZE
        &&& self.collided_balls@.no_duplicates()
        &&& self.selected_ball matches Some(s) ==> s < self.balls.len()
        &&& self.ball_under matches Some(s) ==> s < self.balls.len()
        &&& self.config.wf()
    }

    /// An empty sandbox whose index covers four times the play area's width.
    pub fn new(window_size: Vec2, play_area_size: Vec2) -> (r: SandboxLevel)
        requires
            0 < play_area_size.x <= MAX_AREA,
        ensures
            r.wf(),
            !r.paused,
            r.drawing_enabled,
            r.balls.len() == 0,
            r.static_bodies.len() == 0,
            r.selected_ball is None,
            r.config == (SimConfig {
                gravity: GRAVITY,
                trap_gain: ORBIT_TRAP,
                trap_threshold: ORBIT_TRAP_SIZE,
                restitution: RESTITUTION,
            }),
            r.tree_area == Rect::new_spec(0, 0, 4 * play_area_size.x, 4 * play_area_size.x),
    {
        let side = play_area_size.x * 4;
        let tree_area = Rect::new(0, 0, side, side);
        let mut traces: Vec<Vec2> = Vec::new();
        let mut i: usize = 0;
        while i < TRACE_SIZE
            invariant
                i <= TRACE_SIZE,
                traces.len() == i,
            decreases TRACE_SIZE - i,
        {
            traces.push(Vec2::zero());
            i = i + 1;
        }
        SandboxLevel {
            paused: false,
            drawing_enabled: true,
            balls: Vec::new(),
            static_bodies: Vec::new(),
            tree_area,
            quad_tree: QuadTree::new(tree_area),
            collided_balls: Vec::new(),
            selected_ball: None,
            traces,
            trace_index: 0,
            ball_under: None,
            config: SimConfig {
                gravity: GRAVITY,
                trap_gain: ORBIT_TRAP,
                trap_threshold: ORBIT_TRAP_SIZE,
                restitution: RESTITUTION,
            },
        }
    }

    /// Places the attractor at the origin and the first population around it.
    pub fn init(&mut self)
        requires
            old(self).wf(),
            old(self).static_bodies.len() == 0,
        ensures
            final(self).wf(),
            final(self).static_bodies.len() == 1,
            final(self).static_bodies[0] == Ball::new_spec(
                Vec2::zero_spec(),
                Vec2::zero_spec(),
                BODY_RADIUS,
                BODY_MASS,
                BallType::Body,
            ),
            final(self).balls.len() == NB_BALLS,
            forall|i: int|
                0 <= i < NB_BALLS ==> sandbox_body(
                    #[trigger] final(self).balls[i],
                    final(self).static_bodies[0],
                    final(self).config.gravity as int,
                ),
            final(self).selected_ball is None,
    {
        let body = Ball::new(Vec2::zero(), Vec2::zero(), BODY_RADIUS, BODY_MASS, 0, 0, BallType::Body);
        self.static_bodies.push(body);
        let rng = RandGenerator::new();
        reset_balls(&mut self.balls, &self.static_bodies, self.config.gravity, &rng);
        self.selected_ball = None;
        self.ball_under = None;
    }

    /// One simulation tick: the held body feels no gravity, and the selection follows
    /// its body through the deletions.
    pub fn step(&mut self)
        requires
            old(self).wf(),
        ensures
            final(self).wf(),
            sandbox_stepped(*old(self), *final(self)),
            final(self).balls.len() <= old(self).balls.len(),
            final(self).static_bodies == old(self).static_bodies,
            final(self).paused == old(self).paused,
            old(self).paused ==> final(self).balls == old(self).balls && final(self).selected_ball
                == old(self).selected_ball,
    {
        if self.paused {
            return ;
        }
        self.quad_tree = build_tree(&self.balls, self.tree_area);
        integrate_all(
            &mut self.balls,
            &self.static_bodies,
            self.config.gravity,
            self.config.trap_gain,
            self.config.trap_threshold,
            self.selected_ball,
            SIMULATION_DT,
        );
        self.trace_index = record_traces(&mut self.traces, self.trace_index, &self.balls);
        self.collided_balls.clear();
        collide_all(
            &mut self.balls,
            &self.quad_tree,
            &mut self.collided_balls,
            SIMULATION_DT,
            self.config.restitution,
        );
        let mut marked = unmarked(self.balls.len());
        let ghost hit = self.balls@;
        let mut markers: Vec<SeededFlower> = Vec::new();
        consume_touching(
            &self.balls,
            &self.static_bodies,
            &self.quad_tree,
            &mut marked,
            &mut markers,
            0,
        );
        assert(marked@ =~= sandbox_marks(hit, self.static_bodies@, self.quad_tree));
        self.selected_ball = remove_marked(&mut self.balls, &marked, self.selected_ball);
        self.ball_under = None;
        assert(sandbox_outcome(*old(self), *self, hit));
    }

    /// Applies the frame's commands: pause, drawing, slow-down, reset and re-orbit.
    pub fn apply_commands(&mut self, input: &SandboxInput)
        requires
            old(self).wf(),
            input.reset || input.orbit ==> old(self).static_bodies.len() > 0,
        ensures
            final(self).wf(),
            commands_applied(*old(self), *input, *final(self)),
    {
        if input.toggle_pause {
            self.paused = !self.paused;
        }
        if input.toggle_drawing {
            self.drawing_enabled = !self.drawing_enabled;
        }
        if input.slow_down {
            slow_down_all(&mut self.balls);
        }
        if input.reset {
            self.selected_ball = None;
            self.ball_under = None;
            self.paused = true;
            let rng = RandGenerator::new();
            rng.srand(1);
            reset_balls(&mut self.balls, &self.static_bodies, self.config.gravity, &rng);
        }
        let ghost mid = self.balls@;
        if input.orbit {
            let body = self.static_bodies[0];
            orbit_all(&mut self.balls, &body, self.config.gravity);
            proof {
                if input.reset {
                    assert forall|i: int| 0 <= i < NB_BALLS implies sandbox_body(
                        #[trigger] self.balls[i],
                        body,
                        self.config.gravity as int,
                    ) by {
                        assert(sandbox_body(mid[i], body, self.config.gravity as int));
                        assert(self.balls[i] == mid[i].with_velocity(
                            orbital_spec(
                                body.position.sub_spec(mid[i].position),
                                self.config.gravity as int,
                                body.mass as int,
                            ),
                            SIMULATION_DT as int,
                        ));
                        assert(self.balls[i] == mid[i]);
                    }
                } else {
                    assert forall|i: int| 0 <= i < old(self).balls.len() implies #[trigger] self.balls[i]
                        == old(self).balls[i].with_velocity(
                        orbital_spec(
                            body.position.sub_spec(old(self).balls[i].position),
                            self.config.gravity as int,
                            body.mass as int,
                        ),
                        SIMULATION_DT as int,
                    ) by {
                        assert(mid[i].position == old(self).balls[i].position);
                    }
                }
            }
        }
    }

    /// Picks the body under the cursor, updates the selection from the button, and drags
    /// the selected body toward the cursor.
    pub fn apply_cursor(&mut self, input: &SandboxInput)
        requires
            old(self).wf(),
            input.cursor.within(COORD_LIMIT as int),
        ensures
            final(self).wf(),
            cursor_applied(*old(self), *input, *final(self)),
    {
        self.ball_under = pick_ball(&self.balls, self.tree_area, input.cursor);
        if input.pressed {
            if let Some(entry) = self.ball_under {
                self.selected_ball = Some(entry);
            }
        }
        if input.released {
            self.selected_ball = None;
        }
        if let Some(i) = self.selected_ball {
            let mut b = self.balls[i];
            let v = damping(b.position, input.cursor, SIMULATION_DT, DRAG_ELASTICITY);
            b.set_velocity(v, SIMULATION_DT);
            self.balls.set(i, b);
            proof {
                assert forall|j: int| 0 <= j < self.balls.len() implies (#[trigger] self.balls@[j]).wf() by {
                    if j != i {
                        assert(old(self).balls@[j].wf());
                    }
                }
            }
        }
    }

    /// One frame: commands, then a tick, then the cursor.
    pub fn update(&mut self, input: &SandboxInput)
        requires
            old(self).wf(),
            input.reset || input.orbit ==> old(self).static_bodies.len() > 0,
            input.cursor.within(COORD_LIMIT as int),
        ensures
            final(self).wf(),
            exists|mid: SandboxLevel, ticked: SandboxLevel|
                #[trigger] sandbox_frame(*old(self), *input, mid, ticked, *final(self)),
    {
        self.apply_commands(input);
        let ghost mid = *self;
        self.step();
        let ghost ticked = *self;
        self.apply_cursor(input);
        assert(sandbox_frame(*old(self), *input, mid, ticked, *self));
    }
}

/// One frame of the sandbox: `mid` after the commands, `ticked` after the tick, `after`
/// after the cursor.
pub open spec fn sandbox_frame(
    before: SandboxLevel,
    input: SandboxInput,
    mid: SandboxLevel,
    ticked: SandboxLevel,
    after: SandboxLevel,
) -> bool {
    &&& commands_applied(before, input, mid)
    &&& sandbox_stepped(mid, ticked)
    &&& cursor_applied(ticked, input, after)
}

} // verus!
