use vstd::prelude::*;

use crate::quad_tree::Rect;
use crate::vector::{
    clamp_int, clamp_wide, lemma_mul_abs_bound, scale, div_trunc, lemma_trunc_div_bounds, trunc_div, Vec2, ACCEL_LIMIT,
    COORD_LIMIT, VEL_LIMIT,
};

verus! {

/// Angle units in one full turn.
pub const TURN: i64 = 1048576;

/// Largest radius of a body (sub-pixels).
pub const RADIUS_LIMIT: i64 = 4294967296;

/// Largest mass of a body.
pub const MASS_LIMIT: i64 = 4294967296;

/// Largest time step, in ticks, that one integration may take.
pub const MAX_DT: i64 = 1024;

/// What an entity is, which decides how the game treats it.
#[derive(Clone, Copy, PartialEq, Eq, Structural, Debug)]
pub enum BallType {
    /// A static massive anchor.
    Body,
    /// A neutral ball that counts toward the score.
    Ball,
    /// A hostile ball; the level ends once none is left.
    BadBall,
    /// A bonus ball that plants a marker when an attractor consumes it.
    GoodBall,
    /// A ball the player shot.
    Projectil,
}

/// One physical entity; `prev_position` carries its velocity for Verlet integration.
#[derive(Clone, Copy, PartialEq, Eq, Structural, Debug)]
pub struct Ball {
    pub position: Vec2,
    pub prev_position: Vec2,
    pub velocity: Vec2,
    pub radius: i64,
    pub mass: i64,
    pub rotation: i64,
    pub spin: i64,
    pub ball_type: BallType,
    pub double_radius: i64,
}

/// The vector with both components saturated into `[-limit, limit]`.
pub open spec fn clamp_vec(x: int, y: int, limit: int) -> Vec2 {
    Vec2 { x: clamp_int(x, limit) as i64, y: clamp_int(y, limit) as i64 }
}

/// An angle brought into `[0, TURN)`.
pub open spec fn wrap_angle_spec(t: int) -> int {
    t % (TURN as int)
}

pub fn wrap_angle(t: i64) -> (r: i64)
    requires
        -(MAX_DT + 1) * TURN <= t <= (MAX_DT + 1) * TURN,
    ensures
        r == wrap_angle_spec(t as int),
        0 <= r < TURN,
{
    if t >= 0 {
        let m = ((t as u64) % (TURN as u64)) as i64;
        proof {
            vstd::arithmetic::div_mod::lemma_fundamental_div_mod(t as int, TURN as int);
        }
        m
    } else {
        let nt: i64 = -t;
        let q = ((nt as u64) / (TURN as u64)) as i64;
        let m = ((nt as u64) % (TURN as u64)) as i64;
        proof {
            vstd::arithmetic::div_mod::lemma_fundamental_div_mod(nt as int, TURN as int);
            assert(nt == q * TURN + m);
        }
        if m == 0 {
            proof {
                vstd::arithmetic::div_mod::lemma_fundamental_div_mod_converse(
                    t as int,
                    TURN as int,
                    -q,
                    0,
                );
            }
            0
        } else {
            proof {
                vstd::arithmetic::div_mod::lemma_fundamental_div_mod_converse(
                    t as int,
                    TURN as int,
                    -q - 1,
                    TURN - m,
                );
            }
            TURN - m
        }
    }
}

/// The angle a spin of `spin` units per tick turns through in `dt` ticks.
fn spin_step(spin: i64, dt: i64) -> (r: i64)
    requires
        -TURN <= spin <= TURN,
        1 <= dt <= MAX_DT,
    ensures
        r == spin * dt,
        -TURN * MAX_DT <= r <= TURN * MAX_DT,
{
    proof {
        lemma_mul_abs_bound(spin as int, dt as int, TURN as int, MAX_DT as int);
    }
    spin * dt
}

/// Dividing a multiple of `k` by `k` gives the factor back.
pub proof fn lemma_trunc_div_exact(c: int, k: int)
    requires
        k > 0,
    ensures
        trunc_div(c * k, k) == c,
{
    if c >= 0 {
        vstd::arithmetic::div_mod::lemma_div_by_multiple(c, k);
        assert(c * k >= 0) by (nonlinear_arith)
            requires
                c >= 0,
                k > 0,
        ;
    } else {
        vstd::arithmetic::div_mod::lemma_div_by_multiple(-c, k);
        assert(c * k < 0 && -(c * k) == (-c) * k) by (nonlinear_arith)
            requires
                c < 0,
                k > 0,
        ;
    }
}

/// Verlet round trip: after `set_velocity(v, dt)`, one Verlet step of `dt` ticks with no
/// acceleration moves the body by exactly `v * dt` and reports velocity `v` (as long as
/// the positions involved stay within the coordinate range).
pub proof fn lemma_verlet_round_trip(b: Ball, v: Vec2, dt: int)
    requires
        b.wf(),
        1 <= dt <= MAX_DT,
        v.within(VEL_LIMIT as int),
        -COORD_LIMIT <= b.position.x - v.x * dt <= COORD_LIMIT,
        -COORD_LIMIT <= b.position.y - v.y * dt <= COORD_LIMIT,
        -COORD_LIMIT <= b.position.x + v.x * dt <= COORD_LIMIT,
        -COORD_LIMIT <= b.position.y + v.y * dt <= COORD_LIMIT,
    ensures
        ({
            let after = b.with_velocity(v, dt).verlet_step(dt, Vec2 { x: 0, y: 0 });
            &&& after.velocity == v
            &&& after.position.x == b.position.x + v.x * dt
            &&& after.position.y == b.position.y + v.y * dt
            &&& after.prev_position == b.position
        }),
{
    let s = b.with_velocity(v, dt);
    assert(s.prev_position.x == b.position.x - v.x * dt);
    assert(s.prev_position.y == b.position.y - v.y * dt);
    let next = s.verlet_next(dt, Vec2 { x: 0, y: 0 });
    assert(0 * dt * dt == 0) by (nonlinear_arith);
    assert(next.x == b.position.x + v.x * dt);
    assert(next.y == b.position.y + v.y * dt);
    lemma_trunc_div_exact(v.x as int, dt);
    lemma_trunc_div_exact(v.y as int, dt);
    assert(v.x * dt == (v.x as int) * dt);
}

/// Equal masses meeting head-on along a line swap their velocities when the collision
/// keeps all of the relative normal speed.
pub proof fn lemma_head_on_swap(a: Ball, b: Ball)
    requires
        a.wf(),
        b.wf(),
        touching(a, b),
        approaching(a, b),
        a.mass == b.mass,
        a.position.y == b.position.y,
        a.velocity.y == 0,
        b.velocity.y == 0,
    ensures
        collision_velocities(a, b, 100) == (b.velocity, a.velocity),
{
    lemma_touching_bounds(a, b);
    let rel = a.velocity.sub_spec(b.velocity);
    let n = a.position.sub_spec(b.position);
    let rx = rel.x as int;
    let nx = n.x as int;
    assert(n.y == 0);
    assert(rel.y == 0);
    assert(rel.dot_spec(n) == rx * nx) by (nonlinear_arith)
        requires
            rel.dot_spec(n) == rel.x * n.x + rel.y * n.y,
            n.y == 0,
            rel.y == 0,
            rx == rel.x,
            nx == n.x,
    ;
    assert(n.len_sq() == nx * nx) by (nonlinear_arith)
        requires
            n.len_sq() == n.x * n.x + n.y * n.y,
            n.y == 0,
            nx == n.x,
    ;
    assert(nx != 0) by (nonlinear_arith)
        requires
            rel.dot_spec(n) == rx * nx,
            rel.dot_spec(n) < 0,
    ;
    assert(nx * nx > 0) by (nonlinear_arith)
        requires
            nx != 0,
    ;
    assert(rx * nx * nx == rx * (nx * nx)) by (nonlinear_arith);
    lemma_trunc_div_exact(rx, nx * nx);
    assert(rx * nx * 0 == 0) by (nonlinear_arith);
    assert(normal_part(rel, n, nx) == rx);
    assert(normal_part(rel, n, n.y as int) == 0);
    let m = a.mass as int;
    assert((100 + 100) * m * rx == rx * (100 * (m + m))) by (nonlinear_arith);
    assert(100 * (m + m) > 0);
    lemma_trunc_div_exact(rx, 100 * (m + m));
    assert(impulse_share(rx, m, m + m, 100) == rx);
    assert((100 + 100) * m * 0 == 0 * (100 * (m + m))) by (nonlinear_arith);
    lemma_trunc_div_exact(0, 100 * (m + m));
    assert(impulse_share(0, m, m + m, 100) == 0);
}

/// Momentum before and after a collision, component by component, differs by less than
/// the sum of the two masses (the rounding of the two velocity changes), as long as no
/// velocity saturates.
pub proof fn lemma_collision_momentum(a: Ball, b: Ball, restitution: int)
    requires
        a.wf(),
        b.wf(),
        0 <= restitution <= 100,
        ({
            let rel = a.velocity.sub_spec(b.velocity);
            let n = a.position.sub_spec(b.position);
            let m = a.mass + b.mass;
            let kx = normal_part(rel, n, n.x as int);
            let ky = normal_part(rel, n, n.y as int);
            &&& -VEL_LIMIT <= a.velocity.x - impulse_share(kx, b.mass as int, m, restitution) <= VEL_LIMIT
            &&& -VEL_LIMIT <= a.velocity.y - impulse_share(ky, b.mass as int, m, restitution) <= VEL_LIMIT
            &&& -VEL_LIMIT <= b.velocity.x + impulse_share(kx, a.mass as int, m, restitution) <= VEL_LIMIT
            &&& -VEL_LIMIT <= b.velocity.y + impulse_share(ky, a.mass as int, m, restitution) <= VEL_LIMIT
        }),
    ensures
        ({
            let (va, vb) = collision_velocities(a, b, restitution);
            let m = a.mass + b.mass;
            &&& -m < a.mass * va.x + b.mass * vb.x - (a.mass * a.velocity.x + b.mass * b.velocity.x) < m
            &&& -m < a.mass * va.y + b.mass * vb.y - (a.mass * a.velocity.y + b.mass * b.velocity.y) < m
        }),
{
    let rel = a.velocity.sub_spec(b.velocity);
    let n = a.position.sub_spec(b.position);
    let m = a.mass + b.mass;
    let kx = normal_part(rel, n, n.x as int);
    let ky = normal_part(rel, n, n.y as int);
    lemma_share_balance(kx, a.mass as int, b.mass as int, restitution);
    lemma_share_balance(ky, a.mass as int, b.mass as int, restitution);
    let (va, vb) = collision_velocities(a, b, restitution);
    let sax = impulse_share(kx, b.mass as int, m, restitution);
    let sbx = impulse_share(kx, a.mass as int, m, restitution);
    let say = impulse_share(ky, b.mass as int, m, restitution);
    let sby = impulse_share(ky, a.mass as int, m, restitution);
    assert(va.x == a.velocity.x - sax);
    assert(vb.x == b.velocity.x + sbx);
    assert(va.y == a.velocity.y - say);
    assert(vb.y == b.velocity.y + sby);
    let ma = a.mass as int;
    let mb = b.mass as int;
    assert(ma * (a.velocity.x - sax) + mb * (b.velocity.x + sbx) - (ma * a.velocity.x + mb
        * b.velocity.x) == mb * sbx - ma * sax) by (nonlinear_arith);
    assert(ma * (a.velocity.y - say) + mb * (b.velocity.y + sby) - (ma * a.velocity.y + mb
        * b.velocity.y) == mb * sby - ma * say) by (nonlinear_arith);
}

/// The two rounded velocity changes of a collision cancel in momentum up to the masses.
proof fn lemma_share_balance(k: int, ma: int, mb: int, e: int)
    requires
        ma > 0,
        mb > 0,
        0 <= e <= 100,
    ensures
        -(ma + mb) < mb * impulse_share(k, ma, ma + mb, e) - ma * impulse_share(k, mb, ma + mb, e)
            < ma + mb,
{
    let d = 100 * (ma + mb);
    let x1 = (100 + e) * mb * k;
    let x2 = (100 + e) * ma * k;
    lemma_trunc_div_bounds(x1, d);
    lemma_trunc_div_bounds(x2, d);
    let t1 = trunc_div(x1, d);
    let t2 = trunc_div(x2, d);
    // d * t1 differs from x1 by less than d, and likewise d * t2 from x2.
    assert(ma * x1 == mb * x2) by (nonlinear_arith)
        requires
            x1 == (100 + e) * mb * k,
            x2 == (100 + e) * ma * k,
    ;
    assert(-(ma + mb) * d < d * (mb * t2 - ma * t1) < (ma + mb) * d) by (nonlinear_arith)
        requires
            d * t1 - d < x1 < d * t1 + d,
            d * t2 - d < x2 < d * t2 + d,
            ma * x1 == mb * x2,
            ma > 0,
            mb > 0,
            d > 0,
    ;
    assert(-(ma + mb) < mb * t2 - ma * t1 < ma + mb) by (nonlinear_arith)
        requires
            -(ma + mb) * d < d * (mb * t2 - ma * t1) < (ma + mb) * d,
            d > 0,
    ;
}

/// The velocity change `impulse_share` gives, for masses within range.
fn impulse(k: i64, m_other: i64, m_sum: i128, e: i128) -> (r: i128)
    requires
        -IMPULSE_LIMIT <= k <= IMPULSE_LIMIT,
        0 < m_other <= MASS_LIMIT,
        m_other < m_sum <= 2 * MASS_LIMIT,
        100 <= e <= 200,
    ensures
        r == impulse_share(k as int, m_other as int, m_sum as int, e - 100),
        -2 * IMPULSE_LIMIT <= r <= 2 * IMPULSE_LIMIT,
{
    proof {
        lemma_mul_abs_bound(e as int, m_other as int, 200, MASS_LIMIT as int);
        lemma_mul_abs_bound((e * m_other) as int, k as int, 200 * MASS_LIMIT, IMPULSE_LIMIT as int);
    }
    let num = e * m_other as i128 * k as i128;
    let den = 100 * m_sum;
    let r = div_trunc(num, den);
    proof {
        lemma_trunc_div_bounds(num as int, den as int);
        let a = if num >= 0 { num as int } else { -num };
        assert(a <= 200 * m_other * IMPULSE_LIMIT) by (nonlinear_arith)
            requires
                a == if num >= 0 { num as int } else { -num },
                num == e * m_other * k,
                -IMPULSE_LIMIT <= k <= IMPULSE_LIMIT,
                100 <= e <= 200,
                m_other > 0,
        ;
        assert(a / (den as int) <= 2 * IMPULSE_LIMIT) by (nonlinear_arith)
            requires
                0 <= a <= 200 * m_other * IMPULSE_LIMIT,
                den == 100 * m_sum,
                m_sum > m_other > 0,
        ;
    }
    r
}

/// The radius sum of two bodies reaches the distance between their centres.
pub open spec fn touching(a: Ball, b: Ball) -> bool {
    b.position.sub_spec(a.position).len_sq() <= (a.radius + b.radius) * (a.radius + b.radius)
}

/// Largest magnitude of the relative normal velocity used in a collision.
pub const IMPULSE_LIMIT: i64 = 140737488355328;

/// The share of the relative velocity `rel` that lies along the normal `n`, component `c` of it.
pub open spec fn normal_part(rel: Vec2, n: Vec2, c: int) -> int {
    clamp_int(trunc_div(rel.dot_spec(n) * c, n.len_sq()), IMPULSE_LIMIT as int)
}

/// The velocity change of a body of mass `m_self` when a body of mass `m_other` takes
/// the normal part `k` off it, with `restitution` percent of the relative normal speed kept.
pub open spec fn impulse_share(k: int, m_other: int, m_sum: int, restitution: int) -> int {
    trunc_div((100 + restitution) * m_other * k, 100 * m_sum)
}

/// The velocities of `a` and `b` after they collide.
pub open spec fn collision_velocities(a: Ball, b: Ball, restitution: int) -> (Vec2, Vec2) {
    let rel = a.velocity.sub_spec(b.velocity);
    let n = a.position.sub_spec(b.position);
    let kx = normal_part(rel, n, n.x as int);
    let ky = normal_part(rel, n, n.y as int);
    let m = a.mass + b.mass;
    (
        clamp_vec(
            a.velocity.x - impulse_share(kx, b.mass as int, m, restitution),
            a.velocity.y - impulse_share(ky, b.mass as int, m, restitution),
            VEL_LIMIT as int,
        ),
        clamp_vec(
            b.velocity.x + impulse_share(kx, a.mass as int, m, restitution),
            b.velocity.y + impulse_share(ky, a.mass as int, m, restitution),
            VEL_LIMIT as int,
        ),
    )
}

/// The two bodies move toward each other.
pub open spec fn approaching(a: Ball, b: Ball) -> bool {
    a.velocity.sub_spec(b.velocity).dot_spec(a.position.sub_spec(b.position)) < 0
}

proof fn lemma_touching_bounds(a: Ball, b: Ball)
    requires
        a.wf(),
        b.wf(),
        touching(a, b),
    ensures
        a.position.sub_spec(b.position).within(2 * RADIUS_LIMIT),
        a.position.sub_spec(b.position).len_sq() <= 4 * RADIUS_LIMIT * RADIUS_LIMIT,
{
    let n = a.position.sub_spec(b.position);
    let m = b.position.sub_spec(a.position);
    assert(n.len_sq() == m.len_sq()) by (nonlinear_arith)
        requires
            n.x == -m.x,
            n.y == -m.y,
    ;
    let l = 2 * RADIUS_LIMIT;
    let rs = a.radius + b.radius;
    assert(rs * rs <= l * l) by (nonlinear_arith)
        requires
            0 < rs <= l,
    ;
    assert(n.x * n.x <= l * l) by (nonlinear_arith)
        requires
            n.x * n.x + n.y * n.y <= l * l,
    ;
    assert(n.y * n.y <= l * l) by (nonlinear_arith)
        requires
            n.x * n.x + n.y * n.y <= l * l,
    ;
    assert(-l <= n.x <= l) by (nonlinear_arith)
        requires
            n.x * n.x <= l * l,
            l > 0,
    ;
    assert(-l <= n.y <= l) by (nonlinear_arith)
        requires
            n.y * n.y <= l * l,
            l > 0,
    ;
}

impl Ball {
    /// The body with velocity `v` imposed over `dt` ticks.
    pub open spec fn with_velocity(self, v: Vec2, dt: int) -> Ball {
        Ball { prev_position: self.prev_for(v, dt), velocity: v, ..self }
    }

    pub open spec fn wf(self) -> bool {
        &&& 0 < self.radius <= RADIUS_LIMIT
        &&& self.double_radius == 2 * self.radius
        &&& 0 < self.mass <= MASS_LIMIT
        &&& self.position.within(COORD_LIMIT as int)
        &&& self.prev_position.within(COORD_LIMIT as int)
        &&& self.velocity.within(VEL_LIMIT as int)
        &&& 0 <= self.rotation < TURN
        &&& -TURN <= self.spin <= TURN
    }

    /// The previous position that gives velocity `v` over `dt` ticks.
    pub open spec fn prev_for(self, v: Vec2, dt: int) -> Vec2 {
        clamp_vec(
            self.position.x - v.x * dt,
            self.position.y - v.y * dt,
            COORD_LIMIT as int,
        )
    }

    /// The position one Verlet step of `dt` ticks under acceleration `acc` reaches.
    pub open spec fn verlet_next(self, dt: int, acc: Vec2) -> Vec2 {
        clamp_vec(
            2 * self.position.x - self.prev_position.x + acc.x * dt * dt,
            2 * self.position.y - self.prev_position.y + acc.y * dt * dt,
            COORD_LIMIT as int,
        )
    }

    /// The body after one Verlet step.
    pub open spec fn verlet_step(self, dt: int, acc: Vec2) -> Ball {
        let next = self.verlet_next(dt, acc);
        Ball {
            position: next,
            prev_position: self.position,
            velocity: Vec2 {
                x: trunc_div(next.x - self.position.x, dt) as i64,
                y: trunc_div(next.y - self.position.y, dt) as i64,
            },
            rotation: wrap_angle_spec(self.rotation + self.spin * dt) as i64,
            ..self
        }
    }

    /// The body `new` creates with no rotation and no spin.
    pub open spec fn new_spec(
        position: Vec2,
        velocity: Vec2,
        radius: i64,
        mass: i64,
        ball_type: BallType,
    ) -> Ball {
        Ball {
            position,
            prev_position: clamp_vec(
                position.x - velocity.x,
                position.y - velocity.y,
                COORD_LIMIT as int,
            ),
            velocity,
            radius,
            mass,
            rotation: 0,
            spin: 0,
            ball_type,
            double_radius: (2 * radius) as i64,
        }
    }

    /// Creates a body moving at `velocity` sub-pixels per tick.
    pub fn new(
        position: Vec2,
        velocity: Vec2,
        radius: i64,
        mass: i64,
        rotation: i64,
        spin: i64,
        ball_type: BallType,
    ) -> (r: Ball)
        requires
            position.within(COORD_LIMIT as int),
            velocity.within(VEL_LIMIT as int),
            0 < radius <= RADIUS_LIMIT,
            0 < mass <= MASS_LIMIT,
            -TURN <= rotation <= TURN,
            -TURN <= spin <= TURN,
        ensures
            r.wf(),
            r.position == position,
            r.velocity == velocity,
            r.prev_position == clamp_vec(
                position.x - velocity.x,
                position.y - velocity.y,
                COORD_LIMIT as int,
            ),
            r.radius == radius,
            r.mass == mass,
            r.rotation == wrap_angle_spec(rotation as int),
            r.spin == spin,
            r.ball_type == ball_type,
            rotation == 0 && spin == 0 ==> r == Ball::new_spec(
                position,
                velocity,
                radius,
                mass,
                ball_type,
            ),
    {
        let px = clamp_wide(position.x as i128 - velocity.x as i128, COORD_LIMIT);
        let py = clamp_wide(position.y as i128 - velocity.y as i128, COORD_LIMIT);
        Ball {
            position,
            prev_position: Vec2 { x: px, y: py },
            velocity,
            radius,
            mass,
            rotation: wrap_angle(rotation),
            spin,
            ball_type,
            double_radius: radius * 2,
        }
    }

    /// The square of side four radii centred on the body.
    pub open spec fn collision_area(self) -> Rect {
        Rect::new_spec(
            self.position.x as int,
            self.position.y as int,
            4 * self.radius,
            4 * self.radius,
        )
    }

    /// The closed square of side four radii centred on the body: where collision partners
    /// are looked for.
    pub fn get_collision_area(&self) -> (r: Rect)
        requires
            self.wf(),
        ensures
            r.wf(),
            r == self.collision_area(),
            forall|q: Vec2|
                #[trigger] r.holds_spec(q) <==> (-2 * self.radius <= q.x - self.position.x <= 2
                    * self.radius && -2 * self.radius <= q.y - self.position.y <= 2 * self.radius),
            r.left == self.position.x - 2 * self.radius,
            r.top == self.position.y - 2 * self.radius,
            r.width == 4 * self.radius,
            r.height == 4 * self.radius,
    {
        let s = self.radius * 4;
        Rect::new(self.position.x, self.position.y, s, s)
    }

    /// One explicit Euler step: velocity first, then position.
    pub fn update(&mut self, dt: i64, acc: Vec2)
        requires
            old(self).wf(),
            1 <= dt <= MAX_DT,
            acc.within(ACCEL_LIMIT as int),
        ensures
            final(self).wf(),
            final(self).velocity == clamp_vec(
                old(self).velocity.x + acc.x * dt,
                old(self).velocity.y + acc.y * dt,
                VEL_LIMIT as int,
            ),
            final(self).prev_position == old(self).position,
            final(self).position == clamp_vec(
                old(self).position.x + final(self).velocity.x * dt,
                old(self).position.y + final(self).velocity.y * dt,
                COORD_LIMIT as int,
            ),
            final(self).rotation == wrap_angle_spec(old(self).rotation + old(self).spin * dt),
            final(self).radius == old(self).radius,
            final(self).mass == old(self).mass,
            final(self).spin == old(self).spin,
            final(self).ball_type == old(self).ball_type,
    {
        let vx = clamp_wide(self.velocity.x as i128 + scale(acc.x, dt), VEL_LIMIT);
        let vy = clamp_wide(self.velocity.y as i128 + scale(acc.y, dt), VEL_LIMIT);
        self.velocity = Vec2 { x: vx, y: vy };
        self.prev_position = self.position;
        let nx = clamp_wide(self.position.x as i128 + scale(vx, dt), COORD_LIMIT);
        let ny = clamp_wide(self.position.y as i128 + scale(vy, dt), COORD_LIMIT);
        self.position = Vec2 { x: nx, y: ny };
        self.rotation = wrap_angle(self.rotation + spin_step(self.spin, dt));
    }

    /// One Verlet step: `next = 2 * position - prev_position + acc * dt^2`.
    pub fn update_verlet(&mut self, dt: i64, acc: Vec2)
        requires
            old(self).wf(),
            1 <= dt <= MAX_DT,
            acc.within(ACCEL_LIMIT as int),
        ensures
            final(self).wf(),
            *final(self) == old(self).verlet_step(dt as int, acc),
    {
        assert(1 <= dt * dt <= 1048576) by (nonlinear_arith)
            requires
                1 <= dt <= 1024,
        ;
        let dt2 = dt * dt;
        assert(acc.x * dt * dt == acc.x * dt2 && acc.y * dt * dt == acc.y * dt2) by (nonlinear_arith)
            requires
                dt2 == dt * dt,
        ;
        let nx = clamp_wide(
            2 * self.position.x as i128 - self.prev_position.x as i128 + scale(acc.x, dt2),
            COORD_LIMIT,
        );
        let ny = clamp_wide(
            2 * self.position.y as i128 - self.prev_position.y as i128 + scale(acc.y, dt2),
            COORD_LIMIT,
        );
        let vx = div_trunc(nx as i128 - self.position.x as i128, dt as i128);
        let vy = div_trunc(ny as i128 - self.position.y as i128, dt as i128);
        proof {
            lemma_trunc_div_bounds(nx - self.position.x, dt as int);
            lemma_trunc_div_bounds(ny - self.position.y, dt as int);
        }
        self.prev_position = self.position;
        self.position = Vec2 { x: nx, y: ny };
        self.velocity = Vec2 { x: vx as i64, y: vy as i64 };
        self.rotation = wrap_angle(self.rotation + spin_step(self.spin, dt));
    }

    /// Imposes velocity `v` by moving the previous position to `position - v * dt`.
    pub fn set_velocity(&mut self, velocity: Vec2, dt: i64)
        requires
            old(self).wf(),
            1 <= dt <= MAX_DT,
            velocity.within(VEL_LIMIT as int),
        ensures
            final(self).wf(),
            *final(self) == (Ball {
                prev_position: old(self).prev_for(velocity, dt as int),
                velocity,
                ..*old(self)
            }),
    {
        let px = clamp_wide(self.position.x as i128 - scale(velocity.x, dt), COORD_LIMIT);
        let py = clamp_wide(self.position.y as i128 - scale(velocity.y, dt), COORD_LIMIT);
        self.prev_position = Vec2 { x: px, y: py };
        self.velocity = velocity;
    }

    /// Resolves an elastic collision between two touching bodies, keeping `restitution`
    /// percent of the relative normal speed; bodies that already move apart are left alone.
    pub fn collide(&mut self, other: &mut Ball, dt: i64, restitution: i64)
        requires
            old(self).wf(),
            old(other).wf(),
            touching(*old(self), *old(other)),
            1 <= dt <= MAX_DT,
            0 <= restitution <= 100,
        ensures
            final(self).wf(),
            final(other).wf(),
            approaching(*old(self), *old(other)) ==> {
                let (va, vb) = collision_velocities(*old(self), *old(other), restitution as int);
                &&& *final(self) == old(self).with_velocity(va, dt as int)
                &&& *final(other) == old(other).with_velocity(vb, dt as int)
            },
            !approaching(*old(self), *old(other)) ==> *final(self) == *old(self) && *final(other)
                == *old(other),
    {
        proof {
            lemma_touching_bounds(*self, *other);
        }
        let rel = self.velocity.sub(other.velocity);
        let n = self.position.sub(other.position);
        let rvn = rel.dot(n);
        if rvn < 0 {
            let nn = n.length_squared();
            assert(nn > 0) by {
                if nn == 0 {
                    assert(n.x * n.x >= 0) by (nonlinear_arith);
                    assert(n.y * n.y >= 0) by (nonlinear_arith);
                    assert(n.x == 0) by (nonlinear_arith)
                        requires
                            n.x * n.x == 0,
                    ;
                    assert(n.y == 0) by (nonlinear_arith)
                        requires
                            n.y * n.y == 0,
                    ;
                    assert(rel.x * n.x == 0 && rel.y * n.y == 0) by (nonlinear_arith)
                        requires
                            n.x == 0,
                            n.y == 0,
                    ;
                }
            }
            let l = 2 * RADIUS_LIMIT;
            proof {
                lemma_mul_abs_bound(rel.x as int, n.x as int, 2 * VEL_LIMIT, l as int);
                lemma_mul_abs_bound(rel.y as int, n.y as int, 2 * VEL_LIMIT, l as int);
                lemma_mul_abs_bound(rvn as int, n.x as int, 4 * VEL_LIMIT * l, l as int);
                lemma_mul_abs_bound(rvn as int, n.y as int, 4 * VEL_LIMIT * l, l as int);
            }
            let kx = clamp_wide(div_trunc(rvn * n.x as i128, nn), IMPULSE_LIMIT);
            let ky = clamp_wide(div_trunc(rvn * n.y as i128, nn), IMPULSE_LIMIT);
            let m = self.mass as i128 + other.mass as i128;
            let e = 100 + restitution as i128;
            let da_x = impulse(kx, other.mass, m, e);
            let da_y = impulse(ky, other.mass, m, e);
            let db_x = impulse(kx, self.mass, m, e);
            let db_y = impulse(ky, self.mass, m, e);
            let va = Vec2 {
                x: clamp_wide(self.velocity.x as i128 - da_x, VEL_LIMIT),
                y: clamp_wide(self.velocity.y as i128 - da_y, VEL_LIMIT),
            };
            let vb = Vec2 {
                x: clamp_wide(other.velocity.x as i128 + db_x, VEL_LIMIT),
                y: clamp_wide(other.velocity.y as i128 + db_y, VEL_LIMIT),
            };
            self.set_velocity(va, dt);
            other.set_velocity(vb, dt);
        }
    }

    /// The two bodies touch: the distance between centres is at most the sum of the radii.
    pub fn check_collision(&self, other: &Ball) -> (r: bool)
        requires
            self.wf(),
            other.wf(),
        ensures
            r == touching(*self, *other),
    {
        let d = other.position.sub(self.position);
        let rs = (other.radius + self.radius) as i128;
        proof {
            lemma_mul_abs_bound(rs as int, rs as int, 2 * RADIUS_LIMIT, 2 * RADIUS_LIMIT);
        }
        d.length_squared() <= rs * rs
    }
}

} // verus!
