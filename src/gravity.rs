use vstd::prelude::*;

use crate::ball::{clamp_vec, Ball, MASS_LIMIT, MAX_DT};
use crate::vector::{
    clamp_int, clamp_wide, div_trunc, floor_sqrt, isqrt, lemma_mul_abs_bound,
    lemma_trunc_div_bounds, trunc_div, Vec2, ACCEL_LIMIT, COORD_LIMIT, VEL_LIMIT,
};

verus! {

/// The gravitational constant in sub-pixels cubed per mass unit per tick squared
/// (one pixel cubed per mass unit per second squared, at 240 ticks per second).
pub const GRAVITY: i64 = 20015998343869;

/// Largest gravitational constant the engine takes.
pub const GRAVITY_LIMIT: i64 = 35184372088832;

/// `G * M` for gravitational constant `gravity` and an attractor of mass `mass`.
pub open spec fn pull(gravity: int, mass: int) -> int {
    gravity * mass
}

/// Acceleration on a body at offset `delta` from it toward an attractor of mass `mass`:
/// `G * M / d^2` along the unit vector `delta / d`; no force at zero distance.
pub open spec fn gravity_spec(delta: Vec2, gravity: int, mass: int) -> Vec2 {
    let d2 = delta.len_sq();
    let d = floor_sqrt(d2);
    if d == 0 {
        Vec2 { x: 0, y: 0 }
    } else {
        clamp_vec(
            trunc_div(trunc_div(pull(gravity, mass) * delta.x, d), d2),
            trunc_div(trunc_div(pull(gravity, mass) * delta.y, d), d2),
            ACCEL_LIMIT as int,
        )
    }
}

/// Circular-orbit velocity for a body at offset `delta` toward an attractor of mass
/// `mass`: speed `sqrt(G * M / d)`, perpendicular to `delta`; none at zero distance.
pub open spec fn orbital_spec(delta: Vec2, gravity: int, mass: int) -> Vec2 {
    let d = floor_sqrt(delta.len_sq());
    if d == 0 {
        Vec2 { x: 0, y: 0 }
    } else {
        let speed = floor_sqrt(pull(gravity, mass) / d);
        Vec2 { x: trunc_div(delta.y * speed, d) as i64, y: trunc_div(-delta.x * speed, d) as i64 }
    }
}

proof fn lemma_mass_pull(gravity: int, mass: int)
    requires
        0 < gravity <= GRAVITY_LIMIT,
        0 < mass <= MASS_LIMIT,
    ensures
        0 < pull(gravity, mass) <= GRAVITY_LIMIT * MASS_LIMIT,
{
    assert(0 < gravity * mass <= GRAVITY_LIMIT * MASS_LIMIT) by (nonlinear_arith)
        requires
            0 < gravity <= GRAVITY_LIMIT,
            0 < mass <= MASS_LIMIT,
    ;
}

/// A coordinate component stays below the distance it is a component of.
pub proof fn lemma_component_le_sqrt(c: int, o: int, d: int)
    requires
        d >= 0,
        c * c + o * o < (d + 1) * (d + 1),
    ensures
        -d <= c <= d,
{
    assert(o * o >= 0) by (nonlinear_arith);
    if c > d {
        assert(c * c >= (d + 1) * (d + 1)) by (nonlinear_arith)
            requires
                c >= d + 1,
                d >= 0,
        ;
    }
    if c < -d {
        assert(c * c >= (d + 1) * (d + 1)) by (nonlinear_arith)
            requires
                -c >= d + 1,
                d >= 0,
        ;
    }
}

/// `GM * c / d / d2`, rounded toward zero at each division and saturated.
fn pull_component(gm: i128, c: i64, d: i128, d2: i128) -> (r: i64)
    requires
        0 < gm <= GRAVITY_LIMIT * MASS_LIMIT,
        0 < d,
        -d <= c <= d,
        -2 * COORD_LIMIT <= c <= 2 * COORD_LIMIT,
        d * d <= d2,
    ensures
        r == clamp_int(trunc_div(trunc_div(gm * c, d as int), d2 as int), ACCEL_LIMIT as int),
{
    proof {
        lemma_mul_abs_bound(gm as int, c as int, GRAVITY_LIMIT * MASS_LIMIT, 2 * COORD_LIMIT);
    }
    assert(d2 > 0) by (nonlinear_arith)
        requires
            d * d <= d2,
            d > 0,
    ;
    let q = div_trunc(gm * c as i128, d);
    proof {
        lemma_trunc_div_bounds(gm * c, d as int);
    }
    clamp_wide(div_trunc(q, d2), ACCEL_LIMIT)
}

/// Gravitational acceleration that `body` gives `ball`.
pub fn get_gravity_force(ball: &Ball, body: &Ball, gravity: i64) -> (r: Vec2)
    requires
        ball.wf(),
        body.wf(),
        0 < gravity <= GRAVITY_LIMIT,
    ensures
        r == gravity_spec(body.position.sub_spec(ball.position), gravity as int, body.mass as int),
        r.within(ACCEL_LIMIT as int),
{
    let delta = body.position.sub(ball.position);
    let d2 = delta.length_squared();
    let d = isqrt(d2 as u128) as i128;
    if d == 0 {
        return Vec2::zero();
    }
    proof {
        lemma_mass_pull(gravity as int, body.mass as int);
        lemma_component_le_sqrt(delta.x as int, delta.y as int, d as int);
        lemma_component_le_sqrt(delta.y as int, delta.x as int, d as int);
    }
    let gm = gravity as i128 * body.mass as i128;
    Vec2 { x: pull_component(gm, delta.x, d, d2), y: pull_component(gm, delta.y, d, d2) }
}

/// `s * c / d`, rounded toward zero, for a component `c` of a vector of length `d`.
pub(crate) fn along(c: i64, s: i128, d: i128) -> (r: i64)
    requires
        0 < d,
        -d <= c <= d,
        -2 * COORD_LIMIT <= c <= 2 * COORD_LIMIT,
        0 <= s <= 549755813888,
    ensures
        r == trunc_div(c * s, d as int),
        -s <= r <= s,
{
    proof {
        lemma_mul_abs_bound(c as int, s as int, 2 * COORD_LIMIT, 549755813888);
        lemma_trunc_div_bounds(c * s, d as int);
        let a = if c >= 0 { c * s } else { -(c * s) };
        assert(0 <= a <= d * s) by (nonlinear_arith)
            requires
                a == if c >= 0 { c * s } else { -(c * s) },
                -d <= c <= d,
                s >= 0,
        ;
        assert(a / (d as int) <= s) by (nonlinear_arith)
            requires
                0 <= a <= d * s,
                d > 0,
        ;
    }
    div_trunc(c as i128 * s, d) as i64
}

/// Circular-orbit velocity of `b1` around `body`, perpendicular to the line between them.
pub fn get_orbital_velocity(b1: &Ball, body: &Ball, gravity: i64) -> (r: Vec2)
    requires
        b1.wf(),
        body.wf(),
        0 < gravity <= GRAVITY_LIMIT,
    ensures
        r == orbital_spec(body.position.sub_spec(b1.position), gravity as int, body.mass as int),
        r.within(549755813888),
{
    let delta = body.position.sub(b1.position);
    let d2 = delta.length_squared();
    let d = isqrt(d2 as u128) as i128;
    if d == 0 {
        return Vec2::zero();
    }
    proof {
        lemma_mass_pull(gravity as int, body.mass as int);
        lemma_component_le_sqrt(delta.x as int, delta.y as int, d as int);
        lemma_component_le_sqrt(delta.y as int, delta.x as int, d as int);
    }
    let gm = gravity as i128 * body.mass as i128;
    let q = gm / d;
    assert(q <= gm) by (nonlinear_arith)
        requires
            q == gm / d,
            gm > 0,
            d > 0,
    ;
    let speed = isqrt(q as u128) as i128;
    assert(speed <= 549755813888) by (nonlinear_arith)
        requires
            speed * speed <= q,
            q <= GRAVITY_LIMIT * MASS_LIMIT,
            speed >= 0,
    ;
    Vec2 { x: along(delta.y, speed, d), y: along(-delta.x, speed, d) }
}

/// Distance at which an attractor of mass `mass` pulls with acceleration `threshold`.
pub fn get_gravity_radius_over_threshold(mass: i64, threshold: i64, gravity: i64) -> (r: u64)
    requires
        0 < mass <= MASS_LIMIT,
        threshold > 0,
        0 < gravity <= GRAVITY_LIMIT,
    ensures
        r == floor_sqrt(pull(gravity as int, mass as int) / threshold as int),
{
    proof {
        lemma_mass_pull(gravity as int, mass as int);
    }
    let gm = gravity as i128 * mass as i128;
    isqrt((gm / threshold as i128) as u128)
}

/// Division rounding toward zero, for a divisor of either sign.
pub open spec fn signed_div(a: int, b: int) -> int {
    if b > 0 {
        trunc_div(a, b)
    } else {
        trunc_div(-a, -b)
    }
}

/// The steering velocity `(target - pos) * dt / elasticity`, rounded toward zero and
/// saturated.
pub open spec fn damping_spec(pos: Vec2, target: Vec2, dt: int, elasticity: int) -> Vec2 {
    clamp_vec(
        signed_div((target.x - pos.x) * dt, elasticity),
        signed_div((target.y - pos.y) * dt, elasticity),
        VEL_LIMIT as int,
    )
}

/// The velocity that steers a body at `pos` toward `target`: `(target - pos) * dt / elasticity`.
pub fn damping(pos: Vec2, target: Vec2, dt: i64, elasticity: i64) -> (r: Vec2)
    requires
        pos.within(COORD_LIMIT as int),
        target.within(COORD_LIMIT as int),
        1 <= dt <= MAX_DT,
        elasticity != 0,
        elasticity != i64::MIN,
    ensures
        r == damping_spec(pos, target, dt as int, elasticity as int),
{
    let d = target.sub(pos);
    proof {
        lemma_mul_abs_bound(d.x as int, dt as int, 2 * COORD_LIMIT, MAX_DT as int);
        lemma_mul_abs_bound(d.y as int, dt as int, 2 * COORD_LIMIT, MAX_DT as int);
    }
    let nx = d.x as i128 * dt as i128;
    let ny = d.y as i128 * dt as i128;
    if elasticity > 0 {
        Vec2 {
            x: clamp_wide(div_trunc(nx, elasticity as i128), VEL_LIMIT),
            y: clamp_wide(div_trunc(ny, elasticity as i128), VEL_LIMIT),
        }
    } else {
        Vec2 {
            x: clamp_wide(div_trunc(-nx, -(elasticity as i128)), VEL_LIMIT),
            y: clamp_wide(div_trunc(-ny, -(elasticity as i128)), VEL_LIMIT),
        }
    }
}

/// The gap between the ideal circular-orbit velocity (turned to match the body's
/// heading) and the body's velocity.
pub open spec fn trap_gap(ideal: Vec2, v: Vec2) -> Vec2 {
    if ideal.dot_spec(v) > 0 {
        Vec2 { x: (ideal.x - v.x) as i64, y: (ideal.y - v.y) as i64 }
    } else {
        Vec2 { x: (-ideal.x - v.x) as i64, y: (-ideal.y - v.y) as i64 }
    }
}

/// The steering acceleration of the orbit trap: `gain` along the gap when its squared
/// length exceeds `threshold`, none otherwise. It is an artificial stabiliser applied on
/// top of gravity, not a physical force.
pub open spec fn trap_spec(ideal: Vec2, v: Vec2, gain: int, threshold: int) -> Vec2 {
    let g = trap_gap(ideal, v);
    let l = floor_sqrt(g.len_sq());
    if g.len_sq() > threshold {
        Vec2 { x: trunc_div(g.x * gain, l) as i64, y: trunc_div(g.y * gain, l) as i64 }
    } else {
        Vec2 { x: 0, y: 0 }
    }
}

/// Orbit-trap steering acceleration that keeps `ball` near a circular orbit of `body`.
pub fn orbit_trap_force(ball: &Ball, body: &Ball, gravity: i64, gain: i64, threshold: i64) -> (r: Vec2)
    requires
        ball.wf(),
        body.wf(),
        0 < gravity <= GRAVITY_LIMIT,
        0 <= gain <= ACCEL_LIMIT,
        threshold >= 0,
    ensures
        r == trap_spec(
            orbital_spec(body.position.sub_spec(ball.position), gravity as int, body.mass as int),
            ball.velocity,
            gain as int,
            threshold as int,
        ),
        r.within(gain as int),
{
    let ideal = get_orbital_velocity(ball, body, gravity);
    let v = ball.velocity;
    let gap = if ideal.dot(v) > 0 {
        ideal.sub(v)
    } else {
        Vec2::zero().sub(ideal).sub(v)
    };
    let l2 = gap.length_squared();
    if l2 > threshold as i128 {
        let l = isqrt(l2 as u128) as i128;
        assert(l > 0) by (nonlinear_arith)
            requires
                l2 < (l + 1) * (l + 1),
                l2 > 0,
                l >= 0,
        ;
        proof {
            lemma_component_le_sqrt(gap.x as int, gap.y as int, l as int);
            lemma_component_le_sqrt(gap.y as int, gap.x as int, l as int);
        }
        Vec2 { x: scaled_unit(gap.x, gain, l), y: scaled_unit(gap.y, gain, l) }
    } else {
        Vec2::zero()
    }
}

/// `c * gain / l`, rounded toward zero, for a component `c` of a vector of length `l`.
fn scaled_unit(c: i64, gain: i64, l: i128) -> (r: i64)
    requires
        0 < l,
        -l <= c <= l,
        -4 * VEL_LIMIT <= c <= 4 * VEL_LIMIT,
        0 <= gain <= ACCEL_LIMIT,
    ensures
        r == trunc_div(c * gain, l as int),
        -gain <= r <= gain,
{
    proof {
        lemma_mul_abs_bound(c as int, gain as int, 4 * VEL_LIMIT, ACCEL_LIMIT as int);
        lemma_trunc_div_bounds(c * gain, l as int);
        let a = if c >= 0 { c * gain } else { -(c * gain) };
        assert(0 <= a <= l * gain) by (nonlinear_arith)
            requires
                a == if c >= 0 { c * gain } else { -(c * gain) },
                -l <= c <= l,
                gain >= 0,
        ;
        assert(a / (l as int) <= gain) by (nonlinear_arith)
            requires
                0 <= a <= l * gain,
                l > 0,
        ;
    }
    div_trunc(c as i128 * gain as i128, l) as i64
}

/// Squared distance from `p` to the attractor.
pub open spec fn dist_sq(body: Ball, p: Vec2) -> int {
    body.position.sub_spec(p).len_sq()
}

/// Index of the first attractor among the first `n` that is nearest to `p`.
pub open spec fn first_nearest(bodies: Seq<Ball>, p: Vec2, n: int) -> int
    decreases n,
{
    if n <= 1 {
        0
    } else {
        let b = first_nearest(bodies, p, n - 1);
        if dist_sq(bodies[n - 1], p) < dist_sq(bodies[b], p) {
            n - 1
        } else {
            b
        }
    }
}

/// Index of the attractor nearest to `p`; among equally near ones, the first.
pub fn nearest_body(bodies: &Vec<Ball>, p: Vec2) -> (r: Option<usize>)
    requires
        forall|i: int| 0 <= i < bodies.len() ==> (#[trigger] bodies[i]).wf(),
        p.within(COORD_LIMIT as int),
    ensures
        r is None <==> bodies.len() == 0,
        r matches Some(i) ==> {
            &&& i < bodies.len()
            &&& i == first_nearest(bodies@, p, bodies.len() as int)
            &&& forall|j: int|
                0 <= j < bodies.len() ==> dist_sq(bodies[i as int], p) <= dist_sq(
                    #[trigger] bodies[j],
                    p,
                )
            &&& forall|j: int|
                0 <= j < i ==> dist_sq(bodies[i as int], p) < dist_sq(#[trigger] bodies[j], p)
        },
{
    if bodies.len() == 0 {
        return None;
    }
    let mut best: usize = 0;
    let mut best_d = bodies[0].position.sub(p).length_squared();
    let mut i: usize = 1;
    while i < bodies.len()
        invariant
            forall|i: int| 0 <= i < bodies.len() ==> (#[trigger] bodies[i]).wf(),
            p.within(COORD_LIMIT as int),
            1 <= i <= bodies.len(),
            best < i,
            best_d == dist_sq(bodies[best as int], p),
            best == first_nearest(bodies@, p, i as int),
            forall|j: int| 0 <= j < i ==> best_d <= dist_sq(#[trigger] bodies[j], p),
            forall|j: int| 0 <= j < best ==> best_d < dist_sq(#[trigger] bodies[j], p),
        decreases bodies.len() - i,
    {
        let d = bodies[i].position.sub(p).length_squared();
        if d < best_d {
            best = i;
            best_d = d;
        }
        i = i + 1;
    }
    Some(best)
}

} // verus!
