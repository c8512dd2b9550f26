use vstd::prelude::*;

use crate::ball::{
    approaching, clamp_vec, collision_velocities, touching, Ball, BallType, MAX_DT, RADIUS_LIMIT,
};
use crate::gravity::{
    GRAVITY_LIMIT, first_nearest, get_gravity_force, gravity_spec, nearest_body, orbit_trap_force, orbital_spec,
    trap_spec,
};
use crate::quad_tree::{in_rect, QuadTree, QuadTreeEntry, Rect};
use crate::vector::{
    clamp_wide, div_trunc, floor_sqrt, isqrt, lemma_mul_abs_bound, trunc_div, Vec2, ACCEL_LIMIT,
    COORD_LIMIT,
};
use crate::random::gen_range_i32;
use macroquad::rand::RandGenerator;
use vstd::multiset::Multiset;

verus! {

/// Every body of the list is well formed.
pub open spec fn all_wf(s: Seq<Ball>) -> bool {
    forall|i: int| 0 <= i < s.len() ==> (#[trigger] s[i]).wf()
}

/// Component-wise sum of two accelerations, saturated.
pub open spec fn add_acc(a: Vec2, b: Vec2) -> Vec2 {
    clamp_vec(a.x + b.x, a.y + b.y, ACCEL_LIMIT as int)
}

fn add_acc_exec(a: Vec2, b: Vec2) -> (r: Vec2)
    requires
        a.within(ACCEL_LIMIT as int),
        b.within(ACCEL_LIMIT as int),
    ensures
        r == add_acc(a, b),
        r.within(ACCEL_LIMIT as int),
{
    Vec2 {
        x: clamp_wide(a.x as i128 + b.x as i128, ACCEL_LIMIT),
        y: clamp_wide(a.y as i128 + b.y as i128, ACCEL_LIMIT),
    }
}

/// Gravity of the first `n` attractors on `ball`, summed in order.
pub open spec fn gravity_total(ball: Ball, bodies: Seq<Ball>, gravity: int, n: int) -> Vec2
    decreases n,
{
    if n <= 0 {
        Vec2 { x: 0, y: 0 }
    } else {
        add_acc(
            gravity_total(ball, bodies, gravity, n - 1),
            gravity_spec(
                bodies[n - 1].position.sub_spec(ball.position),
                gravity,
                bodies[n - 1].mass as int,
            ),
        )
    }
}

/// The acceleration a moving body gets in one tick: the gravity of every attractor
/// (unless `with_gravity` is off), plus the orbit-trap steering toward the nearest one.
pub open spec fn acceleration_spec(
    ball: Ball,
    bodies: Seq<Ball>,
    gravity: int,
    gain: int,
    threshold: int,
    with_gravity: bool,
) -> Vec2 {
    let g = if with_gravity {
        gravity_total(ball, bodies, gravity, bodies.len() as int)
    } else {
        Vec2 { x: 0, y: 0 }
    };
    if bodies.len() == 0 {
        g
    } else {
        let k = first_nearest(bodies, ball.position, bodies.len() as int);
        add_acc(
            g,
            trap_spec(
                orbital_spec(bodies[k].position.sub_spec(ball.position), gravity, bodies[k].mass as int),
                ball.velocity,
                gain,
                threshold,
            ),
        )
    }
}

/// The acceleration of `ball` from the attractors `bodies`.
pub fn ball_acceleration(
    ball: &Ball,
    bodies: &Vec<Ball>,
    gravity: i64,
    gain: i64,
    threshold: i64,
    with_gravity: bool,
) -> (r: Vec2)
    requires
        ball.wf(),
        all_wf(bodies@),
        0 < gravity <= GRAVITY_LIMIT,
        0 <= gain <= ACCEL_LIMIT,
        threshold >= 0,
    ensures
        r == acceleration_spec(
            *ball,
            bodies@,
            gravity as int,
            gain as int,
            threshold as int,
            with_gravity,
        ),
        r.within(ACCEL_LIMIT as int),
{
    let mut g = Vec2::zero();
    if with_gravity {
        let mut i: usize = 0;
        while i < bodies.len()
            invariant
                ball.wf(),
                all_wf(bodies@),
                i <= bodies.len(),
                g == gravity_total(*ball, bodies@, gravity as int, i as int),
                0 < gravity <= GRAVITY_LIMIT,
                g.within(ACCEL_LIMIT as int),
            decreases bodies.len() - i,
        {
            let f = get_gravity_force(ball, &bodies[i], gravity);
            g = add_acc_exec(g, f);
            i = i + 1;
        }
    }
    match nearest_body(bodies, ball.position) {
        Some(k) => {
            let t = orbit_trap_force(ball, &bodies[k], gravity, gain, threshold);
            add_acc_exec(g, t)
        },
        None => g,
    }
}

/// The index entries of the first `n` bodies: each position with its index, for the
/// bodies whose position lies in `area`.
pub open spec fn index_entries(balls: Seq<Ball>, area: Rect, n: int) -> Multiset<QuadTreeEntry>
    decreases n,
{
    if n <= 0 {
        Multiset::empty()
    } else {
        let rest = index_entries(balls, area, n - 1);
        if area.contains_spec(balls[n - 1].position) {
            rest.insert(QuadTreeEntry { position: balls[n - 1].position, payload: (n - 1) as usize })
        } else {
            rest
        }
    }
}

/// Every entry of the tree refers to an index below `n`.
pub open spec fn payloads_below(t: QuadTree, n: int) -> bool {
    forall|e: QuadTreeEntry| #[trigger] t.contents().count(e) > 0 ==> e.payload < n
}

proof fn lemma_index_entries_below(balls: Seq<Ball>, area: Rect, n: int, e: QuadTreeEntry)
    requires
        0 <= n,
        index_entries(balls, area, n).count(e) > 0,
    ensures
        e.payload < n,
    decreases n,
{
    broadcast use vstd::multiset::group_multiset_axioms;

    if n > 0 {
        let new_e = QuadTreeEntry { position: balls[n - 1].position, payload: (n - 1) as usize };
        if e != new_e || !area.contains_spec(balls[n - 1].position) {
            lemma_index_entries_below(balls, area, n - 1, e);
        }
    }
}

/// Each body enters the index entries at most once.
proof fn lemma_index_entries_once(balls: Seq<Ball>, area: Rect, n: int, e: QuadTreeEntry)
    requires
        0 <= n <= balls.len() <= usize::MAX,
    ensures
        index_entries(balls, area, n).count(e) <= 1,
    decreases n,
{
    broadcast use vstd::multiset::group_multiset_axioms;

    if n > 0 {
        lemma_index_entries_once(balls, area, n - 1, e);
        let new_e = QuadTreeEntry { position: balls[n - 1].position, payload: (n - 1) as usize };
        if e == new_e && area.contains_spec(balls[n - 1].position) {
            if index_entries(balls, area, n - 1).count(e) > 0 {
                lemma_index_entries_below(balls, area, n - 1, e);
            }
        }
    }
}

/// The body at index `i` whose position lies in `area` has exactly its entry.
pub proof fn lemma_index_entries_has(balls: Seq<Ball>, area: Rect, n: int, i: int)
    requires
        0 <= i < n <= balls.len() <= usize::MAX,
        area.contains_spec(balls[i].position),
    ensures
        index_entries(balls, area, n).count(
            QuadTreeEntry { position: balls[i].position, payload: i as usize },
        ) == 1,
    decreases n,
{
    broadcast use vstd::multiset::group_multiset_axioms;

    let e = QuadTreeEntry { position: balls[i].position, payload: i as usize };
    lemma_index_entries_once(balls, area, n, e);
    if i < n - 1 {
        lemma_index_entries_has(balls, area, n - 1, i);
    }
}

/// Querying a freshly built index with a window that covers its whole area lists every
/// body whose position lies in the area, with its index, exactly once, and nothing else.
pub proof fn lemma_full_query_of_index(
    balls: Seq<Ball>,
    t: QuadTree,
    window: Rect,
    out: Seq<QuadTreeEntry>,
)
    requires
        balls.len() <= usize::MAX,
        t.wf(),
        t.contents() =~= index_entries(balls, t.area, balls.len() as int),
        window.covers(t.area),
        out.to_multiset() =~= Multiset::<QuadTreeEntry>::empty().add(
            t.contents().filter(in_rect(window)),
        ),
    ensures
        out.no_duplicates(),
        out.len() == index_entries(balls, t.area, balls.len() as int).len(),
        forall|i: int|
            0 <= i < balls.len() && t.area.contains_spec(balls[i].position) ==> out.contains(
                QuadTreeEntry { position: #[trigger] balls[i].position, payload: i as usize },
            ),
        forall|k: int|
            0 <= k < out.len() ==> (#[trigger] out[k]).payload < balls.len() && out[k].position
                == balls[out[k].payload as int].position,
{
    broadcast use vstd::multiset::group_multiset_axioms;

    crate::quad_tree::lemma_covering_query_is_complete(t, window);
    let n = balls.len() as int;
    assert(out.to_multiset() =~= index_entries(balls, t.area, n));
    out.to_multiset_ensures();
    assert forall|x: QuadTreeEntry| out.to_multiset().contains(x) implies out.to_multiset().count(x)
        == 1 by {
        lemma_index_entries_once(balls, t.area, n, x);
    }
    out.lemma_multiset_has_no_duplicates_conv();
    assert forall|i: int| 0 <= i < balls.len() && t.area.contains_spec(balls[i].position) implies out.contains(
        QuadTreeEntry { position: #[trigger] balls[i].position, payload: i as usize },
    ) by {
        lemma_index_entries_has(balls, t.area, n, i);
    }
    assert forall|k: int| 0 <= k < out.len() implies (#[trigger] out[k]).payload < balls.len()
        && out[k].position == balls[out[k].payload as int].position by {
        assert(out.contains(out[k]));
        lemma_index_entries_below(balls, t.area, n, out[k]);
        lemma_index_entries_member(balls, t.area, n, out[k]);
    }
}

/// An entry of the index entries carries the position of the body its payload names.
proof fn lemma_index_entries_member(balls: Seq<Ball>, area: Rect, n: int, e: QuadTreeEntry)
    requires
        0 <= n <= balls.len() <= usize::MAX,
        index_entries(balls, area, n).count(e) > 0,
    ensures
        e.position == balls[e.payload as int].position,
    decreases n,
{
    broadcast use vstd::multiset::group_multiset_axioms;

    if n > 0 {
        let new_e = QuadTreeEntry { position: balls[n - 1].position, payload: (n - 1) as usize };
        if e != new_e || !area.contains_spec(balls[n - 1].position) {
            lemma_index_entries_member(balls, area, n - 1, e);
        }
    }
}

/// A fresh index over `area` holding every body's current position with its index.
pub fn build_tree(balls: &Vec<Ball>, area: Rect) -> (t: QuadTree)
    requires
        area.wf(),
    ensures
        t.wf(),
        t.area == area,
        t.contents() =~= index_entries(balls@, area, balls.len() as int),
        payloads_below(t, balls.len() as int),
{
    broadcast use vstd::multiset::group_multiset_axioms;

    let mut t = QuadTree::new(area);
    let mut i: usize = 0;
    while i < balls.len()
        invariant
            i <= balls.len(),
            t.wf(),
            t.area == area,
            t.contents() =~= index_entries(balls@, area, i as int),
        decreases balls.len() - i,
    {
        t.add(QuadTreeEntry::new(balls[i].position, i));
        i = i + 1;
    }
    proof {
        assert forall|e: QuadTreeEntry| #[trigger] t.contents().count(e) > 0 implies e.payload
            < balls.len() by {
            lemma_index_entries_below(balls@, area, balls.len() as int, e);
        }
    }
    t
}

/// Every moving body after one Verlet step under its acceleration; the body at index
/// `held`, if any, feels no gravity.
pub open spec fn integrated(
    before: Seq<Ball>,
    bodies: Seq<Ball>,
    gravity: int,
    gain: int,
    threshold: int,
    held: Option<usize>,
    dt: int,
) -> Seq<Ball> {
    Seq::new(
        before.len(),
        |i: int|
            before[i].verlet_step(
                dt,
                acceleration_spec(
                    before[i],
                    bodies,
                    gravity,
                    gain,
                    threshold,
                    held != Some(i as usize),
                ),
            ),
    )
}

/// Advances every moving body by one Verlet step under its acceleration; the body at
/// index `held`, if any, feels no gravity (the player holds it).
pub fn integrate_all(
    balls: &mut Vec<Ball>,
    bodies: &Vec<Ball>,
    gravity: i64,
    gain: i64,
    threshold: i64,
    held: Option<usize>,
    dt: i64,
)
    requires
        all_wf(old(balls)@),
        all_wf(bodies@),
        0 < gravity <= GRAVITY_LIMIT,
        0 <= gain <= ACCEL_LIMIT,
        threshold >= 0,
        1 <= dt <= MAX_DT,
    ensures
        final(balls).len() == old(balls).len(),
        all_wf(final(balls)@),
        final(balls)@ == integrated(
            old(balls)@,
            bodies@,
            gravity as int,
            gain as int,
            threshold as int,
            held,
            dt as int,
        ),
        forall|i: int|
            0 <= i < old(balls).len() ==> #[trigger] final(balls)[i] == old(balls)[i].verlet_step(
                dt as int,
                acceleration_spec(
                    old(balls)[i],
                    bodies@,
                    gravity as int,
                    gain as int,
                    threshold as int,
                    held != Some(i as usize),
                ),
            ),
{
    let mut i: usize = 0;
    while i < balls.len()
        invariant
            balls.len() == old(balls).len(),
            i <= balls.len(),
            all_wf(balls@),
            all_wf(bodies@),
            0 < gravity <= GRAVITY_LIMIT,
            0 <= gain <= ACCEL_LIMIT,
            threshold >= 0,
            1 <= dt <= MAX_DT,
            forall|j: int| i <= j < balls.len() ==> #[trigger] balls[j] == old(balls)[j],
            forall|j: int|
                0 <= j < i ==> #[trigger] balls[j] == old(balls)[j].verlet_step(
                    dt as int,
                    acceleration_spec(
                        old(balls)[j],
                        bodies@,
                        gravity as int,
                        gain as int,
                        threshold as int,
                        held != Some(j as usize),
                    ),
                ),
        decreases balls.len() - i,
    {
        let mut b = balls[i];
        let with_gravity = match held {
            Some(h) => h != i,
            None => true,
        };
        let acc = ball_acceleration(&b, bodies, gravity, gain, threshold, with_gravity);
        b.update_verlet(dt, acc);
        balls.set(i, b);
        i = i + 1;
    }
    assert(balls@ =~= integrated(
        old(balls)@,
        bodies@,
        gravity as int,
        gain as int,
        threshold as int,
        held,
        dt as int,
    ));
}

/// `x` occurs in `v`.
pub fn contains_index(v: &Vec<usize>, x: usize) -> (r: bool)
    ensures
        r == v@.contains(x),
{
    let mut i: usize = 0;
    while i < v.len()
        invariant
            i <= v.len(),
            forall|j: int| 0 <= j < i ==> v[j] != x,
        decreases v.len() - i,
    {
        if v[i] == x {
            return true;
        }
        i = i + 1;
    }
    false
}

/// The two bodies after `a.collide(b)`.
pub open spec fn collided_pair(a: Ball, b: Ball, dt: int, restitution: int) -> (Ball, Ball) {
    if approaching(a, b) {
        let (va, vb) = collision_velocities(a, b, restitution);
        (a.with_velocity(va, dt), b.with_velocity(vb, dt))
    } else {
        (a, b)
    }
}

/// Bodies `i` and `j` collided: `j` was found in the index inside `i`'s collision area,
/// the higher index took the role of `self`, the two old bodies touched, and both now
/// hold what the collision made of them.
pub open spec fn resolved_pair(
    t: QuadTree,
    before: Seq<Ball>,
    after: Seq<Ball>,
    i: int,
    j: int,
    dt: int,
    restitution: int,
) -> bool {
    let hi = if i > j { i } else { j };
    let lo = if i > j { j } else { i };
    let r = collided_pair(before[hi], before[lo], dt, restitution);
    &&& i != j
    &&& indexed_in(t, before[i].collision_area(), j)
    &&& touching(before[hi], before[lo])
    &&& after[hi] == r.0
    &&& after[lo] == r.1
}

/// Bodies `i` and `j` would collide: `j` is indexed inside `i`'s collision area and the
/// two touch.
pub open spec fn collision_candidate(t: QuadTree, s: Seq<Ball>, i: int, j: int) -> bool {
    let hi = if i > j { i } else { j };
    let lo = if i > j { j } else { i };
    &&& i != j
    &&& indexed_in(t, s[i].collision_area(), j)
    &&& touching(s[hi], s[lo])
}

/// The outcome of the collision pass over `before`, which produced `after` and the
/// collided list `c`: each index at most once, untouched bodies unchanged, each recorded
/// pair resolved, pairs recorded in ascending order of the scanning body, and no two
/// uncollided bodies that would still collide.
pub open spec fn collision_outcome(
    t: QuadTree,
    before: Seq<Ball>,
    after: Seq<Ball>,
    c: Seq<usize>,
    dt: int,
    restitution: int,
) -> bool {
    &&& after.len() == before.len()
    &&& all_wf(after)
    &&& c.no_duplicates()
    &&& forall|k: int| 0 <= k < c.len() ==> #[trigger] c[k] < before.len()
    &&& forall|i: int|
        0 <= i < before.len() && !c.contains(i as usize) ==> #[trigger] after[i] == before[i]
    &&& c.len() % 2 == 0
    &&& forall|k: int|
        0 <= k < c.len() && k % 2 == 0 ==> resolved_pair(
            t,
            before,
            after,
            #[trigger] c[k] as int,
            c[k + 1] as int,
            dt,
            restitution,
        )
    &&& ascending_pairs(c)
    &&& forall|i: int, j: int|
        0 <= i < before.len() && 0 <= j < before.len() && !c.contains(i as usize) && !c.contains(
            j as usize,
        ) ==> !#[trigger] collision_candidate(t, before, i, j)
}

/// The scanning bodies of the recorded pairs (even positions) increase.
pub open spec fn ascending_pairs(c: Seq<usize>) -> bool {
    forall|k1: int, k2: int|
        #![trigger c[k1], c[k2]]
        0 <= k1 < k2 < c.len() && k1 % 2 == 0 && k2 % 2 == 0 ==> c[k1] < c[k2]
}

/// What the collision pass keeps true of the bodies `cur` it has worked on, started
/// from `orig`, and the collided list `c`.
#[verifier::opaque]
pub open spec fn pass_state(
    t: QuadTree,
    orig: Seq<Ball>,
    cur: Seq<Ball>,
    c: Seq<usize>,
    dt: int,
    restitution: int,
) -> bool {
    &&& cur.len() == orig.len()
    &&& all_wf(cur)
    &&& c.no_duplicates()
    &&& forall|k: int| 0 <= k < c.len() ==> #[trigger] c[k] < orig.len()
    &&& forall|i: int|
        0 <= i < orig.len() && !c.contains(i as usize) ==> #[trigger] cur[i] == orig[i]
    &&& c.len() % 2 == 0
    &&& forall|k: int|
        0 <= k < c.len() && k % 2 == 0 ==> resolved_pair(
            t,
            orig,
            cur,
            #[trigger] c[k] as int,
            c[k + 1] as int,
            dt,
            restitution,
        )
    &&& ascending_pairs(c)
}

/// No two bodies among the first `index` and the rest, both outside `c`, would collide.
#[verifier::opaque]
pub open spec fn maximal_before(t: QuadTree, orig: Seq<Ball>, c: Seq<usize>, index: int) -> bool {
    forall|i: int, j: int|
        0 <= i < index && 0 <= j < orig.len() && !c.contains(i as usize) && !c.contains(
            j as usize,
        ) ==> !#[trigger] collision_candidate(t, orig, i, j)
}

proof fn lemma_maximal_grows(t: QuadTree, orig: Seq<Ball>, c: Seq<usize>, c2: Seq<usize>, index: int)
    requires
        maximal_before(t, orig, c, index),
        forall|x: usize| c.contains(x) ==> c2.contains(x),
    ensures
        maximal_before(t, orig, c2, index),
{
    reveal(maximal_before);
}

/// Collides bodies `index` and `other` if they touch, with the higher index as `self`,
/// and records both as collided.
#[verifier::rlimit(60)]
fn try_collide(
    balls: &mut Vec<Ball>,
    collided: &mut Vec<usize>,
    tree: &QuadTree,
    index: usize,
    other: usize,
    orig: Ghost<Seq<Ball>>,
    dt: i64,
    restitution: i64,
) -> (r: bool)
    requires
        pass_state(*tree, orig@, old(balls)@, old(collided)@, dt as int, restitution as int),
        index < old(balls).len(),
        other < old(balls).len(),
        index != other,
        indexed_in(*tree, orig@[index as int].collision_area(), other as int),
        forall|k: int|
            0 <= k < old(collided).len() && k % 2 == 0 ==> #[trigger] old(collided)[k] < index,
        !old(collided)@.contains(index),
        !old(collided)@.contains(other),
        1 <= dt <= MAX_DT,
        0 <= restitution <= 100,
    ensures
        pass_state(*tree, orig@, final(balls)@, final(collided)@, dt as int, restitution as int),
        final(balls).len() == old(balls).len(),
        forall|x: usize| old(collided)@.contains(x) ==> final(collided)@.contains(x),
        r ==> final(collided)@ == old(collided)@.push(index).push(other),
        !r ==> final(collided)@ == old(collided)@ && final(balls)@ == old(balls)@,
        !r ==> !touching(
            orig@[if index > other { index as int } else { other as int }],
            orig@[if index > other { other as int } else { index as int }],
        ),
{
    reveal(pass_state);
    let hi = if index > other {
        index
    } else {
        other
    };
    let lo = if index > other {
        other
    } else {
        index
    };
    let mut a = balls[hi];
    let mut b = balls[lo];
    assert(a == orig@[hi as int]);
    assert(b == orig@[lo as int]);
    if !a.check_collision(&b) {
        return false;
    }
    let ghost balls_before = balls@;
    let ghost before = collided@;
    a.collide(&mut b, dt, restitution);
    balls.set(hi, a);
    balls.set(lo, b);
    collided.push(index);
    collided.push(other);
    proof {
        let n = orig@.len();
        assert(collided@ == before.push(index).push(other));
        assert forall|x: usize| before.contains(x) implies collided@.contains(x) by {
            let k = choose|k: int| 0 <= k < before.len() && before[k] == x;
            assert(collided@[k] == x);
        }
        assert(collided@[before.len() as int] == index);
        assert(collided@[before.len() as int + 1] == other);
        assert forall|x: int, y: int|
            0 <= x < collided.len() && 0 <= y < collided.len() && x != y implies collided[x]
            != collided[y] by {
            if x < before.len() && y < before.len() {
            } else if x < before.len() {
                assert(before.contains(collided[x]));
            } else if y < before.len() {
                assert(before.contains(collided[y]));
            }
        }
        assert forall|k1: int, k2: int|
            #![trigger collided@[k1], collided@[k2]]
            0 <= k1 < k2 < collided.len() && k1 % 2 == 0 && k2 % 2 == 0 implies collided@[k1]
            < collided@[k2] by {
            if k2 < before.len() {
                assert(before[k1] < before[k2]);
            } else {
                assert(k2 == before.len());
                assert(collided@[k1] == before[k1]);
            }
        }
        assert forall|k: int|
            0 <= k < collided.len() && k % 2 == 0 implies resolved_pair(
            *tree,
            orig@,
            balls@,
            #[trigger] collided@[k] as int,
            collided@[k + 1] as int,
            dt as int,
            restitution as int,
        ) by {
            if k < before.len() {
                assert(collided@[k] == before[k]);
                assert(collided@[k + 1] == before[k + 1]);
                assert(before.contains(before[k]));
                assert(before.contains(before[k + 1]));
                assert(resolved_pair(
                    *tree,
                    orig@,
                    balls_before,
                    before[k] as int,
                    before[k + 1] as int,
                    dt as int,
                    restitution as int,
                ));
            } else {
                assert(k == before.len());
            }
        }
        assert forall|i: int|
            0 <= i < n && !collided@.contains(i as usize) implies #[trigger] balls@[i] == orig@[i] by {
            assert(i != index as int);
            assert(i != other as int);
            if before.contains(i as usize) {
                let k = choose|k: int| 0 <= k < before.len() && before[k] == i as usize;
                assert(collided@[k] == i as usize);
            }
        }
        assert forall|k: int| 0 <= k < collided.len() implies #[trigger] collided[k] < n by {
            if k < before.len() {
                assert(collided[k] == before[k]);
            }
        }
        assert forall|i: int| 0 <= i < balls.len() implies (#[trigger] balls@[i]).wf() by {
            if i != hi as int && i != lo as int {
                assert(balls@[i] == balls_before[i]);
            }
        }
    }
    true
}

/// The collision pass: each body not yet collided this tick looks up its neighbours in
/// the index and collides with the first one (in the order the index returns them) that
/// has not collided either and that it touches. Each index enters `collided` at most once.
pub fn collide_all(
    balls: &mut Vec<Ball>,
    tree: &QuadTree,
    collided: &mut Vec<usize>,
    dt: i64,
    restitution: i64,
)
    requires
        all_wf(old(balls)@),
        tree.wf(),
        payloads_below(*tree, old(balls).len() as int),
        old(collided)@.len() == 0,
        1 <= dt <= MAX_DT,
        0 <= restitution <= 100,
    ensures
        collision_outcome(
            *tree,
            old(balls)@,
            final(balls)@,
            final(collided)@,
            dt as int,
            restitution as int,
        ),
{
    broadcast use vstd::multiset::group_multiset_axioms;

    let ghost orig = balls@;
    let n = balls.len();
    proof {
        reveal(pass_state);
        reveal(maximal_before);
    }
    let mut index: usize = 0;
    while index < n
        invariant
            n == balls.len() == orig.len(),
            orig == old(balls)@,
            index <= n,
            tree.wf(),
            payloads_below(*tree, n as int),
            1 <= dt <= MAX_DT,
            0 <= restitution <= 100,
            pass_state(*tree, orig, balls@, collided@, dt as int, restitution as int),
            maximal_before(*tree, orig, collided@, index as int),
            forall|k: int| 0 <= k < collided.len() && k % 2 == 0 ==> #[trigger] collided[k] < index,
        decreases n - index,
    {
        if !contains_index(collided, index) {
            let ghost c0 = collided@;
            proof {
                reveal(pass_state);
            }
            let zone = balls[index].get_collision_area();
            assert(zone == orig[index as int].collision_area());
            let mut near: Vec<QuadTreeEntry> = Vec::new();
            proof {
                near@.to_multiset_ensures();
                assert(near@.to_multiset() =~= Multiset::empty());
            }
            tree.query_entries(&zone, &mut near);
            proof {
                assert forall|jj: int| 0 <= jj < near.len() implies (#[trigger] near[jj]).payload
                    < n by {
                    near@.to_multiset_ensures();
                    assert(near@.contains(near[jj]));
                    assert(near@.to_multiset().count(near[jj]) > 0);
                    assert(tree.contents().filter(in_rect(zone)).count(near[jj]) > 0);
                }
            }
            let mut j: usize = 0;
            let mut done = false;
            while j < near.len() && !done
                invariant
                    n == balls.len() == orig.len(),
                    index < n,
                    tree.wf(),
                    payloads_below(*tree, n as int),
                    1 <= dt <= MAX_DT,
                    0 <= restitution <= 100,
                    near@.to_multiset() =~= Multiset::<QuadTreeEntry>::empty().add(
                        tree.contents().filter(in_rect(zone)),
                    ),
                    zone.wf(),
                    zone == orig[index as int].collision_area(),
                    j <= near.len(),
                    pass_state(*tree, orig, balls@, collided@, dt as int, restitution as int),
                    !done ==> collided@ == c0,
                    done ==> collided@.contains(index),
                    forall|x: usize| c0.contains(x) ==> collided@.contains(x),
                    !c0.contains(index),
                    forall|k: int| 0 <= k < c0.len() && k % 2 == 0 ==> #[trigger] c0[k] < index,
                    forall|k: int|
                        0 <= k < collided.len() && k % 2 == 0 ==> #[trigger] collided[k] <= index,
                    forall|jj: int| 0 <= jj < near.len() ==> (#[trigger] near[jj]).payload < n,
                    !done ==> forall|jj: int|
                        0 <= jj < j && (#[trigger] near[jj]).payload != index && !c0.contains(
                            near[jj].payload,
                        ) ==> !touching(
                            orig[if index > near[jj].payload {
                                index as int
                            } else {
                                near[jj].payload as int
                            }],
                            orig[if index > near[jj].payload {
                                near[jj].payload as int
                            } else {
                                index as int
                            }],
                        ),
                decreases near.len() - j,
            {
                let entry = near[j];
                proof {
                    near@.to_multiset_ensures();
                    assert(near@.contains(entry));
                    assert(near@.to_multiset().count(entry) > 0);
                    assert(tree.contents().filter(in_rect(zone)).count(entry) > 0);
                    assert(tree.contents().count(entry) > 0);
                }
                let other = entry.payload;
                proof {
                    assert(zone.holds_spec(entry.position));
                    assert(tree.contents().count(entry) > 0 && entry.payload == other
                        && zone.holds_spec(entry.position));
                }
                if other != index && !contains_index(collided, other) {
                    if try_collide(balls, collided, tree, index, other, Ghost(orig), dt, restitution) {
                        done = true;
                        assert(collided@.contains(index)) by {
                            assert(collided@[c0.len() as int] == index);
                        }
                        assert forall|k: int|
                            0 <= k < collided.len() && k % 2 == 0 implies #[trigger] collided[k]
                            <= index by {
                            reveal(pass_state);
                            assert(collided@ == c0.push(index).push(other));
                            if k < c0.len() {
                                assert(collided@[k] == c0[k]);
                            }
                        }
                    }
                }
                j = j + 1;
            }
            proof {
                lemma_maximal_grows(*tree, orig, c0, collided@, index as int);
                reveal(maximal_before);
                if !done {
                    assert forall|i: int, jx: int|
                        0 <= i < index + 1 && 0 <= jx < n && !collided@.contains(i as usize)
                            && !collided@.contains(jx as usize) implies !#[trigger] collision_candidate(
                        *tree,
                        orig,
                        i,
                        jx,
                    ) by {
                        if i == index as int && collision_candidate(*tree, orig, i, jx) {
                            let e = choose|e: QuadTreeEntry|
                                #[trigger] tree.contents().count(e) > 0 && e.payload == jx
                                    && orig[index as int].collision_area().holds_spec(e.position);
                            assert(tree.contents().filter(in_rect(zone)).count(e) > 0);
                            assert(near@.to_multiset().count(e) > 0);
                            near@.to_multiset_ensures();
                            assert(near@.contains(e));
                            let jj = choose|jj: int| 0 <= jj < near.len() && near@[jj] == e;
                            assert(near[jj].payload == jx);
                        }
                    }
                } else {
                    assert forall|i: int, jx: int|
                        0 <= i < index + 1 && 0 <= jx < n && !collided@.contains(i as usize)
                            && !collided@.contains(jx as usize) implies !#[trigger] collision_candidate(
                        *tree,
                        orig,
                        i,
                        jx,
                    ) by {
                        if i < index as int {
                            assert(maximal_before(*tree, orig, collided@, index as int));
                        }
                    }
                }
            }
        } else {
            proof {
                reveal(maximal_before);
            }
        }
        index = index + 1;
    }
    proof {
        reveal(pass_state);
        reveal(maximal_before);
    }
}

/// The bodies of the first `n` that `marked` does not flag, in order.
pub open spec fn kept(s: Seq<Ball>, marked: Seq<bool>, n: int) -> Seq<Ball>
    decreases n,
{
    if n <= 0 {
        Seq::empty()
    } else if marked[n - 1] {
        kept(s, marked, n - 1)
    } else {
        kept(s, marked, n - 1).push(s[n - 1])
    }
}

/// How many of the first `i` indices `marked` does not flag.
pub open spec fn kept_before(marked: Seq<bool>, i: int) -> int
    decreases i,
{
    if i <= 0 {
        0
    } else if marked[i - 1] {
        kept_before(marked, i - 1)
    } else {
        kept_before(marked, i - 1) + 1
    }
}

/// Where a held selection goes when the flagged bodies are removed: gone if its body is
/// removed, else moved down by the number of removed bodies before it.
pub open spec fn shifted_selection(marked: Seq<bool>, selected: Option<usize>) -> Option<usize> {
    match selected {
        Some(s) => if marked[s as int] {
            None
        } else {
            Some(kept_before(marked, s as int) as usize)
        },
        None => None,
    }
}

proof fn lemma_kept_len(s: Seq<Ball>, marked: Seq<bool>, n: int)
    requires
        0 <= n,
    ensures
        kept(s, marked, n).len() == kept_before(marked, n),
        0 <= kept_before(marked, n) <= n,
    decreases n,
{
    if n > 0 {
        lemma_kept_len(s, marked, n - 1);
    }
}

proof fn lemma_kept_before_mono(marked: Seq<bool>, i: int, n: int)
    requires
        0 <= i <= n,
    ensures
        kept_before(marked, i) <= kept_before(marked, n),
    decreases n - i,
{
    if i < n {
        lemma_kept_before_mono(marked, i, n - 1);
    }
}

/// After removal, the body that stood at an unflagged index `i` stands at
/// `kept_before(marked, i)`, unchanged.
pub proof fn lemma_kept_index(s: Seq<Ball>, marked: Seq<bool>, n: int, i: int)
    requires
        0 <= i < n,
        !marked[i],
    ensures
        0 <= kept_before(marked, i) < kept(s, marked, n).len(),
        kept(s, marked, n)[kept_before(marked, i)] == s[i],
    decreases n,
{
    lemma_kept_len(s, marked, n);
    lemma_kept_len(s, marked, i);
    if i == n - 1 {
        lemma_kept_len(s, marked, n - 1);
    } else {
        lemma_kept_index(s, marked, n - 1, i);
        lemma_kept_len(s, marked, n - 1);
    }
}

/// Deferred deletion: removes the flagged bodies in one batch, keeping the order of the
/// rest, and returns where a held selection went.
pub fn remove_marked(balls: &mut Vec<Ball>, marked: &Vec<bool>, selected: Option<usize>) -> (r:
    Option<usize>)
    requires
        marked.len() == old(balls).len(),
        all_wf(old(balls)@),
        selected matches Some(s) ==> s < old(balls).len(),
    ensures
        final(balls)@ == kept(old(balls)@, marked@, marked.len() as int),
        final(balls).len() <= old(balls).len(),
        all_wf(final(balls)@),
        r == shifted_selection(marked@, selected),
        r matches Some(k) ==> k < final(balls).len(),
{
    let mut out: Vec<Ball> = Vec::new();
    let mut r: Option<usize> = None;
    let mut i: usize = 0;
    while i < balls.len()
        invariant
            marked.len() == balls.len(),
            *balls == *old(balls),
            i <= balls.len(),
            out@ == kept(balls@, marked@, i as int),
            out.len() <= i,
            all_wf(balls@),
            all_wf(out@),
            r matches Some(k) ==> k < out.len(),
            selected matches Some(s) ==> s < balls.len(),
            r == (match selected {
                Some(s) => if s < i { shifted_selection(marked@, selected) } else { None },
                None => None,
            }),
        decreases balls.len() - i,
    {
        proof {
            lemma_kept_len(balls@, marked@, i as int);
        }
        if !marked[i] {
            if selected == Some(i) {
                r = Some(out.len());
            }
            out.push(balls[i]);
        }
        i = i + 1;
    }
    proof {
        if let Some(s) = selected {
            if !marked[s as int] {
                lemma_kept_index(balls@, marked@, balls.len() as int, s as int);
            }
        }
    }
    *balls = out;
    r
}

/// A list of `n` cleared flags.
pub fn unmarked(n: usize) -> (r: Vec<bool>)
    ensures
        r.len() == n,
        forall|i: int| 0 <= i < n ==> !(#[trigger] r[i]),
{
    let mut r: Vec<bool> = Vec::new();
    let mut i: usize = 0;
    while i < n
        invariant
            i <= n,
            r.len() == i,
            forall|j: int| 0 <= j < i ==> !(#[trigger] r[j]),
        decreases n - i,
    {
        r.push(false);
        i = i + 1;
    }
    r
}

/// How many of the first `n` bodies are of type `t`.
pub open spec fn count_type(s: Seq<Ball>, t: BallType, n: int) -> int
    decreases n,
{
    if n <= 0 {
        0
    } else {
        count_type(s, t, n - 1) + if s[n - 1].ball_type == t {
            1int
        } else {
            0
        }
    }
}

proof fn lemma_count_type_bounds(s: Seq<Ball>, t: BallType, n: int)
    requires
        0 <= n,
    ensures
        0 <= count_type(s, t, n) <= n,
    decreases n,
{
    if n > 0 {
        lemma_count_type_bounds(s, t, n - 1);
    }
}

/// Every body of `after` has the type of the body at the same index of `before`.
pub open spec fn same_types(before: Seq<Ball>, after: Seq<Ball>) -> bool {
    &&& after.len() == before.len()
    &&& forall|i: int|
        0 <= i < before.len() ==> #[trigger] after[i].ball_type == before[i].ball_type
}

/// Moving bodies does not change their types.
pub proof fn lemma_integrated_types(
    before: Seq<Ball>,
    bodies: Seq<Ball>,
    gravity: int,
    gain: int,
    threshold: int,
    held: Option<usize>,
    dt: int,
)
    ensures
        same_types(before, integrated(before, bodies, gravity, gain, threshold, held, dt)),
{
}

/// The collision pass does not change the bodies' types.
pub proof fn lemma_collision_types(
    t: QuadTree,
    before: Seq<Ball>,
    after: Seq<Ball>,
    c: Seq<usize>,
    dt: int,
    restitution: int,
)
    requires
        before.len() <= usize::MAX,
        collision_outcome(t, before, after, c, dt, restitution),
    ensures
        same_types(before, after),
{
    assert forall|i: int| 0 <= i < before.len() implies #[trigger] after[i].ball_type
        == before[i].ball_type by {
        if c.contains(i as usize) {
            let k = choose|k: int| 0 <= k < c.len() && c[k] == i as usize;
            if k % 2 == 0 {
                assert(resolved_pair(t, before, after, c[k] as int, c[k + 1] as int, dt, restitution));
                let r = collided_pair(
                    before[if c[k] > c[k + 1] { c[k] as int } else { c[k + 1] as int }],
                    before[if c[k] > c[k + 1] { c[k + 1] as int } else { c[k] as int }],
                    dt,
                    restitution,
                );
                assert(r.0.ball_type == before[if c[k] > c[k + 1] { c[k] as int } else { c[k + 1] as int }].ball_type);
                assert(r.1.ball_type == before[if c[k] > c[k + 1] { c[k + 1] as int } else { c[k] as int }].ball_type);
            } else {
                assert((k - 1) % 2 == 0);
                let r = collided_pair(
                    before[if c[k - 1] > c[k] { c[k - 1] as int } else { c[k] as int }],
                    before[if c[k - 1] > c[k] { c[k] as int } else { c[k - 1] as int }],
                    dt,
                    restitution,
                );
                assert(r.0.ball_type == before[if c[k - 1] > c[k] { c[k - 1] as int } else { c[k] as int }].ball_type);
                assert(r.1.ball_type == before[if c[k - 1] > c[k] { c[k] as int } else { c[k - 1] as int }].ball_type);
                assert(resolved_pair(
                    t,
                    before,
                    after,
                    c[k - 1] as int,
                    c[(k - 1) + 1] as int,
                    dt,
                    restitution,
                ));
            }
        }
    }
}

/// Every body that survives a removal is one of the bodies before it.
pub proof fn lemma_kept_member(s: Seq<Ball>, marked: Seq<bool>, n: int, j: int)
    requires
        0 <= n <= s.len(),
        0 <= j < kept(s, marked, n).len(),
    ensures
        exists|i: int| 0 <= i < n && #[trigger] s[i] == kept(s, marked, n)[j],
    decreases n,
{
    lemma_kept_len(s, marked, n);
    lemma_kept_len(s, marked, n - 1);
    if marked[n - 1] {
        lemma_kept_member(s, marked, n - 1, j);
    } else if j < kept(s, marked, n - 1).len() {
        lemma_kept_member(s, marked, n - 1, j);
        let i = choose|i: int| 0 <= i < n - 1 && #[trigger] s[i] == kept(s, marked, n - 1)[j];
        assert(s[i] == kept(s, marked, n)[j]);
    } else {
        assert(s[n - 1] == kept(s, marked, n)[j]);
    }
}

/// Some body of the list is hostile.
pub open spec fn has_hostile(s: Seq<Ball>) -> bool {
    exists|i: int| 0 <= i < s.len() && (#[trigger] s[i]).ball_type == BallType::BadBall
}

/// The outcome of the level: once no hostile body is left, the score is the number of
/// neutral bodies plus ten per planted marker.
pub open spec fn score_spec(s: Seq<Ball>, markers: int) -> Option<int> {
    if has_hostile(s) {
        None
    } else {
        Some(count_type(s, BallType::Ball, s.len() as int) + 10 * markers)
    }
}

/// The final score once no hostile body remains, or `None` while one does.
pub fn terminal_score(balls: &Vec<Ball>, markers: usize) -> (r: Option<usize>)
    requires
        balls.len() + 10 * markers <= usize::MAX,
    ensures
        r matches Some(v) ==> score_spec(balls@, markers as int) == Some(v as int),
        r is None ==> score_spec(balls@, markers as int) is None,
{
    let mut count: usize = 0;
    let mut i: usize = 0;
    while i < balls.len()
        invariant
            i <= balls.len(),
            count == count_type(balls@, BallType::Ball, i as int),
            forall|j: int| 0 <= j < i ==> (#[trigger] balls[j]).ball_type != BallType::BadBall,
        decreases balls.len() - i,
    {
        proof {
            lemma_count_type_bounds(balls@, BallType::Ball, i as int);
        }
        if balls[i].ball_type == BallType::BadBall {
            return None;
        }
        if balls[i].ball_type == BallType::Ball {
            count = count + 1;
        }
        i = i + 1;
    }
    proof {
        lemma_count_type_bounds(balls@, BallType::Ball, i as int);
    }
    Some(count + 10 * markers)
}

/// A marker planted where an attractor consumed a bonus body; `direction` points from
/// the body toward the attractor.
#[derive(Clone, Copy, PartialEq, Eq, Structural, Debug)]
pub struct SeededFlower {
    pub position: Vec2,
    pub direction: Vec2,
}

/// The marker for `ball` consumed by `body`: one and a half radii back from the ball's
/// centre, away from the attractor.
pub open spec fn marker_spec(ball: Ball, body: Ball) -> SeededFlower {
    let delta = body.position.sub_spec(ball.position);
    let d = floor_sqrt(delta.len_sq());
    let reach = 3 * ball.radius / 2;
    SeededFlower {
        position: if d == 0 {
            ball.position
        } else {
            Vec2 {
                x: (ball.position.x - trunc_div(delta.x * reach, d)) as i64,
                y: (ball.position.y - trunc_div(delta.y * reach, d)) as i64,
            }
        },
        direction: delta,
    }
}

/// `c * reach / d` toward zero, for a component `c` of a vector of length `d`.
fn reach_along(c: i64, reach: i64, d: i128) -> (r: i64)
    requires
        d > 0,
        -d <= c <= d,
        -2 * COORD_LIMIT <= c <= 2 * COORD_LIMIT,
        0 <= reach <= 2 * RADIUS_LIMIT,
    ensures
        r == trunc_div(c * reach, d as int),
        -reach <= r <= reach,
{
    proof {
        lemma_mul_abs_bound(c as int, reach as int, 2 * COORD_LIMIT, 2 * RADIUS_LIMIT);
        crate::vector::lemma_trunc_div_bounds(c * reach, d as int);
        let a = if c >= 0 { c * reach } else { -(c * reach) };
        assert(0 <= a <= d * reach) by (nonlinear_arith)
            requires
                a == if c >= 0 { c * reach } else { -(c * reach) },
                -d <= c <= d,
                reach >= 0,
        ;
        assert(a / (d as int) <= reach) by (nonlinear_arith)
            requires
                0 <= a <= d * reach,
                d > 0,
        ;
    }
    div_trunc(c as i128 * reach as i128, d) as i64
}

/// The marker planted when `body` consumes `ball`.
pub fn seed_marker(ball: &Ball, body: &Ball) -> (r: SeededFlower)
    requires
        ball.wf(),
        body.wf(),
    ensures
        r == marker_spec(*ball, *body),
{
    let delta = body.position.sub(ball.position);
    let d = isqrt(delta.length_squared() as u128) as i128;
    let reach = 3 * ball.radius / 2;
    if d == 0 {
        return SeededFlower { position: ball.position, direction: delta };
    }
    proof {
        crate::gravity::lemma_component_le_sqrt(delta.x as int, delta.y as int, d as int);
        crate::gravity::lemma_component_le_sqrt(delta.y as int, delta.x as int, d as int);
    }
    let ox = reach_along(delta.x, reach, d);
    let oy = reach_along(delta.y, reach, d);
    SeededFlower {
        position: Vec2 { x: ball.position.x - ox, y: ball.position.y - oy },
        direction: delta,
    }
}

/// The body has left the play field: beyond the kill distance from the origin, or, for
/// a hostile body, outside the window rectangle `[-half_w, half_w] x [-half_h, half_h]`.
pub open spec fn escaped(b: Ball, kill_distance_squared: int, half_w: int, half_h: int) -> bool {
    b.position.len_sq() > kill_distance_squared || (b.ball_type == BallType::BadBall && (
    b.position.x > half_w || -b.position.x > half_w || b.position.y > half_h || -b.position.y
        > half_h))
}

/// Flags every body that has left the play field.
pub fn mark_escaped(
    balls: &Vec<Ball>,
    marked: &mut Vec<bool>,
    kill_distance_squared: i128,
    half_w: i64,
    half_h: i64,
)
    requires
        all_wf(balls@),
        old(marked).len() == balls.len(),
    ensures
        final(marked).len() == balls.len(),
        forall|i: int|
            0 <= i < balls.len() ==> #[trigger] final(marked)[i] == (old(marked)[i] || escaped(
                balls[i],
                kill_distance_squared as int,
                half_w as int,
                half_h as int,
            )),
{
    let mut i: usize = 0;
    while i < balls.len()
        invariant
            all_wf(balls@),
            marked.len() == balls.len(),
            i <= balls.len(),
            forall|j: int| i <= j < balls.len() ==> #[trigger] marked[j] == old(marked)[j],
            forall|j: int|
                0 <= j < i ==> #[trigger] marked[j] == (old(marked)[j] || escaped(
                    balls[j],
                    kill_distance_squared as int,
                    half_w as int,
                    half_h as int,
                )),
        decreases balls.len() - i,
    {
        let p = balls[i].position;
        let out = p.length_squared() > kill_distance_squared || (balls[i].ball_type
            == BallType::BadBall && (p.x > half_w || -p.x > half_w || p.y > half_h || -p.y
            > half_h));
        if out {
            marked.set(i, true);
        }
        i = i + 1;
    }
}

/// The index holds an entry for body `i` inside `window`.
pub open spec fn indexed_in(t: QuadTree, window: Rect, i: int) -> bool {
    exists|e: QuadTreeEntry|
        #[trigger] t.contents().count(e) > 0 && e.payload == i && window.holds_spec(e.position)
}

/// Body `i` is consumed: it touches an attractor whose collision area holds the body's
/// entry in the index.
pub open spec fn consumed(t: QuadTree, bodies: Seq<Ball>, balls: Seq<Ball>, i: int) -> bool {
    exists|k: int|
        0 <= k < bodies.len() && #[trigger] touching(bodies[k], balls[i]) && indexed_in(
            t,
            bodies[k].collision_area(),
            i,
        )
}

/// How many of the first `n` bodies are bonus bodies flagged in `after` but not in `before`.
pub open spec fn new_bonus(before: Seq<bool>, after: Seq<bool>, balls: Seq<Ball>, n: int) -> int
    decreases n,
{
    if n <= 0 {
        0
    } else {
        new_bonus(before, after, balls, n - 1) + if after[n - 1] && !before[n - 1] && balls[n
            - 1].ball_type == BallType::GoodBall {
            1int
        } else {
            0
        }
    }
}

proof fn lemma_new_bonus_set(before: Seq<bool>, after: Seq<bool>, balls: Seq<Ball>, n: int, i: int)
    requires
        0 <= i < n <= after.len(),
        n <= before.len(),
        n <= balls.len(),
        !after[i],
    ensures
        new_bonus(before, after.update(i, true), balls, n) == new_bonus(before, after, balls, n)
            + if !before[i] && balls[i].ball_type == BallType::GoodBall {
            1int
        } else {
            0
        },
    decreases n,
{
    if i < n - 1 {
        lemma_new_bonus_set(before, after, balls, n - 1, i);
    } else {
        lemma_new_bonus_prefix(before, after, balls, n - 1, i);
    }
}

proof fn lemma_new_bonus_prefix(before: Seq<bool>, after: Seq<bool>, balls: Seq<Ball>, m: int, i: int)
    requires
        0 <= m <= i < after.len(),
    ensures
        new_bonus(before, after.update(i, true), balls, m) == new_bonus(before, after, balls, m),
    decreases m,
{
    if m > 0 {
        lemma_new_bonus_prefix(before, after, balls, m - 1, i);
    }
}

/// The markers after a consumption pass: the earlier ones kept, then one marker per newly
/// consumed bonus body, while fewer than `max` exist. Each new marker is the one
/// `marker_spec` gives for such a body and an attractor it touches.
pub open spec fn planted(
    before_f: Seq<SeededFlower>,
    after_f: Seq<SeededFlower>,
    before_m: Seq<bool>,
    after_m: Seq<bool>,
    balls: Seq<Ball>,
    bodies: Seq<Ball>,
    max: int,
) -> bool {
    let wanted = before_f.len() + new_bonus(before_m, after_m, balls, balls.len() as int);
    &&& after_f.len() == if wanted < max {
        wanted
    } else {
        max
    }
    &&& after_f.take(before_f.len() as int) == before_f
    &&& forall|j: int|
        before_f.len() <= j < after_f.len() ==> #[trigger] is_bonus_marker(
            after_f[j],
            before_m,
            after_m,
            balls,
            bodies,
        )
}

/// `f` is the marker of some newly flagged bonus body and an attractor it touches.
pub open spec fn is_bonus_marker(
    f: SeededFlower,
    before_m: Seq<bool>,
    after_m: Seq<bool>,
    balls: Seq<Ball>,
    bodies: Seq<Ball>,
) -> bool {
    exists|i: int, k: int| #[trigger] bonus_marker(f, before_m, after_m, balls, bodies, i, k)
}

/// `f` is the marker for bonus body `i`, newly flagged, consumed by attractor `k`.
pub open spec fn bonus_marker(
    f: SeededFlower,
    before_m: Seq<bool>,
    after_m: Seq<bool>,
    balls: Seq<Ball>,
    bodies: Seq<Ball>,
    i: int,
    k: int,
) -> bool {
    &&& 0 <= i < balls.len()
    &&& 0 <= k < bodies.len()
    &&& after_m[i]
    &&& !before_m[i]
    &&& balls[i].ball_type == BallType::GoodBall
    &&& touching(bodies[k], balls[i])
    &&& f == marker_spec(balls[i], bodies[k])
}

proof fn lemma_new_bonus_zero(m: Seq<bool>, balls: Seq<Ball>, n: int)
    ensures
        new_bonus(m, m, balls, n) == 0,
    decreases n,
{
    if n > 0 {
        lemma_new_bonus_zero(m, balls, n - 1);
    }
}

/// Bodies an attractor touches are consumed: flagged for deletion. Each newly flagged
/// bonus body plants one marker (while fewer than `max_markers` exist).
pub fn consume_touching(
    balls: &Vec<Ball>,
    bodies: &Vec<Ball>,
    tree: &QuadTree,
    marked: &mut Vec<bool>,
    flowers: &mut Vec<SeededFlower>,
    max_markers: usize,
)
    requires
        all_wf(balls@),
        all_wf(bodies@),
        tree.wf(),
        payloads_below(*tree, balls.len() as int),
        old(marked).len() == balls.len(),
        old(flowers).len() <= max_markers,
    ensures
        final(marked).len() == balls.len(),
        final(flowers).len() <= max_markers,
        final(flowers).len() >= old(flowers).len(),
        forall|i: int| 0 <= i < balls.len() && #[trigger] old(marked)[i] ==> final(marked)[i],
        forall|i: int|
            0 <= i < balls.len() && #[trigger] final(marked)[i] && !old(marked)[i] ==> exists|
                k: int,
            |
                0 <= k < bodies.len() && touching(#[trigger] bodies[k], balls[i]),
        forall|i: int, k: int|
            0 <= i < balls.len() && 0 <= k < bodies.len() && #[trigger] touching(bodies[k], balls[i])
                && indexed_in(*tree, bodies[k].collision_area(), i) ==> final(marked)[i],
        forall|i: int|
            0 <= i < balls.len() ==> #[trigger] final(marked)[i] == (old(marked)[i] || consumed(
                *tree,
                bodies@,
                balls@,
                i,
            )),
        planted(
            old(flowers)@,
            final(flowers)@,
            old(marked)@,
            final(marked)@,
            balls@,
            bodies@,
            max_markers as int,
        ),
{
    broadcast use vstd::multiset::group_multiset_axioms;

    proof {
        assert(new_bonus(old(marked)@, old(marked)@, balls@, balls.len() as int) == 0) by {
            lemma_new_bonus_zero(old(marked)@, balls@, balls.len() as int);
        }
        assert(flowers@.take(old(flowers).len() as int) == old(flowers)@);
    }

    let mut k: usize = 0;
    while k < bodies.len()
        invariant
            all_wf(balls@),
            all_wf(bodies@),
            tree.wf(),
            payloads_below(*tree, balls.len() as int),
            k <= bodies.len(),
            marked.len() == balls.len(),
            flowers.len() <= max_markers,
            flowers.len() >= old(flowers).len(),
            old(marked).len() == balls.len(),
            planted(
                old(flowers)@,
                flowers@,
                old(marked)@,
                marked@,
                balls@,
                bodies@,
                max_markers as int,
            ),
            forall|i: int| 0 <= i < balls.len() && #[trigger] old(marked)[i] ==> marked[i],
            forall|i: int|
                0 <= i < balls.len() && #[trigger] marked[i] && !old(marked)[i] ==> consumed(
                    *tree,
                    bodies@,
                    balls@,
                    i,
                ),
            forall|i: int, kk: int|
                0 <= i < balls.len() && 0 <= kk < k && #[trigger] touching(bodies[kk], balls[i])
                    && indexed_in(*tree, bodies[kk].collision_area(), i) ==> marked[i],
        decreases bodies.len() - k,
    {
        let body = bodies[k];
        let zone = body.get_collision_area();
        let mut near: Vec<QuadTreeEntry> = Vec::new();
        proof {
            near@.to_multiset_ensures();
            assert(near@.to_multiset() =~= Multiset::empty());
        }
        tree.query_entries(&zone, &mut near);
        proof {
            assert forall|jj: int| 0 <= jj < near.len() implies (#[trigger] near[jj]).payload
                < balls.len() by {
                near@.to_multiset_ensures();
                assert(near@.contains(near[jj]));
                assert(near@.to_multiset().count(near[jj]) > 0);
                assert(tree.contents().filter(in_rect(zone)).count(near[jj]) > 0);
            }
        }
        let mut j: usize = 0;
        while j < near.len()
            invariant
                all_wf(balls@),
                all_wf(bodies@),
                tree.wf(),
                payloads_below(*tree, balls.len() as int),
                k < bodies.len(),
                body == bodies[k as int],
                zone.wf(),
                zone == bodies[k as int].collision_area(),
                near@.to_multiset() =~= Multiset::<QuadTreeEntry>::empty().add(
                    tree.contents().filter(in_rect(zone)),
                ),
                j <= near.len(),
                marked.len() == balls.len(),
                flowers.len() <= max_markers,
                flowers.len() >= old(flowers).len(),
                old(marked).len() == balls.len(),
                planted(
                    old(flowers)@,
                    flowers@,
                    old(marked)@,
                    marked@,
                    balls@,
                    bodies@,
                    max_markers as int,
                ),
                forall|i: int| 0 <= i < balls.len() && #[trigger] old(marked)[i] ==> marked[i],
                forall|i: int|
                    0 <= i < balls.len() && #[trigger] marked[i] && !old(marked)[i] ==> consumed(
                        *tree,
                        bodies@,
                        balls@,
                        i,
                    ),
                forall|i: int, kk: int|
                    0 <= i < balls.len() && 0 <= kk < k && #[trigger] touching(bodies[kk], balls[i])
                        && indexed_in(*tree, bodies[kk].collision_area(), i) ==> marked[i],
                forall|jj: int|
                    0 <= jj < j && touching(body, balls[(#[trigger] near[jj]).payload as int])
                        ==> marked[near[jj].payload as int],
                forall|jj: int| 0 <= jj < near.len() ==> (#[trigger] near[jj]).payload < balls.len(),
            decreases near.len() - j,
        {
            let entry = near[j];
            proof {
                near@.to_multiset_ensures();
                assert(near@.contains(entry));
                assert(near@.to_multiset().count(entry) > 0);
                assert(tree.contents().filter(in_rect(zone)).count(entry) > 0);
                assert(tree.contents().count(entry) > 0);
            }
            let i = entry.payload;
            let ball = balls[i];
            proof {
                assert(zone.holds_spec(entry.position));
                assert(tree.contents().count(entry) > 0 && entry.payload == i
                    && zone.holds_spec(entry.position));
                assert(indexed_in(*tree, bodies[k as int].collision_area(), i as int));
            }
            if body.check_collision(&ball) && !marked[i] {
                let ghost m0 = marked@;
                let ghost f0 = flowers@;
                marked.set(i, true);
                proof {
                    lemma_new_bonus_set(old(marked)@, m0, balls@, balls.len() as int, i as int);
                    assert(!old(marked)[i as int]);
                    assert(marked@ == m0.update(i as int, true));
                }
                if ball.ball_type == BallType::GoodBall && flowers.len() < max_markers {
                    flowers.push(seed_marker(&ball, &body));
                }
                proof {
                    let n = balls.len() as int;
                    let mx = max_markers as int;
                    let w0 = old(flowers).len() + new_bonus(old(marked)@, m0, balls@, n);
                    let w1 = old(flowers).len() + new_bonus(old(marked)@, marked@, balls@, n);
                    assert(f0.len() == if w0 < mx { w0 } else { mx });
                    if ball.ball_type == BallType::GoodBall {
                        assert(w1 == w0 + 1);
                    } else {
                        assert(w1 == w0);
                    }
                    assert(flowers.len() == if w1 < mx { w1 } else { mx });
                    assert(flowers@.take(old(flowers).len() as int) == old(flowers)@) by {
                        assert(flowers@.take(old(flowers).len() as int) =~= f0.take(
                            old(flowers).len() as int,
                        ));
                    }
                    assert forall|jx: int|
                        old(flowers).len() <= jx < flowers.len() implies #[trigger] is_bonus_marker(
                        flowers@[jx],
                        old(marked)@,
                        marked@,
                        balls@,
                        bodies@,
                    ) by {
                        if jx < f0.len() {
                            assert(flowers@[jx] == f0[jx]);
                            assert(is_bonus_marker(f0[jx], old(marked)@, m0, balls@, bodies@));
                            let (ii, kk) = choose|ii: int, kk: int|
                                #[trigger] bonus_marker(f0[jx], old(marked)@, m0, balls@, bodies@, ii, kk);
                            assert(marked@[ii]);
                            assert(bonus_marker(flowers@[jx], old(marked)@, marked@, balls@, bodies@, ii, kk));
                        } else {
                            assert(flowers@[jx] == marker_spec(balls@[i as int], bodies@[k as int]));
                            assert(bonus_marker(
                                flowers@[jx],
                                old(marked)@,
                                marked@,
                                balls@,
                                bodies@,
                                i as int,
                                k as int,
                            ));
                        }
                    }
                }
            }
            j = j + 1;
        }
        proof {
            assert forall|i: int, kk: int|
                0 <= i < balls.len() && 0 <= kk < k + 1 && #[trigger] touching(bodies[kk], balls[i])
                    && indexed_in(*tree, bodies[kk].collision_area(), i) implies marked[i] by {
                if kk == k {
                    let e = choose|e: QuadTreeEntry|
                        #[trigger] tree.contents().count(e) > 0 && e.payload == i
                            && bodies[kk].collision_area().holds_spec(e.position);
                    assert(tree.contents().filter(in_rect(zone)).count(e) > 0);
                    assert(near@.to_multiset().count(e) > 0);
                    near@.to_multiset_ensures();
                    assert(near@.contains(e));
                    let jj = choose|jj: int| 0 <= jj < near.len() && near@[jj] == e;
                    assert(touching(body, balls[near[jj].payload as int]));
                }
            }
        }
        k = k + 1;
    }
    proof {
        assert forall|i: int|
            0 <= i < balls.len() implies #[trigger] marked[i] == (old(marked)[i] || consumed(
            *tree,
            bodies@,
            balls@,
            i,
        )) by {
            if consumed(*tree, bodies@, balls@, i) {
                let kk = choose|kk: int|
                    0 <= kk < bodies.len() && #[trigger] touching(bodies[kk], balls[i]) && indexed_in(
                        *tree,
                        bodies[kk].collision_area(),
                        i,
                    );
                assert(touching(bodies[kk], balls[i]));
            }
        }
    }
}

/// The trace buffer after writing `positions` one after another, starting at slot `start`
/// and wrapping around.
pub open spec fn traced(traces: Seq<Vec2>, start: int, positions: Seq<Vec2>) -> Seq<Vec2>
    decreases positions.len(),
{
    if positions.len() == 0 {
        traces
    } else {
        let before = traced(traces, start, positions.drop_last());
        before.update((start + positions.len() - 1) % (traces.len() as int), positions.last())
    }
}

/// The positions of a list of bodies.
pub open spec fn positions(s: Seq<Ball>) -> Seq<Vec2> {
    s.map_values(|b: Ball| b.position)
}

/// Writes each body's position into the circular trace buffer, oldest slot first, and
/// returns the next slot.
pub fn record_traces(traces: &mut Vec<Vec2>, trace_index: usize, balls: &Vec<Ball>) -> (r: usize)
    requires
        old(traces).len() > 0,
        trace_index < old(traces).len(),
    ensures
        final(traces)@ == traced(old(traces)@, trace_index as int, positions(balls@)),
        r == (trace_index + balls.len()) % (old(traces).len() as int),
        final(traces).len() == old(traces).len(),
        r < old(traces).len(),
{
    let mut idx = trace_index;
    let mut i: usize = 0;
    let len = traces.len();
    proof {
        vstd::arithmetic::div_mod::lemma_small_mod(trace_index as nat, len as nat);
        assert(positions(balls@).take(0) =~= Seq::<Vec2>::empty());
    }
    while i < balls.len()
        invariant
            traces.len() == len == old(traces).len(),
            len > 0,
            i <= balls.len(),
            idx < len,
            idx == (trace_index + i) % (len as int),
            traces@ == traced(old(traces)@, trace_index as int, positions(balls@).take(i as int)),
        decreases balls.len() - i,
    {
        proof {
            assert(positions(balls@).take(i + 1).drop_last() == positions(balls@).take(i as int));
            assert(traced(old(traces)@, trace_index as int, positions(balls@).take(i + 1)).len()
                == len) by {
                lemma_traced_len(old(traces)@, trace_index as int, positions(balls@).take(i + 1));
            }
            let x = trace_index + i;
            vstd::arithmetic::div_mod::lemma_fundamental_div_mod(x, len as int);
            let q = x / (len as int);
            assert(x + 1 == q * len + (idx + 1)) by (nonlinear_arith)
                requires
                    x == len * q + idx,
            ;
            if idx + 1 < len {
                vstd::arithmetic::div_mod::lemma_fundamental_div_mod_converse(
                    x + 1,
                    len as int,
                    q,
                    idx + 1,
                );
            } else {
                assert((q + 1) * len == len * q + len) by (nonlinear_arith);
                vstd::arithmetic::div_mod::lemma_fundamental_div_mod_converse(
                    x + 1,
                    len as int,
                    q + 1,
                    0,
                );
            }
        }
        traces.set(idx, balls[i].position);
        idx = if idx + 1 == len {
            0
        } else {
            idx + 1
        };
        i = i + 1;
    }
    assert(positions(balls@).take(i as int) == positions(balls@));
    proof {
        lemma_traced_len(old(traces)@, trace_index as int, positions(balls@));
    }
    idx
}

proof fn lemma_traced_len(traces: Seq<Vec2>, start: int, p: Seq<Vec2>)
    requires
        traces.len() > 0,
    ensures
        traced(traces, start, p).len() == traces.len(),
    decreases p.len(),
{
    if p.len() > 0 {
        lemma_traced_len(traces, start, p.drop_last());
        vstd::arithmetic::div_mod::lemma_mod_bound(start + p.len() - 1, traces.len() as int);
    }
}

/// The engine's tunable constants: the gravitational constant (sub-pixels cubed per mass
/// unit per tick squared), the orbit trap's steering acceleration and the squared velocity
/// gap beyond which it steers, and the share of the relative normal speed a collision
/// keeps (percent).
#[derive(Clone, Copy, PartialEq, Eq, Structural, Debug)]
pub struct SimConfig {
    pub gravity: i64,
    pub trap_gain: i64,
    pub trap_threshold: i64,
    pub restitution: i64,
}

impl SimConfig {
    pub open spec fn wf(self) -> bool {
        &&& 0 < self.gravity <= GRAVITY_LIMIT
        &&& 0 <= self.trap_gain <= ACCEL_LIMIT
        &&& self.trap_threshold >= 0
        &&& 0 <= self.restitution <= 100
    }
}

/// Sizes of the window and of the play area, in sub-pixels.
#[derive(Clone, Copy, PartialEq, Eq, Structural, Debug)]
pub struct LevelParameters {
    pub window_size: Vec2,
    pub play_area_size: Vec2,
}

/// Largest side of a window or play area (sub-pixels).
pub const MAX_AREA: i64 = 1099511627776;

impl LevelParameters {
    pub open spec fn wf(self) -> bool {
        &&& 0 < self.window_size.x <= MAX_AREA
        &&& 0 < self.window_size.y <= MAX_AREA
        &&& 0 < self.play_area_size.x <= MAX_AREA
        &&& 0 < self.play_area_size.y <= MAX_AREA
    }
}

/// Largest magnitude of a direction component drawn for a start position.
pub const DIRECTION_RANGE: i32 = 32768;

/// The point at distance `rad` from `center` along `dir` (of length `|dir|`, rounded down).
pub open spec fn orbit_point(center: Vec2, dir: Vec2, rad: int) -> Vec2 {
    let l = floor_sqrt(dir.len_sq());
    clamp_vec(
        center.x + trunc_div(dir.x * rad, l),
        center.y + trunc_div(dir.y * rad, l),
        COORD_LIMIT as int,
    )
}

/// A usable direction: not too short to point precisely, components in draw range.
pub open spec fn usable_direction(d: Vec2) -> bool {
    &&& d.within(DIRECTION_RANGE as int)
    &&& 1048576 <= d.len_sq() <= 1073741824
}

/// The point at distance `rad` from `center` along `dir`.
pub fn orbital_position(center: Vec2, dir: Vec2, rad: i64) -> (r: Vec2)
    requires
        center.within(COORD_LIMIT as int),
        usable_direction(dir),
        0 <= rad <= i32::MAX,
    ensures
        r == orbit_point(center, dir, rad as int),
{
    let l = isqrt(dir.length_squared() as u128) as i128;
    assert(l > 0) by (nonlinear_arith)
        requires
            dir.len_sq() < (l + 1) * (l + 1),
            dir.len_sq() >= 1048576,
            l >= 0,
    ;
    proof {
        lemma_mul_abs_bound(dir.x as int, rad as int, DIRECTION_RANGE as int, i32::MAX as int);
        lemma_mul_abs_bound(dir.y as int, rad as int, DIRECTION_RANGE as int, i32::MAX as int);
        crate::vector::lemma_trunc_div_bounds(dir.x * rad, l as int);
        crate::vector::lemma_trunc_div_bounds(dir.y * rad, l as int);
    }
    let ox = div_trunc(dir.x as i128 * rad as i128, l);
    let oy = div_trunc(dir.y as i128 * rad as i128, l);
    Vec2 {
        x: clamp_wide(center.x as i128 + ox, COORD_LIMIT),
        y: clamp_wide(center.y as i128 + oy, COORD_LIMIT),
    }
}

/// `o` lies within the ring band of radius `rad`: its length is at least `rad - 2` and at
/// most `rad + rad / 1024 + 2` (the slack covers rounding of the direction's length and
/// of each component).
pub open spec fn in_band(o: Vec2, rad: int) -> bool {
    let lo = if rad > 2 {
        rad - 2
    } else {
        0
    };
    let hi = rad + rad / 1024 + 2;
    lo * lo <= o.len_sq() <= hi * hi
}

/// The drawn pair `(x, y)` as a direction, when it is usable.
pub fn accept_direction(x: i32, y: i32) -> (r: Option<Vec2>)
    ensures
        r == if usable_direction(Vec2 { x: x as i64, y: y as i64 }) {
            Some(Vec2 { x: x as i64, y: y as i64 })
        } else {
            None
        },
{
    let d = Vec2 { x: x as i64, y: y as i64 };
    if x < -DIRECTION_RANGE || x > DIRECTION_RANGE || y < -DIRECTION_RANGE || y > DIRECTION_RANGE {
        return None;
    }
    let l2 = d.length_squared();
    if 1048576 <= l2 && l2 <= 1073741824 {
        Some(d)
    } else {
        None
    }
}

/// The point at distance `rad` from `center` along `dir`, when it lies in the ring band.
pub fn ring_point(center: Vec2, dir: Vec2, rad: i64) -> (r: Option<Vec2>)
    requires
        center.within(COORD_LIMIT as int),
        usable_direction(dir),
        0 <= rad <= i32::MAX,
    ensures
        r == if in_band(orbit_point(center, dir, rad as int).sub_spec(center), rad as int) {
            Some(orbit_point(center, dir, rad as int))
        } else {
            None
        },
{
    let p = orbital_position(center, dir, rad);
    let o = p.sub(center);
    let lo: i128 = if rad > 2 {
        (rad - 2) as i128
    } else {
        0
    };
    let hi: i128 = (rad + rad / 1024 + 2) as i128;
    let l2 = o.length_squared();
    assert(0 <= lo <= hi <= 4294967296);
    assert(lo * lo <= hi * hi <= 4294967296 * 4294967296) by (nonlinear_arith)
        requires
            0 <= lo <= hi <= 4294967296,
    ;
    if lo * lo <= l2 && l2 <= hi * hi {
        Some(p)
    } else {
        None
    }
}

/// The point at distance exactly `rad` from `center` along the x axis (to the left when
/// the right would leave the coordinate range).
pub open spec fn axis_point(center: Vec2, rad: int) -> Vec2 {
    if center.x + rad <= COORD_LIMIT {
        Vec2 { x: (center.x + rad) as i64, y: center.y }
    } else {
        Vec2 { x: (center.x - rad) as i64, y: center.y }
    }
}

/// A random point on the ring of radii `[min_radius, max_radius]` around `center`: a
/// direction drawn uniformly in a square (kept when usable) and a radius, retried until
/// the point lies in the band; after a bounded number of tries, a point on the x axis.
pub fn random_orbital_pos(center: Vec2, min_radius: i32, max_radius: i32, rng: &RandGenerator) -> (r:
    Vec2)
    requires
        center.within(COORD_LIMIT as int),
        0 <= min_radius <= max_radius,
    ensures
        r.within(COORD_LIMIT as int),
        exists|rad: int| min_radius <= rad <= max_radius && in_band(r.sub_spec(center), rad),
{
    let mut tries: u32 = 0;
    while tries < 64
        invariant
            center.within(COORD_LIMIT as int),
            0 <= min_radius <= max_radius,
        decreases 64 - tries,
    {
        let x = gen_range_i32(rng, -DIRECTION_RANGE, DIRECTION_RANGE);
        let y = gen_range_i32(rng, -DIRECTION_RANGE, DIRECTION_RANGE);
        let rad = gen_range_i32(rng, min_radius, max_radius);
        if let Some(dir) = accept_direction(x, y) {
            if let Some(p) = ring_point(center, dir, rad as i64) {
                assert(min_radius <= rad <= max_radius && in_band(p.sub_spec(center), rad as int));
                return p;
            }
        }
        tries = tries + 1;
    }
    let rad = min_radius as i64;
    let p = if center.x <= COORD_LIMIT - rad {
        Vec2 { x: center.x + rad, y: center.y }
    } else {
        Vec2 { x: center.x - rad, y: center.y }
    };
    proof {
        let o = p.sub_spec(center);
        assert(o.len_sq() == rad * rad) by (nonlinear_arith)
            requires
                o.len_sq() == o.x * o.x + o.y * o.y,
                o.x == rad || o.x == -rad,
                o.y == 0,
        ;
        let lo = if rad > 2 { rad - 2 } else { 0 };
        let hi = rad + rad / 1024 + 2;
        assert(lo * lo <= rad * rad <= hi * hi) by (nonlinear_arith)
            requires
                0 <= lo <= rad <= hi,
        ;
        assert(in_band(o, rad as int));
    }
    p
}

} // verus!
