use vstd::prelude::*;

verus! {

/// Number of fixed-point steps in one pixel.
pub const SUBPIXELS: i64 = 1048576;

/// Largest magnitude of a stored coordinate (in sub-pixel units).
pub const COORD_LIMIT: i64 = 17592186044416;

/// Largest magnitude of one component of an acceleration (sub-pixels per tick squared).
pub const ACCEL_LIMIT: i64 = 17592186044416;

/// Largest magnitude of one component of a velocity (sub-pixels per tick).
pub const VEL_LIMIT: i64 = 35184372088832;

/// Saturates `v` into `[-limit, limit]`.
pub open spec fn clamp_int(v: int, limit: int) -> int {
    if v > limit {
        limit
    } else if v < -limit {
        -limit
    } else {
        v
    }
}

/// Integer division rounding toward zero, for a positive divisor.
pub open spec fn trunc_div(a: int, b: int) -> int {
    if a >= 0 {
        a / b
    } else {
        -((-a) / b)
    }
}

/// `r` is the integer square root of `n`, rounded down.
pub open spec fn is_floor_sqrt(n: int, r: int) -> bool {
    0 <= r && r * r <= n < (r + 1) * (r + 1)
}

/// The integer square root of `n`, rounded down.
pub open spec fn floor_sqrt(n: int) -> int {
    choose|r: int| is_floor_sqrt(n, r)
}

pub proof fn lemma_floor_sqrt_unique(n: int, a: int, b: int)
    requires
        is_floor_sqrt(n, a),
        is_floor_sqrt(n, b),
    ensures
        a == b,
{
    if a < b {
        assert((a + 1) * (a + 1) <= b * b) by (nonlinear_arith)
            requires
                0 <= a,
                a + 1 <= b,
        ;
    } else if b < a {
        assert((b + 1) * (b + 1) <= a * a) by (nonlinear_arith)
            requires
                0 <= b,
                b + 1 <= a,
        ;
    }
}

pub proof fn lemma_floor_sqrt_of(n: int, r: int)
    requires
        is_floor_sqrt(n, r),
    ensures
        floor_sqrt(n) == r,
{
    let c = floor_sqrt(n);
    assert(is_floor_sqrt(n, c));
    lemma_floor_sqrt_unique(n, c, r);
}

/// Saturates a wide value into `[-limit, limit]`.
pub fn clamp_wide(v: i128, limit: i64) -> (r: i64)
    requires
        limit >= 0,
    ensures
        r == clamp_int(v as int, limit as int),
{
    if v > limit as i128 {
        limit
    } else if v < -(limit as i128) {
        -limit
    } else {
        v as i64
    }
}

/// Division rounding toward zero; the divisor is positive.
pub fn div_trunc(a: i128, b: i128) -> (r: i128)
    requires
        b > 0,
        a > i128::MIN,
    ensures
        r == trunc_div(a as int, b as int),
{
    if a >= 0 {
        let q = (a as u128) / (b as u128);
        q as i128
    } else {
        let q = ((-a) as u128) / (b as u128);
        -(q as i128)
    }
}

pub proof fn lemma_trunc_div_bounds(a: int, b: int)
    requires
        b > 0,
    ensures
        a >= 0 ==> 0 <= trunc_div(a, b) <= a,
        a < 0 ==> a <= trunc_div(a, b) <= 0,
        b * trunc_div(a, b) - b < a < b * trunc_div(a, b) + b,
{
    if a >= 0 {
        assert(0 <= a / b <= a) by (nonlinear_arith)
            requires
                a >= 0,
                b > 0,
        ;
        assert(b * (a / b) <= a < b * (a / b) + b) by (nonlinear_arith)
            requires
                a >= 0,
                b > 0,
        ;
    } else {
        let na = -a;
        assert(0 <= na / b <= na) by (nonlinear_arith)
            requires
                na > 0,
                b > 0,
        ;
        assert(b * (na / b) <= na < b * (na / b) + b) by (nonlinear_arith)
            requires
                na > 0,
                b > 0,
        ;
        let q = na / b;
        assert(b * (-q) == -(b * q)) by (nonlinear_arith);
    }
}

/// Integer square root, rounded down.
pub fn isqrt(n: u128) -> (r: u64)
    ensures
        is_floor_sqrt(n as int, r as int),
        r as int == floor_sqrt(n as int),
{
    // invariant: lo * lo <= n < hi * hi
    let mut lo: u128 = 0;
    let mut hi: u128 = 18446744073709551616;
    assert(n < hi * hi) by (nonlinear_arith)
        requires
            hi == 18446744073709551616u128,
            n <= u128::MAX,
    ;
    while hi - lo > 1
        invariant
            lo < hi <= 18446744073709551616u128,
            lo * lo <= n,
            n < hi * hi,
        decreases hi - lo,
    {
        let mid = lo + (hi - lo) / 2;
        assert(lo < mid < hi);
        assert(mid * mid < 18446744073709551616u128 * 18446744073709551616u128) by (nonlinear_arith)
            requires
                mid < 18446744073709551616u128,
        ;
        assert(mid * mid <= u128::MAX);
        if mid * mid <= n {
            lo = mid;
        } else {
            hi = mid;
        }
    }
    assert(hi == lo + 1);
    proof {
        lemma_floor_sqrt_of(n as int, lo as int);
    }
    lo as u64
}

/// A fixed-point 2D vector; components are in sub-pixel units (or per tick, per tick squared).
#[derive(Clone, Copy, PartialEq, Eq, Structural, Debug, Hash)]
pub struct Vec2 {
    pub x: i64,
    pub y: i64,
}

impl Vec2 {
    /// Both components lie in `[-limit, limit]`.
    pub open spec fn within(self, limit: int) -> bool {
        -limit <= self.x <= limit && -limit <= self.y <= limit
    }

    /// Squared Euclidean length, exactly.
    pub open spec fn len_sq(self) -> int {
        self.x * self.x + self.y * self.y
    }

    /// Component-wise difference (in range for coordinates within the limits).
    pub open spec fn sub_spec(self, o: Vec2) -> Vec2 {
        Vec2 { x: (self.x - o.x) as i64, y: (self.y - o.y) as i64 }
    }

    pub open spec fn dot_spec(self, o: Vec2) -> int {
        self.x * o.x + self.y * o.y
    }

    pub fn new(x: i64, y: i64) -> (r: Vec2)
        ensures
            r == (Vec2 { x, y }),
    {
        Vec2 { x, y }
    }

    pub open spec fn zero_spec() -> Vec2 {
        Vec2 { x: 0, y: 0 }
    }

    pub fn zero() -> (r: Vec2)
        ensures
            r == (Vec2 { x: 0, y: 0 }),
    {
        Vec2 { x: 0, y: 0 }
    }

    /// Component-wise difference; the operands lie within the coordinate range.
    pub fn sub(self, o: Vec2) -> (r: Vec2)
        requires
            self.within(VEL_LIMIT as int),
            o.within(VEL_LIMIT as int),
        ensures
            r.x == self.x - o.x,
            r.y == self.y - o.y,
    {
        Vec2 { x: self.x - o.x, y: self.y - o.y }
    }

    /// Component-wise sum; the operands lie within the coordinate range.
    pub fn add(self, o: Vec2) -> (r: Vec2)
        requires
            self.within(VEL_LIMIT as int),
            o.within(VEL_LIMIT as int),
        ensures
            r.x == self.x + o.x,
            r.y == self.y + o.y,
    {
        Vec2 { x: self.x + o.x, y: self.y + o.y }
    }

    /// Exact dot product.
    pub fn dot(self, o: Vec2) -> (r: i128)
        requires
            self.within(4 * VEL_LIMIT),
            o.within(4 * VEL_LIMIT),
        ensures
            r == self.dot_spec(o),
    {
        proof {
            lemma_mul_bound(self.x as int, o.x as int, 140737488355328);
            lemma_mul_bound(self.y as int, o.y as int, 140737488355328);
        }
        (self.x as i128) * (o.x as i128) + (self.y as i128) * (o.y as i128)
    }

    /// Exact squared length.
    pub fn length_squared(self) -> (r: i128)
        requires
            self.within(4 * VEL_LIMIT),
        ensures
            r == self.len_sq(),
            r >= 0,
    {
        proof {
            assert(self.x * self.x >= 0) by (nonlinear_arith);
            assert(self.y * self.y >= 0) by (nonlinear_arith);
        }
        self.dot(self)
    }
}

/// `v * k` for a velocity-sized `v` and a small non-negative factor, exactly.
pub fn scale(v: i64, k: i64) -> (r: i128)
    requires
        -VEL_LIMIT <= v <= VEL_LIMIT,
        0 <= k <= 1048576,
    ensures
        r == v * k,
        -VEL_LIMIT * 1048576 <= r <= VEL_LIMIT * 1048576,
{
    proof {
        lemma_mul_abs_bound(v as int, k as int, VEL_LIMIT as int, 1048576);
    }
    v as i128 * k as i128
}

pub proof fn lemma_mul_abs_bound(a: int, b: int, la: int, lb: int)
    requires
        -la <= a <= la,
        -lb <= b <= lb,
    ensures
        -(la * lb) <= a * b <= la * lb,
{
    assert(-(la * lb) <= a * b <= la * lb) by (nonlinear_arith)
        requires
            -la <= a <= la,
            -lb <= b <= lb,
    ;
}

pub proof fn lemma_mul_bound(a: int, b: int, l: int)
    requires
        -l <= a <= l,
        -l <= b <= l,
    ensures
        -(l * l) <= a * b <= l * l,
{
    assert(-(l * l) <= a * b <= l * l) by (nonlinear_arith)
        requires
            -l <= a <= l,
            -l <= b <= l,
    ;
}

} // verus!
