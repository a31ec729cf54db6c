use vstd::prelude::*;

verus! {

/// Nanoseconds in one second.
pub const NANOS_PER_SEC: u64 = 1_000_000_000;

/// A point in the world, in thousandths of a unit.
#[derive(Clone, Copy, Debug, PartialEq, Eq, Structural)]
pub struct Position {
    pub x: i32,
    pub y: i32,
    pub z: i32,
}

/// A wide vector (spawn points and aim directions), in thousandths of a unit.
#[derive(Clone, Copy, Debug, PartialEq, Eq, Structural)]
pub struct Vector {
    pub x: i64,
    pub y: i64,
    pub z: i64,
}

/// `a / b` rounded to the nearest integer, halves away from zero, for a
/// positive divisor.
pub open spec fn rdiv(a: int, b: int) -> int {
    if a >= 0 {
        (a + b / 2) / b
    } else {
        -((-a + b / 2) / b)
    }
}

/// Bound on the size of each component of a bullet's direction.
pub const DIRECTION_LIMIT: i64 = 0x2_0000_0000;

/// Every component of `v` is below `DIRECTION_LIMIT` in size.
pub open spec fn direction_in_range(v: Vector) -> bool {
    &&& -DIRECTION_LIMIT < v.x < DIRECTION_LIMIT
    &&& -DIRECTION_LIMIT < v.y < DIRECTION_LIMIT
    &&& -DIRECTION_LIMIT < v.z < DIRECTION_LIMIT
}

/// `v` brought into the range of `i32`.
pub open spec fn clamp_i32(v: int) -> int {
    if v < i32::MIN {
        i32::MIN as int
    } else if v > i32::MAX {
        i32::MAX as int
    } else {
        v
    }
}

/// `r` is the integer square root of `n`.
pub open spec fn is_isqrt(n: int, r: int) -> bool {
    0 <= r && r * r <= n < (r + 1) * (r + 1)
}

pub open spec fn sq_len(v: Vector) -> int {
    v.x * v.x + v.y * v.y + v.z * v.z
}

/// Squared distance from a position to a point.
pub open spec fn sq_dist(p: Position, s: Vector) -> int {
    (p.x - s.x) * (p.x - s.x) + (p.y - s.y) * (p.y - s.y) + (p.z - s.z) * (p.z - s.z)
}

/// The integer square root of `n`.
pub open spec fn int_sqrt(n: int) -> int {
    choose|r: int| is_isqrt(n, r)
}

pub proof fn lemma_int_sqrt(n: int, r: int)
    requires
        is_isqrt(n, r),
    ensures
        int_sqrt(n) == r,
{
    let q = int_sqrt(n);
    assert(is_isqrt(n, q));
    if q < r {
        assert((q + 1) * (q + 1) <= r * r) by (nonlinear_arith)
            requires
                0 <= q < r,
        ;
    } else if r < q {
        assert((r + 1) * (r + 1) <= q * q) by (nonlinear_arith)
            requires
                0 <= r < q,
        ;
    }
}

/// One component of the velocity of magnitude `speed` along a direction
/// whose component is `c` and whose squared length is `n`: the real
/// `c * speed / sqrt(n)` rounded toward zero. (For `a >= 0`,
/// `floor(a / sqrt(n)) == isqrt(floor(a * a / n))`.)
pub open spec fn velocity(c: int, speed: int, n: int) -> int {
    let m = int_sqrt((c * c * speed * speed) / n);
    if c * speed >= 0 {
        m
    } else {
        -m
    }
}

/// Distance covered in `delta` nanoseconds at `v` thousandths per second,
/// rounded to the nearest thousandth.
pub open spec fn step(v: int, delta: int) -> int {
    rdiv(v * delta, NANOS_PER_SEC as int)
}

/// `a / b` rounded to the nearest integer, halves away from zero.
pub fn div_round(a: i128, b: i128) -> (r: i128)
    requires
        0 < b < 0x1_0000_0000_0000_0000_0000_0000,
        -0x1_0000_0000_0000_0000_0000_0000 < a < 0x1_0000_0000_0000_0000_0000_0000,
    ensures
        r == rdiv(a as int, b as int),
{
    let h: i128 = b / 2;
    if a >= 0 {
        (a + h) / b
    } else {
        let q: i128 = (-a + h) / b;
        -q
    }
}

/// The integer square root of `n`.
pub fn isqrt(n: u128) -> (r: u64)
    ensures
        is_isqrt(n as int, r as int),
{
    let mut lo: u128 = 0;
    let mut hi: u128 = 0x1_0000_0000_0000_0000;
    assert(hi * hi > u128::MAX) by (nonlinear_arith)
        requires
            hi == 0x1_0000_0000_0000_0000u128,
    ;
    while hi - lo > 1
        invariant
            lo < hi <= 0x1_0000_0000_0000_0000u128,
            lo * lo <= n,
            n < hi * hi,
        decreases hi - lo,
    {
        let mid: u128 = lo + (hi - lo) / 2;
        assert(mid * mid <= 0xffff_ffff_ffff_ffffu128 * 0xffff_ffff_ffff_ffffu128) by (nonlinear_arith)
            requires
                mid < 0x1_0000_0000_0000_0000u128,
        ;
        if mid * mid <= n {
            lo = mid;
        } else {
            hi = mid;
        }
    }
    assert(hi == lo + 1);
    lo as u64
}

/// The square of `v`.
fn square(v: i128) -> (r: u128)
    requires
        -0xffff_ffff_ffff_ffffi128 <= v <= 0xffff_ffff_ffff_ffffi128,
    ensures
        r == v * v,
{
    let m: u128 = if v >= 0 {
        v as u128
    } else {
        (-v) as u128
    };
    assert(m * m == v * v && m * m <= 0xffff_ffff_ffff_ffffu128 * 0xffff_ffff_ffff_ffffu128)
        by (nonlinear_arith)
        requires
            m == v || m == -v,
            0 <= m <= 0xffff_ffff_ffff_ffffu128,
    ;
    m * m
}

/// Squared length of `v`.
pub fn squared_length(v: &Vector) -> (r: u128)
    ensures
        r == sq_len(*v),
{
    let a = square(v.x as i128);
    let b = square(v.y as i128);
    let c = square(v.z as i128);
    assert(a + b + c <= u128::MAX) by (nonlinear_arith)
        requires
            a == v.x * v.x,
            b == v.y * v.y,
            c == v.z * v.z,
            -0x8000_0000_0000_0000 <= v.x < 0x8000_0000_0000_0000,
            -0x8000_0000_0000_0000 <= v.y < 0x8000_0000_0000_0000,
            -0x8000_0000_0000_0000 <= v.z < 0x8000_0000_0000_0000,
    ;
    a + b + c
}

proof fn lemma_square_bound(d: int)
    requires
        -0x4_0000_0000 <= d <= 0x4_0000_0000,
    ensures
        0 <= d * d <= 0x10_0000_0000_0000_0000,
{
    assert(0 <= d * d <= 0x10_0000_0000_0000_0000) by (nonlinear_arith)
        requires
            -0x4_0000_0000 <= d <= 0x4_0000_0000,
    ;
}

/// Squared distance from `p` to `s`.
pub fn squared_distance(p: &Position, s: &Vector) -> (r: u128)
    requires
        -0x2_0000_0000 <= s.x <= 0x2_0000_0000,
        -0x2_0000_0000 <= s.y <= 0x2_0000_0000,
        -0x2_0000_0000 <= s.z <= 0x2_0000_0000,
    ensures
        r == sq_dist(*p, *s),
{
    let a = square(p.x as i128 - s.x as i128);
    let b = square(p.y as i128 - s.y as i128);
    let c = square(p.z as i128 - s.z as i128);
    proof {
        lemma_square_bound(p.x - s.x);
        lemma_square_bound(p.y - s.y);
        lemma_square_bound(p.z - s.z);
    }
    a + b + c
}

} // verus!
