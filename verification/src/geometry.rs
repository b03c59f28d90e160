//! Fixed-point geometry for the motion rules.
//!
//! World positions are held in hundredths of a world unit, so an arrival
//! tolerance of 1.2 world units is the integer 120 and a speed of 10 world
//! units per second is the integer 1000. Everything the motion controller
//! decides — arrival, direction, velocity — is exact integer arithmetic and
//! can be specified precisely.

use vstd::prelude::*;

verus! {

/// Fixed-point coordinates per world unit.
pub const UNITS_PER_WORLD: i64 = 100;

/// Speed of a moving entity: 10 world units per second.
pub const SPEED: i64 = 1000;

/// Simulation ticks per second used when a velocity is integrated over one
/// tick.
pub const TICKS_PER_SEC: i64 = 50;

/// Planar distance at which a waypoint counts as reached: 1.2 world units.
pub const ARRIVE_TOL: i64 = 120;

/// The arrival tolerance squared, so arrival can be decided without a root.
pub const ARRIVE_TOL_SQ: i64 = 14400;

/// Bound on every coordinate the motion rules accept; keeps each squared
/// planar distance and every scaled product comfortably inside 64 bits.
pub const COORD_LIMIT: i64 = 1_000_000_000;

/// Largest vertical offset to a waypoint, 16 world units, under which each
/// tick's integrated step is guaranteed to make planar progress. A waypoint
/// far above or below the entity dilutes the 3D-normalized velocity until
/// its fixed-point planar components round to zero, so arrival can only be
/// promised up to this climb.
pub const CLIMB_LIMIT: i64 = 1600;

/// A position or waypoint in fixed-point world coordinates.
#[derive(Clone, Copy, Debug, PartialEq, Eq, Structural)]
pub struct Point {
    pub x: i64,
    pub y: i64,
    pub z: i64,
}

/// A velocity in fixed-point world coordinates per second.
#[derive(Clone, Copy, Debug, PartialEq, Eq, Structural)]
pub struct Velocity {
    pub x: i64,
    pub y: i64,
    pub z: i64,
}

impl Velocity {
    /// The velocity of an entity at rest.
    pub fn zero() -> (r: Velocity)
        ensures
            r == Velocity::spec_zero(),
    {
        Velocity { x: 0, y: 0, z: 0 }
    }

    /// The zero velocity, as contracts see it.
    pub open spec fn spec_zero() -> Velocity {
        Velocity { x: 0, y: 0, z: 0 }
    }
}

/// Whether every coordinate of `p` is within the accepted world bounds.
pub open spec fn in_bounds(p: Point) -> bool {
    &&& -COORD_LIMIT <= p.x <= COORD_LIMIT
    &&& -COORD_LIMIT <= p.y <= COORD_LIMIT
    &&& -COORD_LIMIT <= p.z <= COORD_LIMIT
}

/// The square of an integer.
pub open spec fn sq(x: int) -> int {
    x * x
}

/// Squared distance between `a` and `b` in the horizontal plane; the vertical
/// component is ignored because motion is constrained to that plane.
pub open spec fn planar_dist_sq(a: Point, b: Point) -> int {
    sq(b.x - a.x) + sq(b.z - a.z)
}

/// Squared distance between `a` and `b` over all three coordinates; this is
/// what a direction toward `b` is normalized by.
pub open spec fn dist3_sq(a: Point, b: Point) -> int {
    sq(b.x - a.x) + sq(b.y - a.y) + sq(b.z - a.z)
}

/// `r` is the integer square root of `n`, rounded down.
pub open spec fn is_isqrt(n: int, r: int) -> bool {
    &&& 0 <= r
    &&& r * r <= n
    &&& n < (r + 1) * (r + 1)
}

/// The integer square root of `n`, rounded down; pinned to a single value by
/// `lemma_isqrt_exists` and `lemma_isqrt_unique`.
pub open spec fn sqrt_floor(n: int) -> int {
    choose|r: int| is_isqrt(n, r)
}

/// The integer square root of `n`, rounded up. Normalizing a velocity by
/// this — rather than by the rounded-down root — keeps the speed from ever
/// exceeding its nominal value.
pub open spec fn sqrt_ceil(n: int) -> int {
    if sqrt_floor(n) * sqrt_floor(n) == n {
        sqrt_floor(n)
    } else {
        sqrt_floor(n) + 1
    }
}

/// A square is never negative.
pub proof fn lemma_sq_nonneg(x: int)
    by (nonlinear_arith)
    ensures
        sq(x) >= 0,
{
}

/// Every non-negative integer has an integer square root, and `sqrt_floor`
/// denotes it.
pub proof fn lemma_isqrt_exists(n: int)
    requires
        n >= 0,
    ensures
        is_isqrt(n, sqrt_floor(n)),
    decreases n,
{
    if n == 0 {
        assert(is_isqrt(0, 0));
    } else {
        lemma_isqrt_exists(n - 1);
        let r = sqrt_floor(n - 1);
        if (r + 1) * (r + 1) <= n {
            assert(is_isqrt(n, r + 1)) by (nonlinear_arith)
                requires
                    0 <= r,
                    r * r <= n - 1,
                    n - 1 < (r + 1) * (r + 1),
                    (r + 1) * (r + 1) <= n;
        } else {
            assert(is_isqrt(n, r));
        }
    }
    assert(is_isqrt(n, sqrt_floor(n)));
}

/// Two integer square roots of the same number are equal.
pub proof fn lemma_isqrt_unique(n: int, r1: int, r2: int)
    by (nonlinear_arith)
    requires
        is_isqrt(n, r1),
        is_isqrt(n, r2),
    ensures
        r1 == r2,
{
}

/// Integer square root, rounded down, by bisection.
pub fn isqrt(n: u64) -> (r: u64)
    ensures
        is_isqrt(n as int, r as int),
        r == sqrt_floor(n as int),
{
    let mut lo: u64 = 0;
    let mut hi: u64 = 4_294_967_296;
    proof {
        assert((4_294_967_296int) * (4_294_967_296int) == 0x10000000000000000int);
    }
    while lo + 1 < hi
        invariant
            lo < hi <= 4_294_967_296,
            (lo as int) * (lo as int) <= n,
            n < (hi as int) * (hi as int),
        decreases hi - lo,
    {
        let mid = lo + (hi - lo) / 2;
        assert(lo < mid < hi);
        assert((mid as int) * (mid as int) <= u64::MAX) by (nonlinear_arith)
            requires
                mid < 4_294_967_296u64;
        if mid * mid <= n {
            lo = mid;
        } else {
            hi = mid;
        }
    }
    proof {
        assert(is_isqrt(n as int, lo as int));
        lemma_isqrt_exists(n as int);
        lemma_isqrt_unique(n as int, lo as int, sqrt_floor(n as int));
    }
    lo
}

/// Integer square root, rounded up.
pub fn isqrt_ceil(n: u64) -> (r: u64)
    ensures
        r == sqrt_ceil(n as int),
        (r as int) * (r as int) >= n,
        r >= sqrt_floor(n as int),
{
    let d = isqrt(n);
    if d * d == n {
        d
    } else {
        proof {
            assert((d as int) * (d as int) < n);
            assert(d < 4_294_967_296u64) by (nonlinear_arith)
                requires
                    (d as int) * (d as int) <= u64::MAX;
        }
        d + 1
    }
}

} // verus!
