//! Geometry over fixed-point coordinates.
//!
//! A coordinate is an `i64` in thousandths of a unit, so the text forms used
//! by the problem files (three decimal places) are exact. Distances are the
//! floor of the Euclidean norm, also in thousandths.

use vstd::prelude::*;

verus! {

/// Largest coordinate magnitude the library accepts, in thousandths.
/// Keeps every squared-distance sum inside `u64`.
pub const MAX_COORD: i64 = 1_000_000_000;

/// A position in three-dimensional space, each axis in thousandths of a unit.
#[derive(Clone, Copy, PartialEq, Eq, Structural, Debug)]
pub struct Point {
    pub x: i64,
    pub y: i64,
    pub z: i64,
}

impl Point {
    /// Every axis within the coordinate bound.
    pub open spec fn valid(self) -> bool {
        -MAX_COORD <= self.x <= MAX_COORD
        && -MAX_COORD <= self.y <= MAX_COORD
        && -MAX_COORD <= self.z <= MAX_COORD
    }

    pub fn origin() -> (p: Point)
        ensures
            p == (Point { x: 0, y: 0, z: 0 }),
            p.valid(),
    {
        Point { x: 0, y: 0, z: 0 }
    }
}

/// The square of the Euclidean distance between `a` and `b`.
pub open spec fn dist_sq(a: Point, b: Point) -> int {
    (a.x - b.x) * (a.x - b.x) + (a.y - b.y) * (a.y - b.y) + (a.z - b.z) * (a.z - b.z)
}

/// Floor of the square root of `n`, as a recurrence.
pub open spec fn sqrt_floor(n: nat) -> nat
    decreases n,
{
    if n == 0 {
        0
    } else {
        let s = sqrt_floor((n - 1) as nat);
        if (s + 1) * (s + 1) <= n {
            s + 1
        } else {
            s
        }
    }
}

/// `r` is the floor of the square root of `n`.
pub open spec fn is_sqrt_floor(n: nat, r: nat) -> bool {
    r * r <= n < (r + 1) * (r + 1)
}

/// `sqrt_floor` satisfies its characterisation.
pub proof fn lemma_sqrt_floor_correct(n: nat)
    ensures
        is_sqrt_floor(n, sqrt_floor(n)),
    decreases n,
{
    if n == 0 {
        assert(sqrt_floor(0) == 0);
        assert(0 * 0 <= 0 < (0 + 1) * (0 + 1)) by (nonlinear_arith);
        assert(is_sqrt_floor(0, 0));
    } else {
        lemma_sqrt_floor_correct((n - 1) as nat);
        let s = sqrt_floor((n - 1) as nat);
        assert(is_sqrt_floor((n - 1) as nat, s));
        assert((s + 1) * (s + 1) < (s + 2) * (s + 2)) by (nonlinear_arith);
        if (s + 1) * (s + 1) <= n {
            assert(sqrt_floor(n) == s + 1);
            assert(n - 1 < (s + 1) * (s + 1));
            assert(n < (s + 1) * (s + 1) + 1);
            assert(is_sqrt_floor(n, (s + 1) as nat));
        } else {
            assert(sqrt_floor(n) == s);
            assert(is_sqrt_floor(n, s));
        }
    }
}

/// The floor square root of `n` is unique.
pub proof fn lemma_sqrt_floor_unique(n: nat, r1: nat, r2: nat)
    requires
        is_sqrt_floor(n, r1),
        is_sqrt_floor(n, r2),
    ensures
        r1 == r2,
{
    if r1 < r2 {
        assert((r1 + 1) * (r1 + 1) <= r2 * r2) by (nonlinear_arith)
            requires r1 + 1 <= r2,
        ;
    }
    if r2 < r1 {
        assert((r2 + 1) * (r2 + 1) <= r1 * r1) by (nonlinear_arith)
            requires r2 + 1 <= r1,
        ;
    }
}

/// Floor of the square root, by binary search.
pub fn isqrt(n: u64) -> (r: u64)
    ensures
        r == sqrt_floor(n as nat),
        is_sqrt_floor(n as nat, r as nat),
{
    let mut lo: u64 = 0;
    let mut hi: u64 = 4_294_967_296;
    proof {
        assert((hi * hi) as int > u64::MAX as int) by (nonlinear_arith)
            requires hi == 4_294_967_296u64,
        ;
    }
    while lo + 1 < hi
        invariant
            lo < hi <= 4_294_967_296,
            (lo * lo) as int <= n as int,
            (hi * hi) as int > n as int,
        decreases hi - lo,
    {
        let mid = lo + (hi - lo) / 2;
        proof {
            assert(lo < mid < hi);
            assert(mid * mid <= u64::MAX) by (nonlinear_arith)
                requires mid <= 4_294_967_295u64,
            ;
        }
        if mid * mid <= n {
            lo = mid;
        } else {
            hi = mid;
        }
    }
    proof {
        lemma_sqrt_floor_correct(n as nat);
        lemma_sqrt_floor_unique(n as nat, lo as nat, sqrt_floor(n as nat));
    }
    lo
}

/// Distance between two points: floor of the Euclidean norm, in thousandths.
pub open spec fn spec_distance(a: Point, b: Point) -> nat {
    sqrt_floor(dist_sq(a, b) as nat)
}

/// Calculates the distance between two points in three-dimensional space.
pub fn distance_3d(a: Point, b: Point) -> (d: u64)
    requires
        a.valid(),
        b.valid(),
    ensures
        d == spec_distance(a, b),
{
    let dx = a.x - b.x;
    let dy = a.y - b.y;
    let dz = a.z - b.z;
    proof {
        lemma_abs_sq_bound(dx as int);
        lemma_abs_sq_bound(dy as int);
        lemma_abs_sq_bound(dz as int);
    }
    let sx = (dx * dx) as u64;
    let sy = (dy * dy) as u64;
    let sz = (dz * dz) as u64;
    isqrt(sx + sy + sz)
}

/// For `|v| <= 2 * MAX_COORD`, the square of `v` fits well under a third of `u64::MAX`.
proof fn lemma_abs_sq_bound(v: int)
    requires
        -2 * MAX_COORD <= v <= 2 * MAX_COORD,
    ensures
        0 <= v * v <= 4_000_000_000_000_000_000,
{
    assert(0 <= v * v <= 4_000_000_000_000_000_000) by (nonlinear_arith)
        requires -2_000_000_000 <= v <= 2_000_000_000,
    ;
}

/// Calculates the distance between a point and the origin.
pub fn distance_to_origin(a: Point) -> (d: u64)
    requires
        a.valid(),
    ensures
        d == spec_distance(a, Point { x: 0, y: 0, z: 0 }),
{
    distance_3d(a, Point { x: 0, y: 0, z: 0 })
}

} // verus!
