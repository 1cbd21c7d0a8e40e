//! Positions in fixed point, and the distance tests that the enemy rules make.

use vstd::prelude::*;

verus! {

/// Largest coordinate of a position in play (a billion units).
pub const COORD_LIMIT: i64 = 1_000_000_000_000;

/// Largest coordinate that the distance computations accept.
pub const WIDE_LIMIT: i64 = 4_000_000_000_000;

/// Thousandths of a unit in one unit.
pub const MILLI: i128 = 1000;

/// Nanoseconds in one second.
pub const NANOS_PER_SECOND: i128 = 1_000_000_000;

/// A point or a vector in world space, in thousandths of a unit.
#[derive(Clone, Copy, Debug, PartialEq, Eq, Structural)]
pub struct Position {
    pub x: i64,
    pub y: i64,
    pub z: i64,
}

impl Position {
    pub open spec fn within(&self, limit: int) -> bool {
        -limit <= self.x <= limit && -limit <= self.y <= limit && -limit <= self.z <= limit
    }

    pub open spec fn in_bounds(&self) -> bool {
        self.within(COORD_LIMIT as int)
    }

    pub fn new(x: i64, y: i64, z: i64) -> (r: Position)
        ensures
            r.x == x && r.y == y && r.z == z,
    {
        Position { x, y, z }
    }

    pub fn origin() -> (r: Position)
        ensures
            r.x == 0 && r.y == 0 && r.z == 0,
    {
        Position { x: 0, y: 0, z: 0 }
    }
}

/// Squared distance between two points.
pub open spec fn dist_sq(a: Position, b: Position) -> int {
    (b.x - a.x) * (b.x - a.x) + (b.y - a.y) * (b.y - a.y) + (b.z - a.z) * (b.z - a.z)
}

/// Division that rounds toward zero, as integer division does in Rust.
pub open spec fn trunc_div(n: int, d: int) -> int {
    if n >= 0 {
        n / d
    } else {
        -((-n) / d)
    }
}

pub open spec fn is_floor_sqrt(n: int, r: int) -> bool {
    0 <= r && r * r <= n && n < (r + 1) * (r + 1)
}

/// The square root of `n`, rounded down.
pub open spec fn floor_sqrt(n: int) -> int {
    choose|r: int| is_floor_sqrt(n, r)
}

/// Relies on `u128::isqrt`: the square root rounded down.
#[verifier::external_body]
fn isqrt(n: u128) -> (r: u128)
    ensures
        r * r <= n,
        n < (r + 1) * (r + 1),
{
    n.isqrt()
}

/// Any number whose square bounds `n` as the square root rounded down is
/// `floor_sqrt(n)`: the rounded-down root is unique.
pub proof fn lemma_floor_sqrt_unique(n: int, r: int)
    requires
        is_floor_sqrt(n, r),
    ensures
        floor_sqrt(n) == r,
{
    let c = floor_sqrt(n);
    assert(is_floor_sqrt(n, c));
    if c < r {
        assert((c + 1) * (c + 1) <= r * r) by (nonlinear_arith)
            requires
                0 <= c,
                c + 1 <= r,
        ;
    } else if c > r {
        assert((r + 1) * (r + 1) <= c * c) by (nonlinear_arith)
            requires
                0 <= r,
                r + 1 <= c,
        ;
    }
}

pub fn trunc_div_exec(n: i128, d: i128) -> (r: i128)
    requires
        d > 0,
        n > i128::MIN,
    ensures
        r == trunc_div(n as int, d as int),
{
    if n >= 0 {
        n / d
    } else {
        -((-n) / d)
    }
}

/// The squared distance between two points.
pub fn distance_squared(a: &Position, b: &Position) -> (r: u128)
    requires
        a.within(WIDE_LIMIT as int),
        b.within(WIDE_LIMIT as int),
    ensures
        r == dist_sq(*a, *b),
        r <= 200_000_000_000_000_000_000_000_000,
{
    let dx: i128 = b.x as i128 - a.x as i128;
    let dy: i128 = b.y as i128 - a.y as i128;
    let dz: i128 = b.z as i128 - a.z as i128;
    assert(0 <= dx * dx <= 64_000_000_000_000_000_000_000_000) by (nonlinear_arith)
        requires
            -8_000_000_000_000 <= dx <= 8_000_000_000_000,
    ;
    assert(0 <= dy * dy <= 64_000_000_000_000_000_000_000_000) by (nonlinear_arith)
        requires
            -8_000_000_000_000 <= dy <= 8_000_000_000_000,
    ;
    assert(0 <= dz * dz <= 64_000_000_000_000_000_000_000_000) by (nonlinear_arith)
        requires
            -8_000_000_000_000 <= dz <= 8_000_000_000_000,
    ;
    (dx * dx + dy * dy + dz * dz) as u128
}

/// The distance between two points, rounded down.
pub fn distance(a: &Position, b: &Position) -> (r: u128)
    requires
        a.within(WIDE_LIMIT as int),
        b.within(WIDE_LIMIT as int),
    ensures
        r == floor_sqrt(dist_sq(*a, *b)),
        is_floor_sqrt(dist_sq(*a, *b), r as int),
        dist_sq(*a, *b) <= 200_000_000_000_000_000_000_000_000,
{
    let n = distance_squared(a, b);
    let r = isqrt(n);
    proof {
        lemma_floor_sqrt_unique(n as int, r as int);
    }
    r
}

/// Whether `a` lies within `range` of `b`.
pub fn within_range(a: &Position, b: &Position, range: u64) -> (r: bool)
    requires
        a.within(WIDE_LIMIT as int),
        b.within(WIDE_LIMIT as int),
    ensures
        r == (dist_sq(*a, *b) <= range * range),
{
    let rr = range as u128;
    assert(rr * rr <= u64::MAX * u64::MAX) by (nonlinear_arith)
        requires
            rr <= u64::MAX,
    ;
    distance_squared(a, b) <= rr * rr
}

} // verus!
