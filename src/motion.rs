//! Straight-line motion: the player flying forward, projectiles in flight.

use vstd::prelude::*;
use crate::enemy::{Projectile, MAX_FRAME_NS, SPEED_LIMIT};
use crate::space::{
    Position, COORD_LIMIT, MILLI, NANOS_PER_SECOND, dist_sq, trunc_div, trunc_div_exec,
    distance_squared,
};
use crate::speed::MAX_SPEED;

verus! {

/// Projectiles farther than this from the origin are removed (200 units).
pub const DESPAWN_DISTANCE: u64 = 200_000;

/// How far one coordinate moves in `dt` nanoseconds at velocity `v`.
pub open spec fn axis_displacement(v: int, dt: int) -> int {
    trunc_div(v * dt, NANOS_PER_SECOND as int)
}

/// Where a point at `p` with velocity `v` is after `dt` nanoseconds.
pub open spec fn moved(p: Position, v: Position, dt: int) -> Position {
    Position {
        x: (p.x as int + axis_displacement(v.x as int, dt)) as i64,
        y: (p.y as int + axis_displacement(v.y as int, dt)) as i64,
        z: (p.z as int + axis_displacement(v.z as int, dt)) as i64,
    }
}

/// A projectile after one frame: moved by its velocity, and gone (`None`)
/// once it lies farther than `DESPAWN_DISTANCE` from the origin.
pub open spec fn projectile_after(p: Projectile, dt: int) -> Option<Projectile> {
    let q = moved(p.position, p.velocity, dt);
    if dist_sq(Position { x: 0, y: 0, z: 0 }, q) > DESPAWN_DISTANCE * DESPAWN_DISTANCE {
        None
    } else {
        Some(Projectile { position: q, velocity: p.velocity })
    }
}

/// How far the player moves along one axis of its unit forward vector `f`
/// (in thousandths) at `speed` in `dt` nanoseconds.
pub open spec fn forward_displacement(f: int, speed: int, dt: int) -> int {
    trunc_div(f * speed * dt, MILLI * NANOS_PER_SECOND)
}

/// One axis of motion over one frame.
fn displacement(v: i64, dt_ns: u64) -> (r: i64)
    requires
        -(SPEED_LIMIT as int) <= v <= SPEED_LIMIT,
        dt_ns <= MAX_FRAME_NS,
    ensures
        r == axis_displacement(v as int, dt_ns as int),
        -COORD_LIMIT <= r <= COORD_LIMIT,
{
    let (a, b) = (v as i128, dt_ns as i128);
    assert(-1_000_000_000_000_000_000_000 <= a * b <= 1_000_000_000_000_000_000_000)
        by (nonlinear_arith)
        requires
            -1_000_000_000 <= a <= 1_000_000_000,
            0 <= b <= 1_000_000_000_000,
    ;
    let r = trunc_div_exec(a * b, 1_000_000_000);
    proof {
        let n = a * b;
        if n >= 0 {
            vstd::arithmetic::div_mod::lemma_div_is_ordered(n as int, 1_000_000_000_000_000_000_000, 1_000_000_000);
            vstd::arithmetic::div_mod::lemma_div_pos_is_pos(n as int, 1_000_000_000);
        } else {
            vstd::arithmetic::div_mod::lemma_div_is_ordered(-n, 1_000_000_000_000_000_000_000, 1_000_000_000);
            vstd::arithmetic::div_mod::lemma_div_pos_is_pos(-n, 1_000_000_000);
        }
    }
    r as i64
}

/// One frame of a projectile in flight: it moves by its velocity, and is
/// removed (`None`) once it lies farther than `DESPAWN_DISTANCE` from the origin.
pub fn enemy_projectile_movement(p: &Projectile, dt_ns: u64) -> (r: Option<Projectile>)
    requires
        p.position.in_bounds(),
        p.velocity.within(SPEED_LIMIT as int),
        dt_ns <= MAX_FRAME_NS,
    ensures
        r == projectile_after(*p, dt_ns as int),
{
    let dx = displacement(p.velocity.x, dt_ns);
    let dy = displacement(p.velocity.y, dt_ns);
    let dz = displacement(p.velocity.z, dt_ns);
    let q = Position { x: p.position.x + dx, y: p.position.y + dy, z: p.position.z + dz };
    let o = Position { x: 0, y: 0, z: 0 };
    let lim: u128 = 40_000_000_000;
    assert(lim == DESPAWN_DISTANCE * DESPAWN_DISTANCE);
    if distance_squared(&o, &q) > lim {
        None
    } else {
        Some(Projectile { position: q, velocity: p.velocity })
    }
}

/// A projectile at rest is removed by one frame of motion exactly when it
/// lies farther than `DESPAWN_DISTANCE` from the origin, and kept otherwise;
/// a moving one, exactly when it lies that far once moved.
pub proof fn lemma_projectile_despawn(p: Projectile, dt: int)
    requires
        p.position.in_bounds(),
        p.velocity.within(SPEED_LIMIT as int),
        0 <= dt <= MAX_FRAME_NS,
    ensures
        projectile_after(p, dt).is_none() == (dist_sq(
            Position { x: 0, y: 0, z: 0 },
            moved(p.position, p.velocity, dt),
        ) > DESPAWN_DISTANCE * DESPAWN_DISTANCE),
        p.velocity == (Position { x: 0, y: 0, z: 0 }) ==> {
            &&& moved(p.position, p.velocity, dt) == p.position
            &&& projectile_after(p, dt).is_none() == (dist_sq(Position { x: 0, y: 0, z: 0 }, p.position)
                > DESPAWN_DISTANCE * DESPAWN_DISTANCE)
        },
{
    if p.velocity == (Position { x: 0, y: 0, z: 0 }) {
        assert(0 * dt == 0) by (nonlinear_arith);
        vstd::arithmetic::div_mod::lemma_div_of0(NANOS_PER_SECOND as int);
        assert(moved(p.position, p.velocity, dt) == p.position);
    }
}

/// One frame of player motion: with the forward key held, the player moves
/// along its unit forward vector `forward` (in thousandths) at `speed`;
/// otherwise it stays where it is.
pub fn player_movement(
    position: &Position,
    forward: &Position,
    speed: u64,
    dt_ns: u64,
    forward_held: bool,
) -> (r: Position)
    requires
        position.in_bounds(),
        forward.within(MILLI as int),
        speed <= MAX_SPEED,
        dt_ns <= MAX_FRAME_NS,
    ensures
        forward_held ==> {
            &&& r.x == position.x + forward_displacement(forward.x as int, speed as int, dt_ns as int)
            &&& r.y == position.y + forward_displacement(forward.y as int, speed as int, dt_ns as int)
            &&& r.z == position.z + forward_displacement(forward.z as int, speed as int, dt_ns as int)
        },
        !forward_held ==> r == *position,
{
    if !forward_held {
        return *position;
    }
    let (s, t) = (speed as i128, dt_ns as i128);
    assert(0 <= s * t <= 100_000_000_000_000_000) by (nonlinear_arith)
        requires
            0 <= s <= 100_000,
            0 <= t <= 1_000_000_000_000,
    ;
    let st = s * t;
    let fx = forward.x as i128;
    let fy = forward.y as i128;
    let fz = forward.z as i128;
    proof {
        assert(-100_000_000_000_000_000_000 <= fx * st <= 100_000_000_000_000_000_000)
            by (nonlinear_arith)
            requires
                -1000 <= fx <= 1000,
                0 <= st <= 100_000_000_000_000_000,
        ;
        assert(-100_000_000_000_000_000_000 <= fy * st <= 100_000_000_000_000_000_000)
            by (nonlinear_arith)
            requires
                -1000 <= fy <= 1000,
                0 <= st <= 100_000_000_000_000_000,
        ;
        assert(-100_000_000_000_000_000_000 <= fz * st <= 100_000_000_000_000_000_000)
            by (nonlinear_arith)
            requires
                -1000 <= fz <= 1000,
                0 <= st <= 100_000_000_000_000_000,
        ;
        assert(fx * st == fx * s * t && fy * st == fy * s * t && fz * st == fz * s * t)
            by (nonlinear_arith)
            requires
                st == s * t,
        ;
    }
    let q: i128 = 1_000_000_000_000;
    let dx = trunc_div_exec(fx * st, q);
    let dy = trunc_div_exec(fy * st, q);
    let dz = trunc_div_exec(fz * st, q);
    proof {
        lemma_small_quotient(fx * st);
        lemma_small_quotient(fy * st);
        lemma_small_quotient(fz * st);
    }
    Position {
        x: (position.x as i128 + dx) as i64,
        y: (position.y as i128 + dy) as i64,
        z: (position.z as i128 + dz) as i64,
    }
}

proof fn lemma_small_quotient(n: int)
    requires
        -100_000_000_000_000_000_000 <= n <= 100_000_000_000_000_000_000,
    ensures
        -100_000_000 <= trunc_div(n, 1_000_000_000_000) <= 100_000_000,
{
    let a = if n >= 0 { n } else { -n };
    vstd::arithmetic::div_mod::lemma_div_is_ordered(a, 100_000_000_000_000_000_000, 1_000_000_000_000);
    vstd::arithmetic::div_mod::lemma_div_pos_is_pos(a, 1_000_000_000_000);
}

} // verus!
