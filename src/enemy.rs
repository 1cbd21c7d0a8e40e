//! Enemy ships: pursuit of the player, the weapon, and where new ships appear.

use vstd::prelude::*;
use crate::timer::{RepeatingTimer, periods_done, time_left_over};
use crate::space::{
    Position, COORD_LIMIT, NANOS_PER_SECOND, dist_sq, trunc_div, floor_sqrt,
    trunc_div_exec, distance, distance_squared, is_floor_sqrt,
};

verus! {

/// Enemy cruising speed (35 units per second).
pub const ENEMY_SPEED: u64 = 35_000;

/// Distance within which an enemy stops and fires (40 units).
pub const ENEMY_SHOOTING_DISTANCE: u64 = 40_000;

/// Largest frame time the rules accept (1000 seconds).
pub const MAX_FRAME_NS: u64 = 1_000_000_000_000;

/// Largest speed the rules accept (a million units per second).
pub const SPEED_LIMIT: u64 = 1_000_000_000;

/// Speed of an enemy projectile (50 units per second).
pub const PROJECTILE_SPEED: u64 = 50_000;

/// New enemies appear with `x` and `z` in `[-SPAWN_HALF_WIDTH, SPAWN_HALF_WIDTH)` (100 units).
pub const SPAWN_HALF_WIDTH: i64 = 100_000;

/// Period of the enemy spawner (5 seconds).
pub const SPAWN_PERIOD_NS: u64 = 5_000_000_000;

/// Period of the enemy weapon (2 seconds).
pub const FIRE_PERIOD_NS: u64 = 2_000_000_000;

/// Distance covered in `dt` nanoseconds at `speed` thousandths of a unit per second.
pub open spec fn travel(speed: int, dt: int) -> int {
    speed * dt / (NANOS_PER_SECOND as int)
}

/// A projectile: where it is, and its velocity in thousandths of a unit per second.
#[derive(Clone, Copy, Debug, PartialEq, Eq, Structural)]
pub struct Projectile {
    pub position: Position,
    pub velocity: Position,
}

/// The velocity of a projectile fired from `e` at `p`: `PROJECTILE_SPEED`
/// along the direction to the player, or none where the two points coincide.
pub open spec fn aim_velocity(e: Position, p: Position) -> Position {
    let n = dist_sq(e, p);
    if n == 0 {
        Position { x: 0, y: 0, z: 0 }
    } else {
        let dist = floor_sqrt(n);
        Position {
            x: axis_advance(p.x - e.x, PROJECTILE_SPEED as int, dist) as i64,
            y: axis_advance(p.y - e.y, PROJECTILE_SPEED as int, dist) as i64,
            z: axis_advance(p.z - e.z, PROJECTILE_SPEED as int, dist) as i64,
        }
    }
}

/// The projectiles fired in one volley: one from each enemy within `range`
/// of the player, in the order of the enemies.
pub open spec fn volley(enemies: Seq<Position>, p: Position, range: int) -> Seq<Projectile>
    decreases enemies.len(),
{
    if enemies.len() == 0 {
        seq![]
    } else {
        let before = volley(enemies.drop_last(), p, range);
        let e = enemies.last();
        if dist_sq(e, p) <= range * range {
            before.push(Projectile { position: e, velocity: aim_velocity(e, p) })
        } else {
            before
        }
    }
}

/// Distance covered in `dt_ns` nanoseconds at `speed`.
pub fn travel_exec(speed: u64, dt_ns: u64) -> (r: u64)
    requires
        speed <= SPEED_LIMIT,
        dt_ns <= MAX_FRAME_NS,
    ensures
        r == travel(speed as int, dt_ns as int),
        r <= COORD_LIMIT,
{
    let (a, b) = (speed as u128, dt_ns as u128);
    assert(a * b <= 1_000_000_000_000_000_000_000) by (nonlinear_arith)
        requires
            a <= 1_000_000_000,
            b <= 1_000_000_000_000,
    ;
    let m: u128 = a * b;
    (m / 1_000_000_000) as u64
}

/// One frame of enemy pursuit at `ENEMY_SPEED`, stopping within
/// `ENEMY_SHOOTING_DISTANCE` of the player.
pub fn enemy_movement(enemy: &Position, player: &Position, dt_ns: u64) -> (r: Position)
    requires
        enemy.in_bounds(),
        player.in_bounds(),
        dt_ns <= MAX_FRAME_NS,
    ensures
        pursued(
            *enemy,
            *player,
            ENEMY_SHOOTING_DISTANCE as int,
            travel(ENEMY_SPEED as int, dt_ns as int),
            r,
        ),
{
    let step = travel_exec(ENEMY_SPEED, dt_ns);
    pursue(enemy, player, ENEMY_SHOOTING_DISTANCE, step)
}

/// The velocity of a projectile fired from `enemy` at `player`.
pub fn aim(enemy: &Position, player: &Position) -> (r: Position)
    requires
        enemy.in_bounds(),
        player.in_bounds(),
    ensures
        r == aim_velocity(*enemy, *player),
{
    let n = distance_squared(enemy, player);
    if n == 0 {
        return Position { x: 0, y: 0, z: 0 };
    }
    let dist = distance(enemy, player);
    let ghost nn = dist_sq(*enemy, *player);
    proof {
        assert(1 <= dist <= 1_000_000_000_000_000) by (nonlinear_arith)
            requires
                is_floor_sqrt(nn, dist as int),
                1 <= nn <= 1_000_000_000_000_000_000_000_000_000,
        ;
    }
    let dx: i128 = player.x as i128 - enemy.x as i128;
    let dy: i128 = player.y as i128 - enemy.y as i128;
    let dz: i128 = player.z as i128 - enemy.z as i128;
    let s: i128 = PROJECTILE_SPEED as i128;
    proof {
        assert(dx * dx >= 0 && dy * dy >= 0 && dz * dz >= 0) by (nonlinear_arith);
        lemma_axis_within(dx as int, dist as int, nn);
        lemma_axis_within(dy as int, dist as int, nn);
        lemma_axis_within(dz as int, dist as int, nn);
        lemma_axis_advance(dx as int, s as int, dist as int);
        lemma_axis_advance(dy as int, s as int, dist as int);
        lemma_axis_advance(dz as int, s as int, dist as int);
        assert(-200_000_000_000_000_000 <= dx * s <= 200_000_000_000_000_000) by (nonlinear_arith)
            requires
                -2_000_000_000_000 <= dx <= 2_000_000_000_000,
                s == 50_000,
        ;
        assert(-200_000_000_000_000_000 <= dy * s <= 200_000_000_000_000_000) by (nonlinear_arith)
            requires
                -2_000_000_000_000 <= dy <= 2_000_000_000_000,
                s == 50_000,
        ;
        assert(-200_000_000_000_000_000 <= dz * s <= 200_000_000_000_000_000) by (nonlinear_arith)
            requires
                -2_000_000_000_000 <= dz <= 2_000_000_000_000,
                s == 50_000,
        ;
    }
    let d: i128 = dist as i128;
    let vx = trunc_div_exec(dx * s, d);
    let vy = trunc_div_exec(dy * s, d);
    let vz = trunc_div_exec(dz * s, d);
    Position { x: vx as i64, y: vy as i64, z: vz as i64 }
}

/// The volley that the enemies fire at the player: one projectile from each
/// enemy within `range`, starting where that enemy stands.
pub fn fire_volley(enemies: &Vec<Position>, player: &Position, range: u64) -> (r: Vec<Projectile>)
    requires
        forall|i: int| 0 <= i < enemies@.len() ==> (#[trigger] enemies@[i]).in_bounds(),
        player.in_bounds(),
    ensures
        r@ == volley(enemies@, *player, range as int),
{
    let mut out: Vec<Projectile> = Vec::new();
    let mut i: usize = 0;
    while i < enemies.len()
        invariant
            i <= enemies@.len(),
            player.in_bounds(),
            forall|j: int| 0 <= j < enemies@.len() ==> (#[trigger] enemies@[j]).in_bounds(),
            out@ == volley(enemies@.take(i as int), *player, range as int),
        decreases enemies@.len() - i,
    {
        proof {
            assert(enemies@.take(i + 1).drop_last() =~= enemies@.take(i as int));
        }
        let e = enemies[i];
        if crate::space::within_range(&e, player, range) {
            let v = aim(&e, player);
            out.push(Projectile { position: e, velocity: v });
        }
        i = i + 1;
    }
    proof {
        assert(enemies@.take(i as int) =~= enemies@);
    }
    out
}

/// One frame of the enemy weapon: the timer advances by `dt_ns`, and for
/// each period completed in that frame the enemies fire one volley, in which
/// every enemy within `ENEMY_SHOOTING_DISTANCE` of the player fires one
/// projectile. The result is the number of volleys and the volley itself;
/// in a frame that completes no period no projectile is listed.
pub fn enemy_shooting(
    timer: &mut RepeatingTimer,
    dt_ns: u64,
    enemies: &Vec<Position>,
    player: &Position,
) -> (r: (u32, Vec<Projectile>))
    requires
        old(timer).wf(),
        periods_done(old(timer).period_ns as int, old(timer).elapsed_ns as int, dt_ns as int)
            <= u32::MAX,
        forall|i: int| 0 <= i < enemies@.len() ==> (#[trigger] enemies@[i]).in_bounds(),
        player.in_bounds(),
    ensures
        final(timer).wf(),
        final(timer).period_ns == old(timer).period_ns,
        final(timer).elapsed_ns == time_left_over(
            old(timer).period_ns as int,
            old(timer).elapsed_ns as int,
            dt_ns as int,
        ),
        r.0 == periods_done(
            old(timer).period_ns as int,
            old(timer).elapsed_ns as int,
            dt_ns as int,
        ),
        r.1@ == if r.0 > 0 {
            volley(enemies@, *player, ENEMY_SHOOTING_DISTANCE as int)
        } else {
            Seq::<Projectile>::empty()
        },
{
    let volleys = timer.tick(dt_ns);
    if volleys > 0 {
        (volleys, fire_volley(enemies, player, ENEMY_SHOOTING_DISTANCE))
    } else {
        (0, Vec::new())
    }
}

/// Relies on rand's `Rng::gen_range` on a half-open integer range, drawn from
/// `thread_rng`: the value lies in the range.
#[verifier::external_body]
fn random_in(lo: i64, hi: i64) -> (r: i64)
    requires
        lo < hi,
    ensures
        lo <= r < hi,
{
    rand::Rng::gen_range(&mut rand::thread_rng(), lo..hi)
}

/// A place for a new enemy: `y` is zero, `x` and `z` are drawn from
/// `[-SPAWN_HALF_WIDTH, SPAWN_HALF_WIDTH)`.
pub fn spawn_position() -> (r: Position)
    ensures
        -SPAWN_HALF_WIDTH <= r.x < SPAWN_HALF_WIDTH,
        r.y == 0,
        -SPAWN_HALF_WIDTH <= r.z < SPAWN_HALF_WIDTH,
{
    let x = random_in(-SPAWN_HALF_WIDTH, SPAWN_HALF_WIDTH);
    let z = random_in(-SPAWN_HALF_WIDTH, SPAWN_HALF_WIDTH);
    Position { x, y: 0, z }
}

/// One frame of the enemy spawner: the timer advances by `dt_ns`, and one
/// new enemy is placed for each period completed in that frame.
pub fn enemy_spawner(timer: &mut RepeatingTimer, dt_ns: u64) -> (r: Vec<Position>)
    requires
        old(timer).wf(),
        periods_done(old(timer).period_ns as int, old(timer).elapsed_ns as int, dt_ns as int)
            <= u32::MAX,
    ensures
        final(timer).wf(),
        final(timer).period_ns == old(timer).period_ns,
        final(timer).elapsed_ns == time_left_over(
            old(timer).period_ns as int,
            old(timer).elapsed_ns as int,
            dt_ns as int,
        ),
        r@.len() == periods_done(
            old(timer).period_ns as int,
            old(timer).elapsed_ns as int,
            dt_ns as int,
        ),
        forall|i: int|
            0 <= i < r@.len() ==> {
                &&& -SPAWN_HALF_WIDTH <= (#[trigger] r@[i]).x < SPAWN_HALF_WIDTH
                &&& r@[i].y == 0
                &&& -SPAWN_HALF_WIDTH <= r@[i].z < SPAWN_HALF_WIDTH
            },
{
    let count = timer.tick(dt_ns);
    let mut out: Vec<Position> = Vec::new();
    let mut i: u32 = 0;
    while i < count
        invariant
            i <= count,
            out@.len() == i,
            forall|j: int|
                0 <= j < out@.len() ==> {
                    &&& -SPAWN_HALF_WIDTH <= (#[trigger] out@[j]).x < SPAWN_HALF_WIDTH
                    &&& out@[j].y == 0
                    &&& -SPAWN_HALF_WIDTH <= out@[j].z < SPAWN_HALF_WIDTH
                },
        decreases count - i,
    {
        out.push(spawn_position());
        i = i + 1;
    }
    out
}

/// How far one coordinate moves when a point travels `step` toward a target
/// that lies `d` away on that axis and `dist` away in all.
pub open spec fn axis_advance(d: int, step: int, dist: int) -> int {
    trunc_div(d * step, dist)
}

/// `r` is where an enemy at `e` stands after one frame of travel `step` toward
/// a player at `p`: it stays put within `range`, and beyond it moves along the
/// direction to the player.
pub open spec fn pursued(e: Position, p: Position, range: int, step: int, r: Position) -> bool {
    if dist_sq(e, p) <= range * range {
        r == e
    } else {
        let dist = floor_sqrt(dist_sq(e, p));
        &&& r.x == e.x + axis_advance(p.x - e.x, step, dist)
        &&& r.y == e.y + axis_advance(p.y - e.y, step, dist)
        &&& r.z == e.z + axis_advance(p.z - e.z, step, dist)
    }
}

proof fn lemma_axis_within(d: int, dist: int, n: int)
    requires
        is_floor_sqrt(n, dist),
        d * d <= n,
    ensures
        -dist <= d <= dist,
{
    if d > dist {
        assert((dist + 1) * (dist + 1) <= d * d) by (nonlinear_arith)
            requires
                0 <= dist,
                dist + 1 <= d,
        ;
    } else if d < -dist {
        assert((dist + 1) * (dist + 1) <= d * d) by (nonlinear_arith)
            requires
                0 <= dist,
                d <= -(dist + 1),
        ;
    }
}

/// One axis of a move toward the target never overshoots it when the travel
/// is no longer than the distance, and never exceeds the travel.
proof fn lemma_axis_advance(d: int, step: int, dist: int)
    requires
        dist > 0,
        step >= 0,
        -dist <= d <= dist,
    ensures
        -step <= axis_advance(d, step, dist) <= step,
        d >= 0 ==> 0 <= axis_advance(d, step, dist),
        d <= 0 ==> axis_advance(d, step, dist) <= 0,
        step <= dist && d >= 0 ==> axis_advance(d, step, dist) <= d,
        step <= dist && d <= 0 ==> d <= axis_advance(d, step, dist),
{
    let a = if d >= 0 { d } else { -d };
    assert(0 <= a * step <= dist * step) by (nonlinear_arith)
        requires
            0 <= a <= dist,
            step >= 0,
    ;
    vstd::arithmetic::div_mod::lemma_div_is_ordered(a * step, dist * step, dist);
    vstd::arithmetic::div_mod::lemma_div_multiples_vanish(step, dist);
    vstd::arithmetic::div_mod::lemma_div_pos_is_pos(a * step, dist);
    assert(dist * step == step * dist) by (nonlinear_arith);
    if step <= dist {
        assert(a * step <= a * dist) by (nonlinear_arith)
            requires
                0 <= a,
                step <= dist,
        ;
        vstd::arithmetic::div_mod::lemma_div_is_ordered(a * step, a * dist, dist);
        vstd::arithmetic::div_mod::lemma_div_multiples_vanish(a, dist);
        assert(a * dist == dist * a) by (nonlinear_arith);
    }
    if d < 0 {
        assert(-(d * step) == a * step) by (nonlinear_arith)
            requires
                a == -d,
        ;
    } else if d == 0 {
        assert(d * step == 0) by (nonlinear_arith)
            requires
                d == 0,
        ;
        vstd::arithmetic::div_mod::lemma_div_of0(dist);
    }
}

/// Moves an enemy at `enemy` toward the player at `player` by `step`, unless
/// it is already within `range` of the player.
pub fn pursue(enemy: &Position, player: &Position, range: u64, step: u64) -> (r: Position)
    requires
        enemy.in_bounds(),
        player.in_bounds(),
        step <= COORD_LIMIT,
    ensures
        pursued(*enemy, *player, range as int, step as int, r),
        r.within(2 * COORD_LIMIT),
{
    let rr = range as u128;
    assert(rr * rr <= u64::MAX * u64::MAX) by (nonlinear_arith)
        requires
            rr <= u64::MAX,
    ;
    let n = distance_squared(enemy, player);
    if n <= rr * rr {
        return *enemy;
    }
    let dist = distance(enemy, player);
    let ghost nn = dist_sq(*enemy, *player);
    proof {
        assert(1 <= dist <= 1_000_000_000_000_000) by (nonlinear_arith)
            requires
                is_floor_sqrt(nn, dist as int),
                1 <= nn <= 1_000_000_000_000_000_000_000_000_000,
        ;
    }
    let dx: i128 = player.x as i128 - enemy.x as i128;
    let dy: i128 = player.y as i128 - enemy.y as i128;
    let dz: i128 = player.z as i128 - enemy.z as i128;
    proof {
        assert(dx * dx >= 0 && dy * dy >= 0 && dz * dz >= 0) by (nonlinear_arith);
        lemma_axis_within(dx as int, dist as int, nn);
        lemma_axis_within(dy as int, dist as int, nn);
        lemma_axis_within(dz as int, dist as int, nn);
        lemma_axis_advance(dx as int, step as int, dist as int);
        lemma_axis_advance(dy as int, step as int, dist as int);
        lemma_axis_advance(dz as int, step as int, dist as int);
    }
    let s: i128 = step as i128;
    let d: i128 = dist as i128;
    assert(-8_000_000_000_000_000_000_000_000 <= dx * s <= 8_000_000_000_000_000_000_000_000)
        by (nonlinear_arith)
        requires
            -2_000_000_000_000 <= dx <= 2_000_000_000_000,
            0 <= s <= 1_000_000_000_000,
    ;
    assert(-8_000_000_000_000_000_000_000_000 <= dy * s <= 8_000_000_000_000_000_000_000_000)
        by (nonlinear_arith)
        requires
            -2_000_000_000_000 <= dy <= 2_000_000_000_000,
            0 <= s <= 1_000_000_000_000,
    ;
    assert(-8_000_000_000_000_000_000_000_000 <= dz * s <= 8_000_000_000_000_000_000_000_000)
        by (nonlinear_arith)
        requires
            -2_000_000_000_000 <= dz <= 2_000_000_000_000,
            0 <= s <= 1_000_000_000_000,
    ;
    let ax = trunc_div_exec(dx * s, d);
    let ay = trunc_div_exec(dy * s, d);
    let az = trunc_div_exec(dz * s, d);
    Position {
        x: (enemy.x as i128 + ax) as i64,
        y: (enemy.y as i128 + ay) as i64,
        z: (enemy.z as i128 + az) as i64,
    }
}

/// An enemy within shooting range of the player holds its position. One
/// beyond it moves toward the player: when a frame's travel is no longer than
/// the distance, it comes no farther from the player on any axis, so the
/// distance does not grow; and with a travel of two thousandths of a unit or
/// more it strictly closes in.
pub proof fn lemma_pursuit_cutoff(e: Position, p: Position, range: int, step: int, r: Position)
    requires
        range >= 0,
        step >= 0,
        pursued(e, p, range, step, r),
    ensures
        dist_sq(e, p) <= range * range ==> r == e,
        dist_sq(e, p) > range * range && step <= floor_sqrt(dist_sq(e, p)) ==> {
            &&& (p.x - r.x) * (p.x - r.x) <= (p.x - e.x) * (p.x - e.x)
            &&& (p.y - r.y) * (p.y - r.y) <= (p.y - e.y) * (p.y - e.y)
            &&& (p.z - r.z) * (p.z - r.z) <= (p.z - e.z) * (p.z - e.z)
            &&& dist_sq(r, p) <= dist_sq(e, p)
        },
        dist_sq(e, p) > range * range && 2 <= step <= floor_sqrt(dist_sq(e, p)) ==> dist_sq(r, p)
            < dist_sq(e, p),
{
    let n = dist_sq(e, p);
    if n > range * range && step <= floor_sqrt(n) {
        assert(range * range >= 0) by (nonlinear_arith);
        let dist = floor_sqrt(n);
        assert(exists|c: int| #[trigger] is_floor_sqrt(n, c)) by {
            lemma_sqrt_exists(n);
        }
        assert(is_floor_sqrt(n, dist));
        let (dx, dy, dz) = (p.x - e.x, p.y - e.y, p.z - e.z);
        assert(dx * dx >= 0 && dy * dy >= 0 && dz * dz >= 0) by (nonlinear_arith);
        assert(dist > 0) by (nonlinear_arith)
            requires
                is_floor_sqrt(n, dist),
                n >= 1,
        ;
        lemma_axis_within(dx, dist, n);
        lemma_axis_within(dy, dist, n);
        lemma_axis_within(dz, dist, n);
        lemma_axis_closes(dx, step, dist);
        lemma_axis_closes(dy, step, dist);
        lemma_axis_closes(dz, step, dist);
        assert(dist_sq(r, p) == (p.x - r.x) * (p.x - r.x) + (p.y - r.y) * (p.y - r.y) + (p.z
            - r.z) * (p.z - r.z)) by (nonlinear_arith);
        if step >= 2 {
            assert(n >= dist * dist);
            if 3 * (dx * dx) >= n {
                lemma_axis_strict(dx, step, dist, n);
            } else if 3 * (dy * dy) >= n {
                lemma_axis_strict(dy, step, dist, n);
            } else {
                lemma_axis_strict(dz, step, dist, n);
            }
        }
    }
}

/// On an axis that carries at least a third of the squared distance, a
/// travel of two or more moves the point strictly closer.
proof fn lemma_axis_strict(d: int, step: int, dist: int, n: int)
    requires
        dist > 0,
        2 <= step <= dist,
        -dist <= d <= dist,
        3 * (d * d) >= n,
        n >= dist * dist,
    ensures
        (d - axis_advance(d, step, dist)) * (d - axis_advance(d, step, dist)) < d * d,
{
    lemma_axis_advance(d, step, dist);
    let m = if d >= 0 { d } else { -d };
    assert(m * m == d * d) by (nonlinear_arith)
        requires
            m == d || m == -d,
    ;
    assert(2 * m > dist) by (nonlinear_arith)
        requires
            0 <= m,
            dist > 0,
            3 * (m * m) >= dist * dist,
    ;
    assert(m * step >= dist) by (nonlinear_arith)
        requires
            2 * m > dist,
            step >= 2,
            m >= 0,
    ;
    vstd::arithmetic::div_mod::lemma_div_is_ordered(dist, m * step, dist);
    vstd::arithmetic::div_mod::lemma_div_by_self(dist);
    let a = axis_advance(d, step, dist);
    if d < 0 {
        assert(-(d * step) == m * step) by (nonlinear_arith)
            requires
                m == -d,
        ;
    }
    assert((d - a) * (d - a) < d * d) by (nonlinear_arith)
        requires
            d >= 0 ==> 1 <= a <= d,
            d < 0 ==> d <= a <= -1,
    ;
}

proof fn lemma_axis_closes(d: int, step: int, dist: int)
    requires
        dist > 0,
        0 <= step <= dist,
        -dist <= d <= dist,
    ensures
        (d - axis_advance(d, step, dist)) * (d - axis_advance(d, step, dist)) <= d * d,
{
    lemma_axis_advance(d, step, dist);
    let a = axis_advance(d, step, dist);
    assert((d - a) * (d - a) <= d * d) by (nonlinear_arith)
        requires
            d >= 0 ==> 0 <= a <= d,
            d <= 0 ==> d <= a <= 0,
    ;
}

/// Every non-negative number has a square root rounded down.
proof fn lemma_sqrt_exists(n: int)
    requires
        n >= 0,
    ensures
        exists|c: int| #[trigger] is_floor_sqrt(n, c),
    decreases n,
{
    if n == 0 {
        assert(is_floor_sqrt(0, 0));
    } else {
        lemma_sqrt_exists(n - 1);
        let c = choose|c: int| #[trigger] is_floor_sqrt(n - 1, c);
        if n < (c + 1) * (c + 1) {
            assert(is_floor_sqrt(n, c));
        } else {
            assert(is_floor_sqrt(n, c + 1)) by (nonlinear_arith)
                requires
                    0 <= c,
                    n == (c + 1) * (c + 1),
            ;
        }
    }
}

} // verus!
