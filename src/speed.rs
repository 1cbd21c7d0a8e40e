//! Player speed, changed by the scroll wheel, and the camera height that follows it.

use vstd::prelude::*;

verus! {

/// How much one scroll tick changes the speed (2.5 units per second).
pub const SPEED_STEP: u64 = 2500;

/// The highest speed a player may reach (100 units per second).
pub const MAX_SPEED: u64 = 100_000;

/// The speed a player starts with (5 units per second).
pub const START_SPEED: u64 = 5000;

/// Camera height above the player at speed zero (100 units).
pub const CAMERA_BASE_HEIGHT: u64 = 100_000;

/// One scroll-wheel event, by the sign of its vertical delta.
#[derive(Clone, Copy, Debug, PartialEq, Eq, Structural)]
pub enum Scroll {
    /// A positive delta: slows the player down.
    Up,
    /// A negative delta: speeds the player up.
    Down,
    /// A zero delta: leaves the speed as it is, but for the clamp.
    Still,
}

pub open spec fn clamp_speed(v: int) -> int {
    if v < 0 {
        0
    } else if v > MAX_SPEED {
        MAX_SPEED as int
    } else {
        v
    }
}

/// The speed after one scroll event: a step down or up, then clamped to `[0, MAX_SPEED]`.
pub open spec fn speed_after_scroll(speed: int, s: Scroll) -> int {
    match s {
        Scroll::Up => clamp_speed(speed - SPEED_STEP),
        Scroll::Down => clamp_speed(speed + SPEED_STEP),
        Scroll::Still => clamp_speed(speed),
    }
}

/// The speed after a batch of scroll events, applied in order.
pub open spec fn speed_after_scrolls(speed: int, events: Seq<Scroll>) -> int
    decreases events.len(),
{
    if events.len() == 0 {
        speed
    } else {
        speed_after_scroll(speed_after_scrolls(speed, events.drop_last()), events.last())
    }
}

/// Camera height for a speed: `100 + (speed / 5) * 20` units.
pub open spec fn camera_height(speed: int) -> int {
    CAMERA_BASE_HEIGHT + speed * 20 / 5
}

/// Applies one scroll event to the speed.
pub fn apply_scroll(speed: u64, s: Scroll) -> (r: u64)
    ensures
        r == speed_after_scroll(speed as int, s),
{
    match s {
        Scroll::Up => {
            if speed < SPEED_STEP {
                0
            } else if speed - SPEED_STEP > MAX_SPEED {
                MAX_SPEED
            } else {
                speed - SPEED_STEP
            }
        },
        Scroll::Down => {
            if speed >= MAX_SPEED - SPEED_STEP {
                MAX_SPEED
            } else {
                speed + SPEED_STEP
            }
        },
        Scroll::Still => {
            if speed > MAX_SPEED {
                MAX_SPEED
            } else {
                speed
            }
        },
    }
}

/// Applies a frame's batch of scroll events, one after another.
pub fn adjust_player_speed(speed: u64, events: &Vec<Scroll>) -> (r: u64)
    ensures
        r == speed_after_scrolls(speed as int, events@),
{
    let mut cur: u64 = speed;
    let mut i: usize = 0;
    while i < events.len()
        invariant
            i <= events@.len(),
            cur == speed_after_scrolls(speed as int, events@.take(i as int)),
        decreases events@.len() - i,
    {
        proof {
            assert(events@.take(i + 1).drop_last() =~= events@.take(i as int));
        }
        cur = apply_scroll(cur, events[i]);
        i = i + 1;
    }
    proof {
        assert(events@.take(i as int) =~= events@);
    }
    cur
}

/// The camera's height above the player for the player's speed.
pub fn camera_offset(speed: u64) -> (r: u64)
    requires
        speed <= MAX_SPEED,
    ensures
        r == camera_height(speed as int),
{
    CAMERA_BASE_HEIGHT + speed * 20 / 5
}

/// Whatever batch of scroll events comes, the speed stays in `[0, MAX_SPEED]`
/// after each one of them.
pub proof fn lemma_speed_stays_in_range(speed: int, events: Seq<Scroll>)
    requires
        0 <= speed <= MAX_SPEED,
    ensures
        forall|i: int|
            0 <= i <= events.len() ==> 0 <= #[trigger] speed_after_scrolls(speed, events.take(i))
                <= MAX_SPEED,
{
    assert forall|i: int| 0 <= i <= events.len() implies 0 <= #[trigger] speed_after_scrolls(
        speed,
        events.take(i),
    ) <= MAX_SPEED by {
        if i == 0 {
            assert(events.take(0).len() == 0);
        }
    }
}

} // verus!
