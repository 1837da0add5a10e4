//! The bang-bang difficulty controller and the halving reward schedule.
use vstd::prelude::*;

verus! {

/// Nanoseconds in a second.
pub const SEC_NANOS: u64 = 1_000_000_000;

/// Target block interval, in nanoseconds (five minutes).
pub const BLOCK_TIME: u64 = 300_000_000_000;

/// Hardest difficulty, in leading zero bits.
pub const MAX_DIFFICULTY: u32 = 48;

/// Easiest difficulty, in leading zero bits.
pub const MIN_DIFFICULTY: u32 = 24;

/// Reward for a block mined before the first halving.
pub const BASE_REWARD: u64 = 60_000_000_000;

/// Number of mined blocks between two halvings of the reward.
pub const BLOCK_HALVING: u64 = 17_500;

/// Width of the dead band around the target, in nanoseconds.
pub const DEAD_BAND: u64 = 60_000_000_000;

/// Nanoseconds by which a round ran faster than the target (0 if it did not).
pub open spec fn time_early(solve_time: u64) -> int {
    if BLOCK_TIME > solve_time {
        BLOCK_TIME - solve_time
    } else {
        0
    }
}

/// Nanoseconds by which a round ran slower than the target (0 if it did not).
pub open spec fn time_late(solve_time: u64) -> int {
    if BLOCK_TIME > solve_time {
        0
    } else {
        solve_time - BLOCK_TIME
    }
}

/// The difficulty that follows a round solved in `solve_time` nanoseconds at
/// difficulty `d`: one bit harder when the round beat the target by more than
/// the dead band, one bit easier when it overran it by more, within the bounds.
pub open spec fn retarget_spec(d: u32, solve_time: u64) -> u32 {
    if time_early(solve_time) > DEAD_BAND && d < MAX_DIFFICULTY {
        (d + 1) as u32
    } else if time_late(solve_time) > DEAD_BAND && d > MIN_DIFFICULTY {
        (d - 1) as u32
    } else {
        d
    }
}

/// The difficulty controller, run once after each accepted block.
pub fn retarget(d: u32, solve_time: u64) -> (r: u32)
    ensures
        r == retarget_spec(d, solve_time),
{
    if BLOCK_TIME > solve_time {
        if BLOCK_TIME - solve_time > DEAD_BAND && d < MAX_DIFFICULTY {
            return d + 1;
        }
    } else {
        if solve_time - BLOCK_TIME > DEAD_BAND && d > MIN_DIFFICULTY {
            return d - 1;
        }
    }
    d
}

/// A difficulty within the bounds stays within them after any round; it moves by
/// at most one bit, and only when the solve time missed the target by more than
/// the dead band.
pub proof fn lemma_retarget_bounded(d: u32, solve_time: u64)
    requires
        MIN_DIFFICULTY <= d <= MAX_DIFFICULTY,
    ensures
        MIN_DIFFICULTY <= retarget_spec(d, solve_time) <= MAX_DIFFICULTY,
        d - 1 <= retarget_spec(d, solve_time) <= d + 1,
        retarget_spec(d, solve_time) != d ==> time_early(solve_time) > DEAD_BAND
            || time_late(solve_time) > DEAD_BAND,
{
}

/// `x` halved `k` times, rounding down each time (that is, `x >> k`).
pub open spec fn halved(x: nat, k: nat) -> nat
    decreases k,
{
    if k == 0 {
        x
    } else {
        halved(x, (k - 1) as nat) / 2
    }
}

/// Once a value has been halved down to zero it stays zero.
proof fn lemma_halved_zero(x: nat, i: nat, k: nat)
    requires
        i <= k,
        halved(x, i) == 0,
    ensures
        halved(x, k) == 0,
    decreases k - i,
{
    if i < k {
        lemma_halved_zero(x, i, (k - 1) as nat);
    }
}

/// Reward for the next block after `mined` blocks: the base reward shifted right
/// once per completed halving period.
pub open spec fn reward_spec(mined: u64) -> nat {
    halved(BASE_REWARD as nat, (mined / BLOCK_HALVING) as nat)
}

/// The block reward after `mined` mined blocks.
pub fn block_reward(mined: u64) -> (r: u64)
    ensures
        r == reward_spec(mined),
{
    let k = mined / BLOCK_HALVING;
    let mut r: u64 = BASE_REWARD;
    let mut i: u64 = 0;
    while i < k && r > 0
        invariant
            i <= k,
            r as nat == halved(BASE_REWARD as nat, i as nat),
        decreases k - i,
    {
        r = r / 2;
        i = i + 1;
    }
    proof {
        if i < k {
            lemma_halved_zero(BASE_REWARD as nat, i as nat, k as nat);
        }
    }
    r
}

/// Blocks still to be mined before the reward next halves.
pub fn blocks_to_next_halving(mined: u64) -> (r: u64)
    ensures
        r == BLOCK_HALVING - mined % BLOCK_HALVING,
        1 <= r <= BLOCK_HALVING,
{
    BLOCK_HALVING - mined % BLOCK_HALVING
}

} // verus!
