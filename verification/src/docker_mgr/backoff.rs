//! The wait between two polls of the container runtime: short right after a
//! transition, then half as long again after every poll, up to a ceiling.

use vstd::prelude::*;

verus! {

/// The shortest wait between two polls: 125 ms, in nanoseconds.
pub const POLL_MIN_NANOS: u64 = 125_000_000;

/// The longest wait between two polls: 5 s, in nanoseconds.
pub const POLL_MAX_NANOS: u64 = 5_000_000_000;

/// Holds of a wait that lies between the floor and the ceiling.
pub open spec fn within_bounds(period: nat) -> bool {
    POLL_MIN_NANOS <= period <= POLL_MAX_NANOS
}

/// The wait that follows `period`: one and a half times as long, rounded
/// down to the nanosecond and cut off at the ceiling. A wait at or above the
/// ceiling stays as it is.
pub open spec fn grown(period: nat) -> nat {
    if period < POLL_MAX_NANOS {
        if period * 3 / 2 < POLL_MAX_NANOS {
            period * 3 / 2
        } else {
            POLL_MAX_NANOS as nat
        }
    } else {
        period
    }
}

/// The wait after `polls` polls in a row that brought no transition.
pub open spec fn grown_times(period: nat, polls: nat) -> nat
    decreases polls,
{
    if polls == 0 {
        period
    } else {
        grown(grown_times(period, (polls - 1) as nat))
    }
}

/// Lengthens the wait between two polls.
pub fn grow(period: u64) -> (next: u64)
    ensures
        next == grown(period as nat),
{
    if period < POLL_MAX_NANOS {
        let longer: u64 = period + period / 2;
        if longer < POLL_MAX_NANOS {
            longer
        } else {
            POLL_MAX_NANOS
        }
    } else {
        period
    }
}

/// A wait within the bounds stays within them when it grows, and never
/// gets shorter.
pub proof fn grown_stays_within_bounds(period: nat)
    requires
        within_bounds(period),
    ensures
        within_bounds(grown(period)),
        period <= grown(period),
{
}

/// A longer wait grows into a wait that is no shorter.
pub proof fn grown_is_monotone(shorter: nat, longer: nat)
    requires
        shorter <= longer,
    ensures
        grown(shorter) <= grown(longer),
{
}

/// Ten polls in a row without a transition bring any wait within the bounds
/// to the ceiling, and there it stays.
pub proof fn ceiling_is_reached(period: nat, polls: nat)
    requires
        within_bounds(period),
        polls >= 10,
    ensures
        grown_times(period, polls) == POLL_MAX_NANOS,
    decreases polls,
{
    if polls == 10 {
        lemma_from_the_floor();
        lemma_grown_times_is_monotone(POLL_MIN_NANOS as nat, period, 10);
        lemma_grown_times_stays_within_bounds(period, 10);
    } else {
        ceiling_is_reached(period, (polls - 1) as nat);
    }
}

/// The waits that follow the floor.
proof fn lemma_from_the_floor()
    ensures
        grown_times(POLL_MIN_NANOS as nat, 10) == POLL_MAX_NANOS,
{
    let floor = POLL_MIN_NANOS as nat;
    assert(grown_times(floor, 0) == 125_000_000);
    assert(grown_times(floor, 1) == 187_500_000);
    assert(grown_times(floor, 2) == 281_250_000);
    assert(grown_times(floor, 3) == 421_875_000);
    assert(grown_times(floor, 4) == 632_812_500);
    assert(grown_times(floor, 5) == 949_218_750);
    assert(grown_times(floor, 6) == 1_423_828_125);
    assert(grown_times(floor, 7) == 2_135_742_187);
    assert(grown_times(floor, 8) == 3_203_613_280);
    assert(grown_times(floor, 9) == 4_805_419_920);
}

/// Growing as often from a longer wait gives a wait that is no shorter.
proof fn lemma_grown_times_is_monotone(shorter: nat, longer: nat, polls: nat)
    requires
        shorter <= longer,
    ensures
        grown_times(shorter, polls) <= grown_times(longer, polls),
    decreases polls,
{
    if polls > 0 {
        lemma_grown_times_is_monotone(shorter, longer, (polls - 1) as nat);
        grown_is_monotone(
            grown_times(shorter, (polls - 1) as nat),
            grown_times(longer, (polls - 1) as nat),
        );
    }
}

/// However often a wait within the bounds grows, it stays within them.
proof fn lemma_grown_times_stays_within_bounds(period: nat, polls: nat)
    requires
        within_bounds(period),
    ensures
        within_bounds(grown_times(period, polls)),
    decreases polls,
{
    if polls > 0 {
        lemma_grown_times_stays_within_bounds(period, (polls - 1) as nat);
        grown_stays_within_bounds(grown_times(period, (polls - 1) as nat));
    }
}

} // verus!
