use bevy::ecs::component::Tick;
use core::time::Duration;
use vstd::prelude::*;

verus! {

/// bevy's ECS change-detection tick, carried as an opaque value.
#[verifier::external_type_specification]
#[verifier::external_body]
pub struct ExTick(Tick);

/// The counter value inside a change-detection tick, as `Tick::get` returns it.
pub uninterp spec fn tick_value(tick: Tick) -> u32;

/// bevy clamps tick ages to this value (`MAX_CHANGE_AGE`).
pub open spec fn max_change_age() -> u32 {
    (u32::MAX - (2 * 518_400_000u32 - 1)) as u32
}

/// Wrapping distance from `from` up to `to`.
pub open spec fn tick_distance(to: u32, from: u32) -> u32 {
    ((to as int - from as int) % 0x1_0000_0000) as u32
}

/// The age of a tick relative to `this_run`, clamped to [`max_change_age`].
pub open spec fn clamped_age(tick: u32, this_run: u32) -> u32 {
    let age = tick_distance(this_run, tick);
    if age < max_change_age() {
        age
    } else {
        max_change_age()
    }
}

/// Whether `tick` is newer than `last_run`, both seen from `this_run`.
pub open spec fn newer_than(tick: u32, last_run: u32, this_run: u32) -> bool {
    clamped_age(last_run, this_run) > clamped_age(tick, this_run)
}

/// Calls `Tick::is_newer_than`.
///
/// Its source compares the wrapping ages of `tick` and `last_run` seen from `this_run`,
/// each clamped to `MAX_CHANGE_AGE`; this contract states that formula over the ticks' values.
#[verifier::external_body]
pub(crate) fn tick_is_newer_than(tick: Tick, last_run: Tick, this_run: Tick) -> (newer: bool)
    ensures
        newer == newer_than(tick_value(tick), tick_value(last_run), tick_value(this_run)),
{
    tick.is_newer_than(last_run, this_run)
}

/// A tick is never newer than itself, whatever the current tick.
pub proof fn lemma_not_newer_than_itself(tick: u32, this_run: u32)
    ensures
        !newer_than(tick, tick, this_run),
{
}

/// Length of a duration in nanoseconds, as `Duration::as_nanos` returns it.
pub uninterp spec fn duration_nanos(duration: Duration) -> u128;

/// Compares two durations with `<`.
///
/// `Duration` orders by length, so the result is the comparison of the nanosecond counts.
#[verifier::external_body]
pub(crate) fn duration_lt(a: &Duration, b: &Duration) -> (less: bool)
    ensures
        less == (duration_nanos(*a) < duration_nanos(*b)),
{
    a < b
}


/// The difference of two nanosecond counts, or zero when `b` is the larger.
pub open spec fn nanos_saturating_sub(a: u128, b: u128) -> u128 {
    if a >= b {
        (a - b) as u128
    } else {
        0
    }
}

/// Calls `Duration::saturating_sub`, which its documentation gives as the difference of the
/// two durations, or zero when `b` is the longer.
#[verifier::external_body]
pub(crate) fn duration_saturating_sub(a: Duration, b: Duration) -> (difference: Duration)
    ensures
        duration_nanos(difference) == nanos_saturating_sub(duration_nanos(a), duration_nanos(b)),
{
    a.saturating_sub(b)
}

} // verus!
