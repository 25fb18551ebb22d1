//! The daily sweep of the cache: the states it goes through, and when it
//! runs next.

use vstd::prelude::*;

verus! {

/// The hour of the day, in local time, at which the sweep runs.
pub const CLEANUP_HOUR: u32 = 1;

/// After how many days without access a row is swept away.
pub const STALE_DAYS: i64 = 30;

/// How long to sleep where the time of the next run cannot be told, in
/// microseconds: one hour.
pub const FALLBACK_SLEEP_MICROS: u64 = 3_600_000_000;

/// How long the janitor sleeps before its next sweep.
#[derive(Debug, Clone, Copy)]
pub struct Sleep {
    pub seconds: u64,
    pub micros: u32,
}

/// The time from `now` to the next run, in microseconds: to today's run if
/// that is still to come, else to the same time a day later. Where today's
/// run is not known, or the next run would not lie after `now` at all, it is
/// one hour.
pub open spec fn micros_to_next_run(now: int, today: Option<int>) -> int {
    match today {
        Some(at) => {
            let next = if at > now {
                at
            } else {
                at + 86_400_000_000
            };
            if next >= now {
                next - now
            } else {
                FALLBACK_SLEEP_MICROS as int
            }
        },
        None => FALLBACK_SLEEP_MICROS as int,
    }
}

/// How long to sleep at `now` before the next sweep. `today` is the instant
/// of today's run in local time, if there is one; both are in microseconds
/// since the Unix epoch.
pub fn next_sleep(now: i64, today: Option<i64>) -> (sleep: Sleep)
    ensures
        sleep.seconds * 1_000_000 + sleep.micros == micros_to_next_run(now as int, match today {
            Some(at) => Some(at as int),
            None => None,
        }),
        sleep.micros < 1_000_000,
{
    let wait: i128 = match today {
        Some(at) => {
            let next: i128 = if at > now {
                at as i128
            } else {
                (at as i128) + 86_400_000_000
            };
            if next >= now as i128 {
                next - (now as i128)
            } else {
                3_600_000_000
            }
        },
        None => 3_600_000_000,
    };
    Sleep { seconds: (wait / 1_000_000) as u64, micros: (wait % 1_000_000) as u32 }
}

/// Where the janitor stands.
#[derive(Debug, Clone, Copy, PartialEq, Eq)]
pub enum JanitorState {
    /// The time of the next run is to be told.
    ComputeNextRun,
    /// The janitor sleeps until the next run.
    Sleeping,
    /// The sweep runs.
    Sweeping,
}

/// What the janitor does next.
#[derive(Debug, Clone, Copy)]
pub enum JanitorAction {
    /// Sleep so long.
    Sleep(Sleep),
    /// Remove the rows not accessed for so many days.
    Sweep { stale_days: i64 },
    /// Read the clock; the sweep is over, whether it failed or not.
    ReadClock,
}

/// The state that follows `state`: after the time of the next run has been
/// told the janitor sleeps, after its sleep it sweeps, and after the sweep
/// the time of the next run is told again. There is no last state.
pub open spec fn state_after(state: JanitorState) -> JanitorState {
    match state {
        JanitorState::ComputeNextRun => JanitorState::Sleeping,
        JanitorState::Sleeping => JanitorState::Sweeping,
        JanitorState::Sweeping => JanitorState::ComputeNextRun,
    }
}

/// Moves the janitor on from `state` at the instant `now`, where `today` is
/// the instant of today's run, if there is one: the state it is in then, and
/// what it does there.
pub fn advance(state: JanitorState, now: i64, today: Option<i64>) -> (r: (
    JanitorState,
    JanitorAction,
))
    ensures
        r.0 == state_after(state),
        match state {
            JanitorState::ComputeNextRun => r.1 matches JanitorAction::Sleep(sleep) && {
                &&& sleep.seconds * 1_000_000 + sleep.micros == micros_to_next_run(
                    now as int,
                    match today {
                        Some(at) => Some(at as int),
                        None => None,
                    },
                )
                &&& sleep.micros < 1_000_000
            },
            JanitorState::Sleeping => r.1 matches JanitorAction::Sweep { stale_days }
                && stale_days == STALE_DAYS,
            JanitorState::Sweeping => r.1 is ReadClock,
        },
{
    match state {
        JanitorState::ComputeNextRun => (
            JanitorState::Sleeping,
            JanitorAction::Sleep(next_sleep(now, today)),
        ),
        JanitorState::Sleeping => (
            JanitorState::Sweeping,
            JanitorAction::Sweep { stale_days: STALE_DAYS },
        ),
        JanitorState::Sweeping => (JanitorState::ComputeNextRun, JanitorAction::ReadClock),
    }
}

/// The janitor goes round for ever: three steps from any state lead back to
/// it, and each round has one sleep and one sweep.
pub proof fn lemma_janitor_goes_round(state: JanitorState)
    ensures
        state_after(state_after(state_after(state))) == state,
        state_after(state) != state,
{
}

/// A run that is still to come today is waited for; one that has passed is
/// waited for until the same time tomorrow. Either way the wait is more
/// than nothing and at most a day.
pub proof fn lemma_next_run_within_a_day(now: int, today: int)
    requires
        now - 86_400_000_000 < today <= now + 86_400_000_000,
    ensures
        0 < micros_to_next_run(now, Some(today)) <= 86_400_000_000,
        today > now ==> now + micros_to_next_run(now, Some(today)) == today,
        today <= now ==> now + micros_to_next_run(now, Some(today)) == today + 86_400_000_000,
{
}

} // verus!
