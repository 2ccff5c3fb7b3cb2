use vstd::prelude::*;

verus! {

/// Nanoseconds in one second.
pub const NANOS_PER_SECOND: u64 = 1_000_000_000;

/// The tick rate that the engine aims for.
pub const TICKS_PER_SECOND: u64 = 60;

/// Whether the tick loop goes on.
#[derive(Debug, Clone, Copy, PartialEq, Eq, Structural)]
pub enum SchedulerState {
    Running,
    Stopped,
}

/// The state for the next tick, where `output_closed` tells whether the
/// consumer of finished frames has gone: that is the only way to stop, and
/// stopping is for good.
pub fn next_state(state: SchedulerState, output_closed: bool) -> (r: SchedulerState)
    ensures
        r == (if output_closed { SchedulerState::Stopped } else { state }),
{
    if output_closed {
        SchedulerState::Stopped
    } else {
        state
    }
}

/// The length in nanoseconds of one tick at `ticks_per_second`.
pub fn tick_period(ticks_per_second: u64) -> (r: u64)
    requires
        ticks_per_second > 0,
    ensures
        r == NANOS_PER_SECOND / ticks_per_second,
{
    NANOS_PER_SECOND / ticks_per_second
}

/// How long to sleep after a tick whose work took `elapsed` nanoseconds of
/// a `period`: the rest of the period, or nothing once the period is spent.
pub open spec fn sleep_spec(period: int, elapsed: int) -> int {
    if elapsed >= period {
        0
    } else {
        period - elapsed
    }
}

/// See `sleep_spec`; the result is never negative and is zero on an overrun.
pub fn sleep_duration(period: u64, elapsed: u64) -> (r: u64)
    ensures
        r == sleep_spec(period as int, elapsed as int),
{
    if elapsed >= period {
        0
    } else {
        period - elapsed
    }
}

/// The wall time of ticks whose work took `works[i]` nanoseconds each, each
/// followed by its sleep.
pub open spec fn paced_time(period: int, works: Seq<u64>) -> int
    decreases works.len(),
{
    if works.len() == 0 {
        0
    } else {
        paced_time(period, works.drop_last()) + works.last() + sleep_spec(period, works.last() as int)
    }
}

/// Ticks whose work fits in the period take exactly one period each, so
/// `n` of them take `n` periods; a tick that overruns takes as long as its
/// work and no longer.
pub proof fn lemma_paced_time(period: int, works: Seq<u64>)
    requires
        0 <= period,
    ensures
        (forall|i: int| 0 <= i < works.len() ==> #[trigger] works[i] <= period) ==> paced_time(period, works)
            == works.len() * period,
        paced_time(period, works) >= works.len() * period,
    decreases works.len(),
{
    if works.len() > 0 {
        let rest = works.drop_last();
        lemma_paced_time(period, rest);
        let n = works.len() as int;
        assert(n * period == (n - 1) * period + period) by (nonlinear_arith);
        if forall|i: int| 0 <= i < works.len() ==> #[trigger] works[i] <= period {
            assert forall|i: int| 0 <= i < rest.len() implies #[trigger] rest[i] <= period by {
                assert(rest[i] == works[i]);
            }
            assert(works.last() == works[works.len() - 1]);
        }
    }
}

/// Counts ticks over windows of at least one second, for the observed tick
/// rate.
#[derive(Debug, Clone, Copy, PartialEq, Eq, Structural)]
pub struct TickRateMeter {
    pub window_start: u64,
    pub ticks: u64,
}

impl TickRateMeter {
    /// A meter whose first window opens at `now` (nanoseconds).
    pub fn new(now: u64) -> (r: TickRateMeter)
        ensures
            r == (TickRateMeter { window_start: now, ticks: 0 }),
    {
        TickRateMeter { window_start: now, ticks: 0 }
    }

    /// Counts one tick at `now`. Once a second or more has passed since the
    /// window opened, returns the ticks counted in it, this one included,
    /// and opens the next window at `now`. A clock that went back counts as
    /// no time passed.
    pub fn record(&mut self, now: u64) -> (r: Option<u64>)
        ensures
            ({
                let count = if old(self).ticks == u64::MAX { u64::MAX } else { (old(self).ticks + 1) as u64 };
                if now >= old(self).window_start && now - old(self).window_start >= NANOS_PER_SECOND {
                    r == Some(count) && *final(self) == (TickRateMeter { window_start: now, ticks: 0 })
                } else {
                    r is None && *final(self) == (TickRateMeter { window_start: old(self).window_start, ticks: count })
                }
            }),
    {
        let count = self.ticks.saturating_add(1);
        if now >= self.window_start && now - self.window_start >= NANOS_PER_SECOND {
            self.window_start = now;
            self.ticks = 0;
            Some(count)
        } else {
            self.ticks = count;
            None
        }
    }
}

} // verus!
