use vstd::prelude::*;

verus! {

/// How the background simulation runs: how long one tick should take, and
/// whether it runs at all.
#[derive(Clone, Copy, Debug, PartialEq, Eq, Structural)]
pub struct RuntimeConfig {
    /// The time one tick should take, in nanoseconds.
    pub time_per_tick: u64,
    pub running: bool,
}

/// What the simulation thread does next.
#[derive(Clone, Copy, Debug, PartialEq, Eq, Structural)]
pub enum RunnerStep {
    /// Sleep until woken: the simulation is paused.
    Wait,
    /// Leave the loop: the simulation is dropped.
    Stop,
    /// Tick the board.
    Tick,
}

impl RuntimeConfig {
    /// Twenty ticks a second, paused.
    pub fn new() -> (r: RuntimeConfig)
        ensures
            r.time_per_tick == 50_000_000,
            !r.running,
    {
        RuntimeConfig { time_per_tick: 50_000_000, running: false }
    }

    /// What the simulation thread does when it wakes: a dropped simulation
    /// stops, a paused one waits, and a running one ticks.
    pub fn next_step(&self, kill: bool) -> (r: RunnerStep)
        ensures
            r == (if kill {
                RunnerStep::Stop
            } else if !self.running {
                RunnerStep::Wait
            } else {
                RunnerStep::Tick
            }),
    {
        if kill {
            RunnerStep::Stop
        } else if !self.running {
            RunnerStep::Wait
        } else {
            RunnerStep::Tick
        }
    }

    /// How long to sleep after a tick that took `elapsed` nanoseconds, so
    /// that ticks come at the configured rate; `None` when the simulation was
    /// paused during the tick, which then records no timing.
    pub fn sleep_after(&self, elapsed: u64) -> (r: Option<u64>)
        ensures
            !self.running ==> r is None,
            self.running ==> r == Some(if elapsed < self.time_per_tick {
                (self.time_per_tick - elapsed) as u64
            } else {
                0u64
            }),
    {
        if !self.running {
            None
        } else if elapsed < self.time_per_tick {
            Some(self.time_per_tick - elapsed)
        } else {
            Some(0)
        }
    }
}

} // verus!
