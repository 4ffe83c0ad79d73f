use vstd::prelude::*;

use crate::level::Level;
use crate::map::TileMap;
use crate::simulation::level_state::{lemma_tick_progress, LevelResult, LevelState};
use crate::simulation::state::BeamState;
use crate::tile::Tile;

verus! {

/// Runs a level's test cases on a board to completion, with a limit on the
/// ticks any one case may take.
pub struct TestingSimulationState {
    beam: BeamState,
    max_ticks: u32,
}

/// The level checker of a state that runs a level.
pub open spec fn checker(b: BeamState) -> LevelState {
    b.level->Some_0
}

/// The case the checker of `trace[k]` is on (no case has been left before
/// the first tick).
pub open spec fn case_at(trace: Seq<BeamState>, k: int) -> usize {
    checker(trace[k]).current()
}

/// How many ticks, up to `trace[k]`, the current case has been running.
pub open spec fn timer_at(trace: Seq<BeamState>, k: int) -> int
    decreases k,
{
    if k <= 0 {
        0
    } else if case_at(trace, k) != case_at(trace, k - 1) {
        1
    } else {
        timer_at(trace, k - 1) + 1
    }
}

/// `trace` is a run of the tester: each state is the tick of the one before,
/// no state before the last finished the level or went over the tick limit,
/// and the result is what the last state ended on.
pub open spec fn tester_run(trace: Seq<BeamState>, max_ticks: u32, r: LevelResult) -> bool {
    &&& trace.len() >= 2
    &&& forall|k: int| 0 <= k < trace.len() - 1 ==> #[trigger] BeamState::tick_spec(trace[k], trace[k + 1])
    &&& forall|k: int| 1 <= k < trace.len() - 1 ==> #[trigger] timer_at(trace, k) <= max_ticks && checker(trace[k]).outcome() is None
    &&& if timer_at(trace, trace.len() - 1) > max_ticks {
        r == LevelResult::OutOfTime
    } else {
        checker(trace.last()).outcome() == Some(r)
    }
}

impl TestingSimulationState {
    pub closed spec fn beam(&self) -> BeamState {
        self.beam
    }

    pub closed spec fn max_ticks(&self) -> u32 {
        self.max_ticks
    }

    /// The state is at the start of a run of a level with cases.
    pub open spec fn ready(&self) -> bool {
        &&& self.beam().wf()
        &&& self.beam().level matches Some(ls)
        &&& ls.current() == 0
        &&& ls.offset() == 0
        &&& ls.latency() == 0
        &&& ls.history_states().len() == 0
        &&& ls.outcome() is None
        &&& ls.level().tests.cases@.len() > 0
    }

    pub fn new(board: &TileMap<Tile>, level: Level, max_ticks: u32) -> (r: TestingSimulationState)
        requires
            board.wf(),
            level.tests.cases@.len() > 0,
        ensures
            r.ready(),
            r.max_ticks() == max_ticks,
            checker(r.beam()).level() == level,
    {
        TestingSimulationState { beam: BeamState::new(board, Some(level), Some(0)), max_ticks }
    }

    /// Ticks the board until the level is passed or failed, or until a case
    /// takes more than `max_ticks` ticks.
    pub fn run(&mut self) -> (r: LevelResult)
        requires
            old(self).ready(),
        ensures
            exists|trace: Seq<BeamState>|
                trace[0] == old(self).beam() && trace.last() == final(self).beam() && #[trigger] tester_run(
                    trace,
                    old(self).max_ticks(),
                    r,
                ),
    {
        let ghost n_cases = checker(self.beam).level().tests.cases@.len();
        let ghost level = checker(self.beam).level();
        let ghost mut trace: Seq<BeamState> = seq![self.beam];
        let n_exec: usize = match &self.beam.level {
            Some(l) => l.level_ref().tests.cases.len(),
            None => 0,
        };
        let mut case: usize = 0;
        // Counted in 64 bits, the timer cannot overflow before it passes
        // any 32-bit limit.
        let mut timer: u64 = 0;
        loop
            invariant
                self.max_ticks == old(self).max_ticks,
                n_cases == level.tests.cases@.len(),
                trace.len() >= 1,
                trace[0] == old(self).beam,
                trace.last() == self.beam,
                self.beam.wf(),
                self.beam.level is Some,
                checker(self.beam).level() == level,
                checker(self.beam).offset() == 0,
                checker(self.beam).outcome() is None,
                case == checker(self.beam).current(),
                case < n_cases,
                n_cases == n_exec,
                timer == timer_at(trace, trace.len() - 1),
                timer <= self.max_ticks,
                checker(trace[0]).current() == 0,
                forall|k: int| 0 <= k < trace.len() - 1 ==> #[trigger] BeamState::tick_spec(trace[k], trace[k + 1]),
                forall|k: int| 1 <= k < trace.len() ==> #[trigger] timer_at(trace, k) <= self.max_ticks && checker(trace[k]).outcome() is None,
            decreases n_cases - case, self.max_ticks + 1 - timer,
        {
            let ghost prev = self.beam;
            let ghost prev_trace = trace;
            self.beam.tick();
            proof {
                trace = trace.push(self.beam);
                let nls = checker(self.beam);
                let ols = checker(prev);
                let mid = choose|mid: Map<crate::direction::Pos, crate::simulation::tile::BeamTile>|
                    LevelState::tick_spec(
                        ols,
                        nls,
                        crate::simulation::state::state_hash(prev.board@, prev.bounds),
                        prev.board@,
                        mid,
                    ) && self.beam.board@ == (if nls.outcome() is Some {
                        mid
                    } else {
                        crate::simulation::tick::next_board(mid)
                    });
                lemma_tick_progress(
                    ols,
                    nls,
                    crate::simulation::state::state_hash(prev.board@, prev.bounds),
                    prev.board@,
                    mid,
                );
                assert forall|k: int| 0 <= k < trace.len() - 1 implies #[trigger] BeamState::tick_spec(trace[k], trace[k + 1]) by {
                    if k < trace.len() - 2 {
                        assert(trace[k] == prev_trace[k] && trace[k + 1] == prev_trace[k + 1]);
                    }
                }
                assert forall|j: int| 0 <= j < prev_trace.len() implies timer_at(trace, j) == timer_at(prev_trace, j) by {
                    lemma_timer_prefix(trace, prev_trace, j);
                }
            }
            let level_state = match &self.beam.level {
                Some(l) => l,
                None => {
                    proof {
                        assert(false);
                    }
                    return LevelResult::OutOfTime;
                },
            };
            let tc = level_state.test_case();
            if tc != case {
                timer = 0;
                case = tc;
            }
            timer = timer + 1;
            proof {
                assert(timer == timer_at(trace, trace.len() - 1));
                assert(trace[0] == prev_trace[0]);
                assert(trace[0] == old(self).beam());
                assert(trace.last() == self.beam());
                assert forall|k: int| 1 <= k < trace.len() - 1 implies #[trigger] timer_at(trace, k)
                    <= self.max_ticks && checker(trace[k]).outcome() is None by {
                    assert(trace[k] == prev_trace[k]);
                    assert(timer_at(trace, k) == timer_at(prev_trace, k));
                }
            }
            if timer > self.max_ticks as u64 {
                assert(tester_run(trace, old(self).max_ticks(), LevelResult::OutOfTime));
                assert(trace[0] == old(self).beam() && trace.last() == self.beam() && tester_run(
                    trace,
                    old(self).max_ticks(),
                    LevelResult::OutOfTime,
                ));
                return LevelResult::OutOfTime;
            }
            if let Some(result) = level_state.result() {
                assert(trace[0] == old(self).beam() && trace.last() == self.beam() && tester_run(
                    trace,
                    old(self).max_ticks(),
                    result,
                ));
                return result;
            }
        }
    }
}

/// The timer of a state depends only on the trace up to that state.
proof fn lemma_timer_prefix(t: Seq<BeamState>, p: Seq<BeamState>, j: int)
    requires
        0 <= j < p.len(),
        p.len() <= t.len(),
        forall|k: int| 0 <= k < p.len() ==> t[k] == p[k],
    ensures
        timer_at(t, j) == timer_at(p, j),
    decreases j,
{
    if j > 0 {
        lemma_timer_prefix(t, p, j - 1);
    }
}

/// Whether the checker stays on one case from index `s` to index `k` of
/// the trace.
pub open spec fn one_case(trace: Seq<BeamState>, s: int, k: int) -> bool {
    forall|j: int| s <= j <= k ==> #[trigger] case_at(trace, j) == case_at(trace, k)
}

proof fn lemma_timer_counts_case_ticks(trace: Seq<BeamState>, k: int)
    requires
        1 <= k < trace.len(),
    ensures
        1 <= timer_at(trace, k) <= k,
        one_case(trace, k - timer_at(trace, k) + 1, k),
        forall|s: int| 1 <= s <= k && #[trigger] one_case(trace, s, k) ==> k - s + 1 <= timer_at(trace, k),
    decreases k,
{
    let t = timer_at(trace, k);
    if case_at(trace, k) != case_at(trace, k - 1) {
        assert forall|s: int| 1 <= s <= k && #[trigger] one_case(trace, s, k) implies k - s + 1 <= t by {
            if s < k {
                assert(case_at(trace, k - 1) == case_at(trace, k));
            }
        }
    } else if k == 1 {
        assert(one_case(trace, 1, 1));
    } else {
        lemma_timer_counts_case_ticks(trace, k - 1);
        let t1 = timer_at(trace, k - 1);
        assert(t == t1 + 1);
        assert forall|j: int| k - t + 1 <= j <= k implies #[trigger] case_at(trace, j) == case_at(trace, k) by {
            if j < k {
                assert(k - 1 - t1 + 1 <= j <= k - 1);
                assert(case_at(trace, j) == case_at(trace, k - 1));
            }
        }
        assert forall|s: int| 1 <= s <= k && #[trigger] one_case(trace, s, k) implies k - s + 1 <= t by {
            if s < k {
                assert forall|j: int| s <= j <= k - 1 implies #[trigger] case_at(trace, j) == case_at(trace, k - 1) by {
                    assert(case_at(trace, j) == case_at(trace, k));
                }
                assert(one_case(trace, s, k - 1));
            }
        }
    }
}

proof fn lemma_levels_stay(trace: Seq<BeamState>, k: int)
    requires
        0 <= k < trace.len(),
        trace[0].level is Some,
        forall|j: int| 0 <= j < trace.len() - 1 ==> #[trigger] BeamState::tick_spec(trace[j], trace[j + 1]),
    ensures
        trace[k].level is Some,
    decreases k,
{
    if k > 0 {
        lemma_levels_stay(trace, k - 1);
        let j = k - 1;
        assert(BeamState::tick_spec(trace[j], trace[j + 1]));
    }
}

/// The tick limit holds for each case on its own, counted from the tick the
/// case began: a run ends out of time exactly when the case it ends on has
/// run for more than `max_ticks` ticks, and no case before stayed longer than
/// that.
pub proof fn law_time_limit_is_per_case(trace: Seq<BeamState>, max_ticks: u32, r: LevelResult)
    requires
        tester_run(trace, max_ticks, r),
        trace[0].level is Some,
        checker(trace[0]).outcome() is None,
    ensures
        (r == LevelResult::OutOfTime) <==> exists|s: int|
            1 <= s <= trace.len() - 1 && trace.len() - s > max_ticks && #[trigger] one_case(
                trace,
                s,
                trace.len() - 1,
            ),
        forall|s: int, k: int|
            1 <= s <= k < trace.len() - 1 && #[trigger] one_case(trace, s, k) ==> k - s + 1 <= max_ticks,
{
    let last = trace.len() - 1;
    lemma_timer_counts_case_ticks(trace, last);
    assert forall|s: int, k: int|
        1 <= s <= k < trace.len() - 1 && #[trigger] one_case(trace, s, k) implies k - s + 1 <= max_ticks by {
        lemma_timer_counts_case_ticks(trace, k);
        assert(timer_at(trace, k) <= max_ticks && checker(trace[k]).outcome() is None);
    }
    let t = timer_at(trace, last);
    if t > max_ticks {
        assert(one_case(trace, last - t + 1, last));
    } else {
        let prev = trace[last - 1];
        lemma_levels_stay(trace, last - 1);
        if last - 1 >= 1 {
            let j = last - 1;
            assert(1 <= j < trace.len() - 1);
            assert(timer_at(trace, j) <= max_ticks && checker(trace[j]).outcome() is None);
        }
        let j = last - 1;
        assert(BeamState::tick_spec(trace[j], trace[j + 1]));
        let ls = checker(prev);
        let nls = checker(trace[last]);
        let mid = choose|mid: Map<crate::direction::Pos, crate::simulation::tile::BeamTile>|
            LevelState::tick_spec(
                ls,
                nls,
                crate::simulation::state::state_hash(prev.board@, prev.bounds),
                prev.board@,
                mid,
            ) && trace[last].board@ == (if nls.outcome() is Some {
                mid
            } else {
                crate::simulation::tick::next_board(mid)
            });
        assert(nls.outcome() != Some(LevelResult::OutOfTime));
        assert forall|s: int|
            1 <= s <= trace.len() - 1 && trace.len() - s > max_ticks implies !#[trigger] one_case(trace, s, last) by {}
    }
}

} // verus!
