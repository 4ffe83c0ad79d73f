use vstd::prelude::*;

use crate::simulation::level_state::LevelResult;

verus! {

/// The keys of the game screen that drive the simulation, as pressed (or,
/// for `shift`, held) this frame.
#[derive(Clone, Copy, Debug, PartialEq, Eq, Structural)]
pub struct SimKeys {
    /// Run one simulation step.
    pub space: bool,
    /// Start playing the simulation.
    pub play: bool,
    /// Run the level's test cases.
    pub test: bool,
    pub escape: bool,
    pub shift: bool,
}

/// What happens to the board's simulation this frame.
#[derive(Clone, Copy, Debug, PartialEq, Eq, Structural)]
pub enum SimAction {
    /// Leave the simulation as it is.
    Keep,
    /// Drop the simulation.
    Stop,
    /// Advance the simulation by one tick.
    Step,
    /// Start a new simulation of the board; for a test run, from the given
    /// case.
    Start { first_case: Option<usize> },
}

/// The run decisions of one frame of the game screen, given the keys, whether
/// the board belongs to a level, whether a simulation exists, whether it is
/// playing or testing, whether a dialog is open, whether the runner runs, and
/// the case a test run would start from. Returns whether the runner runs
/// afterwards and what happens to the simulation: Escape (without Shift, with
/// no dialog open) stops it, as does the test key while playing; a kept
/// simulation steps on Space; otherwise Space, the play key when not playing
/// or the test key when not testing start a new one.
pub fn simulation_frame(
    keys: SimKeys,
    has_level: bool,
    has_beam: bool,
    playing: bool,
    testing: bool,
    modal_open: bool,
    running: bool,
    case_start: usize,
) -> (r: (bool, SimAction))
    ensures
        ({
            let test = keys.test && has_level;
            let stop = has_beam && ((keys.escape && !keys.shift && !modal_open) || (playing
                && test));
            let start = keys.space || (keys.play && !playing) || (test && !testing);
            &&& r.0 == ((running && !keys.space) || keys.play || test)
            &&& (has_beam && !stop ==> r.1 == (if keys.space {
                SimAction::Step
            } else {
                SimAction::Keep
            }))
            &&& ((!has_beam || stop) && start ==> r.1 == (SimAction::Start {
                first_case: if test {
                    Some(case_start)
                } else {
                    None
                },
            }))
            &&& (stop && !start ==> r.1 == SimAction::Stop)
            &&& (!has_beam && !start ==> r.1 == SimAction::Keep)
        }),
{
    let test = keys.test && has_level;
    let stop = has_beam && ((keys.escape && !keys.shift && !modal_open) || (playing && test));
    let run = (running && !keys.space) || keys.play || test;
    let action = if has_beam && !stop {
        if keys.space {
            SimAction::Step
        } else {
            SimAction::Keep
        }
    } else if keys.space || (keys.play && !playing) || (test && !testing) {
        SimAction::Start {
            first_case: if test {
                Some(case_start)
            } else {
                None
            },
        }
    } else if stop {
        SimAction::Stop
    } else {
        SimAction::Keep
    };
    (run, action)
}

/// What a finished level run does: the runner stops, and a passed level in
/// a campaign board drops its simulation once the solve is recorded.
/// Returns whether the runner runs afterwards and whether the simulation is
/// dropped.
pub fn result_frame(result: Option<LevelResult>, in_campaign: bool, running: bool) -> (r: (
    bool,
    bool,
))
    ensures
        r.0 == (running && result is None),
        r.1 == (in_campaign && result matches Some(LevelResult::Success { .. })),
{
    match result {
        None => (running, false),
        Some(LevelResult::Success { .. }) => (false, in_campaign),
        Some(_) => (false, false),
    }
}

} // verus!
