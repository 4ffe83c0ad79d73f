use vstd::prelude::*;

use crate::direction::Pos;
use crate::level::case::{bits_view, case_lasers, classify_spec, EventType, TestCase};
use crate::level::{DynamicElementMap, Level};
use crate::map::TileMap;
use crate::simulation::tick::{tile_at, tile_at_exec};
use crate::simulation::tile::{is_powered_spec, BeamTile};

verus! {

broadcast use vstd::std_specs::hash::group_hash_axioms;

/// Tracks a level's test cases while its board is simulated.
pub struct LevelState {
    level: Level,
    dynamic_map: DynamicElementMap,
    pub test_case: usize,
    pub test_offset: usize,
    latency: u32,
    history: std::collections::HashMap<u64, usize>,
    history_states: Vec<Vec<bool>>,
    pub result: Option<LevelResult>,
}

/// How a level run ended.
#[derive(Debug, Clone, Copy, PartialEq, Eq, Structural)]
pub enum LevelResult {
    Success { latency: u32 },
    Failed { case: usize },
    OutOfTime,
}

/// Whether `long[i * n + offset + j]` (indices taken around `long`) equals
/// `short[j]`, where `n` is the length of `short`.
pub open spec fn cell_matches(long: Seq<Seq<bool>>, short: Seq<Seq<bool>>, offset: int, i: int, j: int) -> bool {
    long[(i * short.len() + offset + j) % (long.len() as int)] == short[j]
}

/// Whether `long`, read from position `offset` on, is `short` repeated.
pub open spec fn rotation_matches(long: Seq<Seq<bool>>, short: Seq<Seq<bool>>, offset: int) -> bool {
    forall|i: int, j: int|
        0 <= i < long.len() / short.len() && 0 <= j < short.len() ==> #[trigger] cell_matches(
            long,
            short,
            offset,
            i,
            j,
        )
}

/// Whether the cycle `long` is the expected cycle `short` repeated, starting
/// anywhere in `short`.
pub open spec fn equivalent_cycles_spec(long: Seq<Seq<bool>>, short: Seq<Seq<bool>>) -> bool {
    &&& 0 < short.len() <= long.len()
    &&& long.len() % short.len() == 0
    &&& exists|offset: int| 0 <= offset < short.len() && #[trigger] rotation_matches(long, short, offset)
}

/// The test case that is running.
pub open spec fn current_case(level: Level, test_case: usize, test_offset: usize) -> TestCase {
    level.tests.cases@[(test_case + test_offset) % (level.tests.cases@.len() as int)]
}

/// What the level's detectors read on `board`: a detector whose id has no
/// position reads `false`.
pub open spec fn outputs_spec(level: Level, positions: Map<u32, Pos>, board: Map<Pos, BeamTile>) -> Seq<bool> {
    Seq::new(
        level.tests.detectors@.len(),
        |i: int|
            positions.contains_key(level.tests.detectors@[i]) && is_powered_spec(
                tile_at(board, positions[level.tests.detectors@[i]]),
            ),
    )
}

/// `board` with the first `n` emitters of `ids` switched to `states`; ids
/// without a position, or standing on something else than an emitter, are
/// skipped.
pub open spec fn apply_lasers(
    ids: Seq<u32>,
    states: Seq<bool>,
    positions: Map<u32, Pos>,
    board: Map<Pos, BeamTile>,
    n: int,
) -> Map<Pos, BeamTile>
    decreases n,
{
    if n <= 0 {
        board
    } else {
        let b = apply_lasers(ids, states, positions, board, n - 1);
        let id = ids[n - 1];
        if positions.contains_key(id) {
            match tile_at(b, positions[id]) {
                BeamTile::Emitter { direction, .. } => b.insert(
                    positions[id],
                    BeamTile::Emitter { direction, active: states[n - 1] },
                ),
                _ => b,
            }
        } else {
            b
        }
    }
}

/// `board` with the emitters of the level set up for case `test_case`.
pub open spec fn setup_spec(
    level: Level,
    positions: Map<u32, Pos>,
    test_case: usize,
    test_offset: usize,
    board: Map<Pos, BeamTile>,
) -> Map<Pos, BeamTile> {
    let ids = level.tests.lasers@;
    let states = case_lasers(current_case(level, test_case, test_offset));
    apply_lasers(
        ids,
        states,
        positions,
        board,
        if ids.len() < states.len() {
            ids.len() as int
        } else {
            states.len() as int
        },
    )
}

impl LevelState {
    /// Index of the case being run, counted from the first case run.
    pub closed spec fn current(&self) -> usize {
        self.test_case
    }

    /// Offset of the first case run.
    pub closed spec fn offset(&self) -> usize {
        self.test_offset
    }

    /// How the run ended, once it has.
    pub closed spec fn outcome(&self) -> Option<LevelResult> {
        self.result
    }

    pub closed spec fn level(&self) -> Level {
        self.level
    }

    /// Where the dynamic tiles stand.
    pub closed spec fn positions(&self) -> Map<u32, Pos> {
        self.dynamic_map@
    }

    /// Latency summed over the passed cases.
    pub closed spec fn latency(&self) -> u32 {
        self.latency
    }

    /// Board hashes seen in the current case, with the tick they were seen at.
    pub closed spec fn history(&self) -> Map<u64, usize> {
        self.history@
    }

    /// Detector outputs of every tick of the current case.
    pub closed spec fn history_states(&self) -> Seq<Seq<bool>> {
        bits_view(self.history_states@)
    }

    pub closed spec fn wf(&self) -> bool {
        forall|h: u64| #[trigger] self.history@.contains_key(h) ==> self.history@[h] < self.history_states@.len()
    }

    /// The current case has been passed: the latency is added, the history is
    /// cleared and the next case is set up, or the level is won.
    pub open spec fn passed_spec(
        old: LevelState,
        new: LevelState,
        latency: int,
        old_board: Map<Pos, BeamTile>,
        new_board: Map<Pos, BeamTile>,
    ) -> bool {
        &&& new.latency() == vstd::wrapping::u32_specs::wrapping_add(
            old.latency(),
            #[verifier::truncate] (latency as u32),
        )
        &&& new.history_states() == Seq::<Seq<bool>>::empty()
        &&& new.history() == Map::<u64, usize>::empty()
        &&& new.current() == old.current() + 1
        &&& if new.current() >= old.level().tests.cases@.len() {
            new.outcome() == Some(LevelResult::Success { latency: new.latency() }) && new_board
                == old_board
        } else {
            new.outcome() == old.outcome() && new_board == setup_spec(
                old.level(),
                old.positions(),
                new.current(),
                old.offset(),
                old_board,
            )
        }
    }

    /// The current case has been failed.
    pub open spec fn failed_spec(
        old: LevelState,
        new: LevelState,
        old_board: Map<Pos, BeamTile>,
        new_board: Map<Pos, BeamTile>,
    ) -> bool {
        &&& new.outcome() == Some(LevelResult::Failed { case: old.current() })
        &&& new.current() == old.current()
        &&& new.latency() == old.latency()
        &&& new_board == old_board
    }

    /// The current case goes on: nothing but the history changes.
    pub open spec fn continued_spec(
        old: LevelState,
        new: LevelState,
        old_board: Map<Pos, BeamTile>,
        new_board: Map<Pos, BeamTile>,
    ) -> bool {
        &&& new.outcome() == old.outcome()
        &&& new.current() == old.current()
        &&& new.latency() == old.latency()
        &&& new_board == old_board
    }

    /// One tick of the checker, given the hash of the board's state.
    pub open spec fn tick_spec(
        old: LevelState,
        new: LevelState,
        hash: u64,
        old_board: Map<Pos, BeamTile>,
        new_board: Map<Pos, BeamTile>,
    ) -> bool {
        let outs = outputs_spec(old.level(), old.positions(), old_board);
        let hs = old.history_states().push(outs);
        let idx = old.history_states().len() as usize;
        match current_case(old.level(), old.current(), old.offset()) {
            TestCase::Cycle { detectors, .. } => if old.history().contains_key(hash) {
                let prev = old.history()[hash] as int;
                let cycle = hs.subrange(prev, hs.len() - 1);
                if equivalent_cycles_spec(cycle, bits_view(detectors@)) {
                    LevelState::passed_spec(old, new, hs.len() - cycle.len(), old_board, new_board)
                } else {
                    &&& LevelState::failed_spec(old, new, old_board, new_board)
                    &&& new.history_states() == hs
                    &&& new.history() == old.history().insert(hash, idx)
                }
            } else {
                &&& LevelState::continued_spec(old, new, old_board, new_board)
                &&& new.history_states() == hs
                &&& new.history() == old.history().insert(hash, idx)
            },
            TestCase::Event { default, pass, neutral, fail, .. } => match classify_spec(
                bits_view(pass@),
                bits_view(neutral@),
                bits_view(fail@),
                default,
                outs,
            ) {
                EventType::Pass => LevelState::passed_spec(
                    old,
                    new,
                    hs.len() as int,
                    old_board,
                    new_board,
                ),
                EventType::Fail => {
                    &&& LevelState::failed_spec(old, new, old_board, new_board)
                    &&& new.history_states() == hs
                    &&& new.history() == old.history()
                },
                EventType::Neutral => {
                    &&& LevelState::continued_spec(old, new, old_board, new_board)
                    &&& new.history_states() == hs
                    &&& new.history() == old.history()
                },
            },
        }
    }

    pub fn new(level: Level, dynamic_map: DynamicElementMap, test_offset: usize) -> (r: LevelState)
        ensures
            r.wf(),
            r.level() == level,
            r.positions() == dynamic_map@,
            r.current() == 0,
            r.offset() == test_offset,
            r.latency() == 0,
            r.history() == Map::<u64, usize>::empty(),
            r.history_states() == Seq::<Seq<bool>>::empty(),
            r.outcome() == None::<LevelResult>,
    {
        let r = LevelState {
            level,
            dynamic_map,
            test_case: 0,
            test_offset,
            latency: 0,
            history: std::collections::HashMap::new(),
            history_states: Vec::new(),
            result: None,
        };
        assert(r.history_states() =~= Seq::<Seq<bool>>::empty());
        r
    }

    /// How the run ended, once it has.
    pub fn result(&self) -> (r: Option<LevelResult>)
        ensures
            r == self.outcome(),
    {
        self.result
    }

    /// Index of the case being run, counted from the first case run.
    pub fn test_case(&self) -> (r: usize)
        ensures
            r == self.current(),
    {
        self.test_case
    }

    /// Offset of the first case run.
    pub fn test_offset(&self) -> (r: usize)
        ensures
            r == self.offset(),
    {
        self.test_offset
    }

    /// The level being checked.
    pub fn level_ref(&self) -> (r: &Level)
        ensures
            *r == self.level(),
    {
        &self.level
    }

    pub fn tick(&mut self, hash: u64, board: &mut TileMap<BeamTile>)
        requires
            old(self).wf(),
            old(board).wf(),
            old(self).level().tests.cases@.len() > 0,
            old(self).current() + old(self).offset() < usize::MAX,
        ensures
            final(self).wf(),
            final(board).wf(),
            final(self).level() == old(self).level(),
            final(self).positions() == old(self).positions(),
            final(self).offset() == old(self).offset(),
            LevelState::tick_spec(*old(self), *final(self), hash, old(board)@, final(board)@),
    {
        let n = self.level.tests.cases.len();
        let idx = (self.test_case + self.test_offset) % n;
        let hidx = self.history_states.len();
        let outputs = self.outputs(board);
        let ghost hs = self.history_states().push(outputs@);
        self.history_states.push(outputs);
        assert(self.history_states() =~= hs);
        let outcome = match &self.level.tests.cases[idx] {
            TestCase::Cycle { detectors, .. } => {
                match self.history.insert(hash, hidx) {
                    Some(prev) => {
                        let len = self.history_states.len();
                        let cycle = vstd::slice::slice_subrange(
                            self.history_states.as_slice(),
                            prev,
                            len - 1,
                        );
                        assert(bits_view(cycle@) =~= hs.subrange(prev as int, hs.len() - 1));
                        if equivalent_cycles(cycle, detectors.as_slice()) {
                            CaseOutcome::Passed(len - cycle.len())
                        } else {
                            CaseOutcome::Failed
                        }
                    },
                    None => CaseOutcome::Continue,
                }
            },
            TestCase::Event { default, pass, neutral, fail, .. } => {
                let outputs = self.outputs(board);
                match EventType::classify(
                    pass.as_slice(),
                    neutral.as_slice(),
                    fail.as_slice(),
                    *default,
                    &outputs,
                ) {
                    EventType::Pass => CaseOutcome::Passed(self.history_states.len()),
                    EventType::Fail => CaseOutcome::Failed,
                    EventType::Neutral => CaseOutcome::Continue,
                }
            },
        };
        match outcome {
            CaseOutcome::Passed(latency) => self.passed_case(latency, board),
            CaseOutcome::Failed => self.failed_case(),
            CaseOutcome::Continue => {},
        }
    }

    fn passed_case(&mut self, latency: usize, board: &mut TileMap<BeamTile>)
        requires
            old(board).wf(),
            old(self).level().tests.cases@.len() > 0,
            old(self).current() + old(self).offset() < usize::MAX,
        ensures
            final(self).wf(),
            final(board).wf(),
            final(self).level() == old(self).level(),
            final(self).positions() == old(self).positions(),
            final(self).offset() == old(self).offset(),
            LevelState::passed_spec(*old(self), *final(self), latency as int, old(board)@, final(board)@),
    {
        // The latency adds up as a 32-bit counter.
        self.latency = self.latency.wrapping_add(#[verifier::truncate] (latency as u32));
        self.history_states.clear();
        self.history.clear();
        self.test_case = self.test_case + 1;
        assert(self.history_states() =~= Seq::<Seq<bool>>::empty());
        if self.test_case >= self.level.tests.cases.len() {
            self.result = Some(LevelResult::Success { latency: self.latency });
            return ;
        }
        self.setup_case(board);
    }

    fn failed_case(&mut self)
        ensures
            final(self).outcome() == Some(LevelResult::Failed { case: old(self).current() }),
            final(self).current() == old(self).current(),
            final(self).offset() == old(self).offset(),
            final(self).latency() == old(self).latency(),
            final(self).level() == old(self).level(),
            final(self).positions() == old(self).positions(),
            final(self).history() == old(self).history(),
            final(self).history_states() == old(self).history_states(),
    {
        self.result = Some(LevelResult::Failed { case: self.test_case });
    }

    /// Switches the level's emitters to the states of the current case.
    pub fn setup_case(&mut self, board: &mut TileMap<BeamTile>)
        requires
            old(board).wf(),
            old(self).level().tests.cases@.len() > 0,
            old(self).current() + old(self).offset() <= usize::MAX,
        ensures
            *final(self) == *old(self),
            final(board).wf(),
            final(board)@ == setup_spec(
                old(self).level(),
                old(self).positions(),
                old(self).current(),
                old(self).offset(),
                old(board)@,
            ),
    {
        let tests = &self.level.tests;
        let idx = (self.test_case + self.test_offset) % tests.cases.len();
        let states = tests.cases[idx].lasers();
        let ids = &tests.lasers;
        let n = if ids.len() < states.len() {
            ids.len()
        } else {
            states.len()
        };
        let mut i: usize = 0;
        while i < n
            invariant
                board.wf(),
                i <= n,
                n <= ids@.len(),
                n <= states@.len(),
                board@ == apply_lasers(ids@, states@, self.dynamic_map@, old(board)@, i as int),
            decreases n - i,
        {
            if let Some(pos) = self.dynamic_map.position(ids[i]) {
                if let BeamTile::Emitter { direction, .. } = tile_at_exec(board, pos) {
                    board.set(pos, BeamTile::Emitter { direction, active: states[i] });
                }
            }
            i = i + 1;
        }
    }

    /// What the level's detectors read on `board`.
    fn outputs(&self, board: &TileMap<BeamTile>) -> (r: Vec<bool>)
        requires
            board.wf(),
        ensures
            r@ == outputs_spec(self.level(), self.positions(), board@),
    {
        let detectors = &self.level.tests.detectors;
        let mut out: Vec<bool> = Vec::new();
        let mut i: usize = 0;
        while i < detectors.len()
            invariant
                board.wf(),
                detectors@ == self.level().tests.detectors@,
                i <= detectors@.len(),
                out@ == outputs_spec(self.level(), self.positions(), board@).subrange(0, i as int),
            decreases detectors@.len() - i,
        {
            let v = match self.dynamic_map.position(detectors[i]) {
                Some(pos) => tile_at_exec(board, pos).is_powered(),
                None => false,
            };
            out.push(v);
            i = i + 1;
            assert(out@ =~= outputs_spec(self.level(), self.positions(), board@).subrange(
                0,
                i as int,
            ));
        }
        assert(out@ =~= outputs_spec(self.level(), self.positions(), board@));
        out
    }
}

/// What one tick of the checker does to its counters: a case is either
/// passed (the next case starts with an empty history, or the level is won
/// when it was the last), or it goes on with one more entry in its history,
/// or it is failed.
pub proof fn lemma_tick_progress(
    old: LevelState,
    new: LevelState,
    hash: u64,
    old_board: Map<Pos, BeamTile>,
    new_board: Map<Pos, BeamTile>,
)
    requires
        LevelState::tick_spec(old, new, hash, old_board, new_board),
        new.level() == old.level(),
        old.outcome() is None,
        old.current() < old.level().tests.cases@.len(),
    ensures
        ({
            ||| new.current() == old.current() && new.outcome() is Some
            ||| new.current() == old.current() && new.outcome() is None
                && new.history_states().len() == old.history_states().len() + 1 && new.latency()
                == old.latency()
            ||| new.current() == old.current() + 1 && new.history_states().len() == 0
                && (new.current()
                < old.level().tests.cases@.len() ==> new.outcome() is None) && (new.current()
                >= old.level().tests.cases@.len() ==> new.outcome() is Some)
        }),
{
}

/// Whether laser `i` of the first `n` has a position that no other of
/// them shares.
pub open spec fn own_position(ids: Seq<u32>, positions: Map<u32, Pos>, n: int, i: int) -> bool {
    &&& positions.contains_key(ids[i])
    &&& forall|j: int|
        0 <= j < n && j != i ==> !(positions.contains_key(#[trigger] ids[j]) && positions[ids[j]]
            == positions[ids[i]])
}

proof fn lemma_apply_lasers(
    ids: Seq<u32>,
    states: Seq<bool>,
    positions: Map<u32, Pos>,
    board: Map<Pos, BeamTile>,
    n: int,
)
    requires
        0 <= n <= ids.len(),
        n <= states.len(),
    ensures
        forall|q: Pos|
            (forall|j: int| 0 <= j < n ==> !(positions.contains_key(#[trigger] ids[j]) && positions[ids[j]] == q))
                ==> tile_at(apply_lasers(ids, states, positions, board, n), q) == tile_at(board, q),
        forall|i: int|
            0 <= i < n && #[trigger] own_position(ids, positions, n, i) && tile_at(board, positions[ids[i]]) is Emitter
                ==> tile_at(apply_lasers(ids, states, positions, board, n), positions[ids[i]]) == (
                BeamTile::Emitter {
                    direction: tile_at(board, positions[ids[i]])->Emitter_direction,
                    active: states[i],
                }),
    decreases n,
{
    if n > 0 {
        lemma_apply_lasers(ids, states, positions, board, n - 1);
        let prev = apply_lasers(ids, states, positions, board, n - 1);
        let cur = apply_lasers(ids, states, positions, board, n);
        assert forall|i: int|
            0 <= i < n && #[trigger] own_position(ids, positions, n, i) && tile_at(board, positions[ids[i]]) is Emitter
                implies tile_at(cur, positions[ids[i]]) == (BeamTile::Emitter {
                direction: tile_at(board, positions[ids[i]])->Emitter_direction,
                active: states[i],
            }) by {
            let q = positions[ids[i]];
            if i < n - 1 {
                assert(own_position(ids, positions, n - 1, i));
                assert(!(positions.contains_key(ids[n - 1]) && positions[ids[n - 1]] == q));
            } else {
                assert forall|j: int| 0 <= j < n - 1 implies !(positions.contains_key(#[trigger] ids[j]) && positions[ids[j]] == q) by {
                    assert(j != i);
                }
                assert(tile_at(prev, q) == tile_at(board, q));
            }
        }
    }
}

/// Setting up a case switches each laser to its own state, in order: the
/// emitter standing where the `i`-th laser id is placed is switched on
/// exactly when the case's `i`-th state is, for every `i` below both
/// lengths whose position no other of those lasers shares; it keeps its
/// facing.
pub proof fn law_setup_applies_states_in_order(
    level: Level,
    positions: Map<u32, Pos>,
    test_case: usize,
    test_offset: usize,
    board: Map<Pos, BeamTile>,
)
    ensures
        ({
            let ids = level.tests.lasers@;
            let states = case_lasers(current_case(level, test_case, test_offset));
            let n = if ids.len() < states.len() {
                ids.len() as int
            } else {
                states.len() as int
            };
            forall|i: int|
                0 <= i < n && #[trigger] own_position(ids, positions, n, i) && tile_at(board, positions[ids[i]]) is Emitter
                    ==> tile_at(
                    setup_spec(level, positions, test_case, test_offset, board),
                    positions[ids[i]],
                ) == (BeamTile::Emitter {
                    direction: tile_at(board, positions[ids[i]])->Emitter_direction,
                    active: states[i],
                })
        }),
{
    let ids = level.tests.lasers@;
    let states = case_lasers(current_case(level, test_case, test_offset));
    let n = if ids.len() < states.len() {
        ids.len() as int
    } else {
        states.len() as int
    };
    lemma_apply_lasers(ids, states, positions, board, n);
}

enum CaseOutcome {
    Continue,
    Passed(usize),
    Failed,
}

/// Whether `long`, read from position `offset` on, is `short` repeated.
fn matches_at(long: &[Vec<bool>], short: &[Vec<bool>], offset: usize) -> (r: bool)
    requires
        0 < short@.len() <= long@.len(),
        long@.len() % short@.len() == 0,
        offset < short@.len(),
    ensures
        r == rotation_matches(bits_view(long@), bits_view(short@), offset as int),
{
    let ll = long.len();
    let sl = short.len();
    let reps = ll / sl;
    let ghost lv = bits_view(long@);
    let ghost sv = bits_view(short@);
    let mut i: usize = 0;
    while i < reps
        invariant
            ll == long@.len(),
            sl == short@.len(),
            0 < sl <= ll,
            ll % sl == 0,
            reps == ll / sl,
            offset < sl,
            i <= reps,
            lv == bits_view(long@),
            sv == bits_view(short@),
            forall|a: int, b: int| 0 <= a < i && 0 <= b < sl ==> #[trigger] cell_matches(lv, sv, offset as int, a, b),
        decreases reps - i,
    {
        assert(i * sl + sl <= ll) by (nonlinear_arith)
            requires
                i < reps,
                reps == ll / sl,
                ll % sl == 0,
                0 < sl,
        ;
        let mut j: usize = 0;
        while j < sl
            invariant
                ll == long@.len(),
                sl == short@.len(),
                0 < sl <= ll,
                i * sl + sl <= ll,
                offset < sl,
                i < reps,
                reps == ll / sl,
                j <= sl,
                lv == bits_view(long@),
                sv == bits_view(short@),
                forall|b: int| 0 <= b < j ==> #[trigger] cell_matches(lv, sv, offset as int, i as int, b),
            decreases sl - j,
        {
            let start = i * sl + offset;
            let rem = ll - start;
            let k = if j < rem {
                start + j
            } else {
                j - rem
            };
            assert(k == (i * sl + offset + j) % (ll as int)) by (nonlinear_arith)
                requires
                    start == i * sl + offset,
                    start < ll,
                    j < sl,
                    sl <= ll,
                    rem == ll - start,
                    k == (if j < rem { start + j } else { j - rem }),
            ;
            assert(lv[k as int] == long@[k as int]@);
            if !crate::level::case::bits_equal(&long[k], &short[j]) {
                assert(!cell_matches(lv, sv, offset as int, i as int, j as int));
                return false;
            }
            assert(cell_matches(lv, sv, offset as int, i as int, j as int));
            j = j + 1;
        }
        i = i + 1;
    }
    true
}

/// Whether the observed cycle `long` is the expected cycle `short`
/// repeated, starting anywhere in `short`.
pub fn equivalent_cycles(long: &[Vec<bool>], short: &[Vec<bool>]) -> (r: bool)
    ensures
        r == equivalent_cycles_spec(bits_view(long@), bits_view(short@)),
{
    let ll = long.len();
    let sl = short.len();
    if sl > ll {
        return false;
    }
    // `ll` is a multiple of `sl`; when `sl` is zero that means `ll` is zero too.
    if sl == 0 {
        return false;
    }
    if ll % sl != 0 {
        return false;
    }
    let mut offset: usize = 0;
    while offset < sl
        invariant
            0 < sl <= ll,
            ll == long@.len(),
            sl == short@.len(),
            ll % sl == 0,
            offset <= sl,
            forall|o: int| 0 <= o < offset ==> !#[trigger] rotation_matches(bits_view(long@), bits_view(short@), o),
        decreases sl - offset,
    {
        if matches_at(long, short, offset) {
            return true;
        }
        offset = offset + 1;
    }
    false
}

} // verus!
