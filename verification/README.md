# beam_logic

The rules of Beam Time, a puzzle game in which laser beams are redirected and
split to build digital circuits, as a library verified with Verus.

- `src/tile.rs`, `src/direction.rs`, `src/map.rs`: the components, directions
  and the sparse grid they are placed on.
- `src/simulation/`: one tick of the beam simulation (`tick.rs`), the state of a
  running board and its hash (`state.rs`), the level checker (`level_state.rs`),
  the test runner (`runtime/`), and the proved properties of a tick
  (`tick_laws.rs`) and of the cycle comparison (`cycles.rs`).
- `src/level/`: levels, their test cases and the campaign tree.
- `src/game/`, `src/screens/`, `src/integrations.rs`: the editing rules of the
  game (placing, pasting, selecting, turning what is held), the run decisions
  of the game screen, achievements and small pieces of screen state.
- `app/`: a command-line front end that reads levels and boards from RON files
  and runs a solution against a level.
