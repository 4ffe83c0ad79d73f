use std::collections::HashSet;

use beam_logic::direction::{Direction, Directions, Pos};
use beam_logic::game::holding::{HeldKey, Holding};
use beam_logic::level::{Level, Tests};
use beam_logic::map::TileMap;
use beam_logic::screens::game::{result_frame, simulation_frame, SimAction, SimKeys};
use beam_logic::simulation::level_state::{equivalent_cycles, LevelResult};
use beam_logic::simulation::tick::{advance_board, tile_at_exec};
use beam_logic::simulation::tile::BeamTile;
use beam_logic::tile::Tile;

fn keys() -> SimKeys {
    SimKeys { space: false, play: false, test: false, escape: false, shift: false }
}

#[test]
fn space_starts_then_steps_a_simulation() {
    let k = SimKeys { space: true, ..keys() };
    assert_eq!(simulation_frame(k, false, false, false, false, false, false, 0), (false, SimAction::Start { first_case: None }));
    assert_eq!(simulation_frame(k, false, true, false, false, false, true, 0), (false, SimAction::Step));
    assert_eq!(simulation_frame(keys(), false, true, true, false, false, true, 0), (true, SimAction::Keep));
}

#[test]
fn play_and_test_keys_start_runs() {
    let play = SimKeys { play: true, ..keys() };
    assert_eq!(simulation_frame(play, false, false, false, false, false, false, 0), (true, SimAction::Start { first_case: None }));
    let test = SimKeys { test: true, ..keys() };
    assert_eq!(simulation_frame(test, true, false, false, false, false, false, 4), (true, SimAction::Start { first_case: Some(4) }));
    assert_eq!(simulation_frame(test, false, false, false, false, false, false, 4), (false, SimAction::Keep));
    assert_eq!(simulation_frame(test, true, true, true, false, false, true, 2), (true, SimAction::Start { first_case: Some(2) }));
}

#[test]
fn escape_stops_unless_shifted_or_a_dialog_is_open() {
    let esc = SimKeys { escape: true, ..keys() };
    assert_eq!(simulation_frame(esc, false, true, true, false, false, true, 0), (true, SimAction::Stop));
    let shifted = SimKeys { escape: true, shift: true, ..keys() };
    assert_eq!(simulation_frame(shifted, false, true, true, false, false, true, 0).1, SimAction::Keep);
    assert_eq!(simulation_frame(esc, false, true, true, false, true, true, 0).1, SimAction::Keep);
    assert_eq!(simulation_frame(esc, false, false, false, false, false, false, 0), (false, SimAction::Keep));
}

#[test]
fn results_stop_the_runner() {
    assert_eq!(result_frame(None, true, true), (true, false));
    assert_eq!(result_frame(Some(LevelResult::Success { latency: 3 }), true, true), (false, true));
    assert_eq!(result_frame(Some(LevelResult::Success { latency: 3 }), false, true), (false, false));
    assert_eq!(result_frame(Some(LevelResult::OutOfTime), true, true), (false, false));
}

#[test]
fn held_groups_turn_and_mirror_about_the_cursor() {
    let mut h = Holding::Paste(vec![(Pos::new(1, 2), Tile::Galvo { rotation: Direction::Up })]);
    h.transform(HeldKey::Rotate);
    assert_eq!(h, Holding::Paste(vec![(Pos::new(2, -1), Tile::Galvo { rotation: Direction::Right })]));
    h.transform(HeldKey::RotateReverse);
    assert_eq!(h, Holding::Paste(vec![(Pos::new(1, 2), Tile::Galvo { rotation: Direction::Up })]));
    h.transform(HeldKey::FlipVertical);
    assert_eq!(h, Holding::Paste(vec![(Pos::new(1, -2), Tile::Galvo { rotation: Direction::Down })]));
    h.transform(HeldKey::FlipHorizontal);
    assert_eq!(h, Holding::Paste(vec![(Pos::new(-1, -2), Tile::Galvo { rotation: Direction::Down })]));
    h.transform(HeldKey::Toggle);
    assert_eq!(h, Holding::Paste(vec![(Pos::new(-1, -2), Tile::Galvo { rotation: Direction::Down })]));
}

#[test]
fn a_held_tile_turns_and_switches() {
    let mut h = Holding::Tile(Tile::Emitter { rotation: Direction::Up, active: false, id: None });
    h.transform(HeldKey::Rotate);
    h.transform(HeldKey::Toggle);
    assert_eq!(h, Holding::Tile(Tile::Emitter { rotation: Direction::Right, active: true, id: None }));
    h.transform(HeldKey::FlipHorizontal);
    assert_eq!(h, Holding::Tile(Tile::Emitter { rotation: Direction::Right, active: true, id: None }));
    let mut n = Holding::Nothing;
    n.transform(HeldKey::Rotate);
    assert_eq!(n, Holding::Nothing);
}

#[test]
fn rotating_either_cycle_does_not_change_the_verdict() {
    let a = vec![true, false];
    let b = vec![false, false];
    let c = vec![true, true];
    let short = vec![a.clone(), b.clone(), c.clone()];
    let long = vec![b.clone(), c.clone(), a.clone(), b.clone(), c.clone(), a.clone()];
    assert!(equivalent_cycles(&long, &short));
    assert!(equivalent_cycles(&long, &[c.clone(), a.clone(), b.clone()]));
    assert!(equivalent_cycles(&[c.clone(), a.clone(), b.clone(), c.clone(), a.clone(), b.clone()], &short));
    let bad = vec![a.clone(), c.clone(), b.clone()];
    assert!(!equivalent_cycles(&bad, &short));
    assert!(!equivalent_cycles(&[c.clone(), b.clone(), a.clone()], &short));
}

#[test]
fn power_follows_the_output_directions() {
    let mut b: TileMap<BeamTile> = TileMap::new();
    b.set(Pos::new(0, 0), BeamTile::Delay { powered: Directions::empty(), last_powered: Directions::single(Direction::Up) });
    b.set(Pos::new(5, 0), BeamTile::Mirror {
        galvoed: Directions::single(Direction::Up).union(Directions::single(Direction::Down)),
        direction: false,
        powered: [Some(Direction::Right), None],
    });
    let out = b.get(Pos::new(5, 0)).unwrap().power_direction();
    let b1 = advance_board(&b);
    assert_eq!(tile_at_exec(&b1, Pos::new(0, 1)), BeamTile::Beam { direction: Direction::Up, distance: 0 });
    assert_eq!(tile_at_exec(&b1, Pos::new(0, -1)), BeamTile::Empty);
    for d in Direction::all() {
        let q = d.offset(Pos::new(5, 0));
        let expected = if out.contains(d) {
            BeamTile::Beam { direction: d, distance: 0 }
        } else {
            BeamTile::Empty
        };
        assert_eq!(tile_at_exec(&b1, q), expected);
    }
}

#[test]
fn a_single_line_after_a_break_loses_the_break() {
    let mut l = Level {
        id: 1,
        name: String::new(),
        description: String::from("\nRoute the beam."),
        parents: vec![],
        size: None,
        permanent: vec![],
        labels: vec![],
        disabled: None,
        tiles: TileMap::new(),
        tests: Tests { lasers: vec![], detectors: vec![], display: None, hidden: HashSet::new(), cases: vec![] },
    };
    l.unindent_description();
    assert_eq!(l.description, "Route the beam.");
}
