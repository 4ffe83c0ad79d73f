use std::collections::HashSet;

use beam_logic::direction::{Direction, Directions, Pos};
use beam_logic::level::case::{EventType, TestCase};
use beam_logic::level::{DynamicElementMap, Level, Tests};
use beam_logic::map::TileMap;
use beam_logic::misc::price;
use beam_logic::simulation::level_state::{equivalent_cycles, LevelResult};
use beam_logic::simulation::runtime::testing::TestingSimulationState;
use beam_logic::simulation::state::BeamState;
use beam_logic::simulation::tick::{advance_board, tile_at_exec};
use beam_logic::simulation::tile::BeamTile;
use beam_logic::tile::Tile;

fn wire_board() -> TileMap<Tile> {
    let mut m = TileMap::new();
    m.set(Pos::new(0, 0), Tile::Emitter { rotation: Direction::Right, active: false, id: Some(0) });
    m.set(Pos::new(2, 0), Tile::Detector { id: Some(1) });
    m
}

fn wire_level(cases: Vec<TestCase>) -> Level {
    Level {
        id: 7,
        name: String::from("Wire"),
        description: String::from("Connect the emitter to the detector."),
        parents: vec![],
        size: None,
        permanent: vec![Pos::new(0, 0), Pos::new(2, 0)],
        labels: vec![],
        disabled: None,
        tiles: wire_board(),
        tests: Tests {
            lasers: vec![0],
            detectors: vec![1],
            display: None,
            hidden: HashSet::new(),
            cases,
        },
    }
}

#[test]
fn an_active_emitter_sends_a_beam() {
    let mut b: TileMap<BeamTile> = TileMap::new();
    b.set(Pos::new(0, 0), BeamTile::Emitter { direction: Direction::Right, active: true });
    let b1 = advance_board(&b);
    assert_eq!(
        tile_at_exec(&b1, Pos::new(1, 0)),
        BeamTile::Beam { direction: Direction::Right, distance: 0 }
    );
    assert_eq!(tile_at_exec(&b1, Pos::new(0, 0)), b.get(Pos::new(0, 0)).unwrap());
    let b2 = advance_board(&b1);
    assert_eq!(
        tile_at_exec(&b2, Pos::new(2, 0)),
        BeamTile::Beam { direction: Direction::Right, distance: 0 }
    );
}

#[test]
fn an_inactive_emitter_sends_nothing() {
    let mut b: TileMap<BeamTile> = TileMap::new();
    b.set(Pos::new(0, 0), BeamTile::Emitter { direction: Direction::Up, active: false });
    let b1 = advance_board(&b);
    assert_eq!(b1.len(), 1);
    assert_eq!(tile_at_exec(&b1, Pos::new(0, 1)), BeamTile::Empty);
}

#[test]
fn crossing_beams_make_a_crossbeam() {
    let mut b: TileMap<BeamTile> = TileMap::new();
    b.set(Pos::new(0, 0), BeamTile::Emitter { direction: Direction::Right, active: true });
    b.set(Pos::new(1, -1), BeamTile::Emitter { direction: Direction::Up, active: true });
    let b1 = advance_board(&b);
    match tile_at_exec(&b1, Pos::new(1, 0)) {
        BeamTile::CrossBeam { directions } => {
            assert!(directions.contains(&Direction::Right) && directions.contains(&Direction::Up));
        },
        other => panic!("expected a crossbeam, got {other:?}"),
    }
}

#[test]
fn a_mirror_turns_a_beam() {
    let mut b: TileMap<BeamTile> = TileMap::new();
    b.set(Pos::new(0, 0), BeamTile::Emitter { direction: Direction::Right, active: true });
    b.set(
        Pos::new(1, 0),
        BeamTile::Mirror { galvoed: Directions::empty(), direction: false, powered: [None, None] },
    );
    let b1 = advance_board(&b);
    let b2 = advance_board(&b1);
    let up = tile_at_exec(&b2, Pos::new(1, 1));
    let down = tile_at_exec(&b2, Pos::new(1, -1));
    assert!(matches!(up, BeamTile::Beam { .. }) || matches!(down, BeamTile::Beam { .. }));
    assert!(matches!(tile_at_exec(&b2, Pos::new(1, 0)), BeamTile::Mirror { direction: false, .. }));
}

#[test]
fn components_stay_where_they_were_placed() {
    let mut b: TileMap<BeamTile> = TileMap::new();
    b.set(Pos::new(0, 0), BeamTile::Emitter { direction: Direction::Right, active: true });
    b.set(Pos::new(2, 0), BeamTile::Splitter { direction: true, powered: Directions::empty() });
    b.set(Pos::new(2, 2), BeamTile::Galvo { direction: Direction::Down, powered: Directions::empty() });
    b.set(Pos::new(4, 0), BeamTile::Wall { powered: Directions::empty() });
    let mut cur = b.copy();
    for _ in 0..6 {
        cur = advance_board(&cur);
        assert!(matches!(tile_at_exec(&cur, Pos::new(0, 0)), BeamTile::Emitter { direction: Direction::Right, active: true }));
        assert!(matches!(tile_at_exec(&cur, Pos::new(2, 0)), BeamTile::Splitter { direction: true, .. }));
        assert!(matches!(tile_at_exec(&cur, Pos::new(2, 2)), BeamTile::Galvo { direction: Direction::Down, .. }));
        assert!(matches!(tile_at_exec(&cur, Pos::new(4, 0)), BeamTile::Wall { .. }));
    }
}

#[test]
fn cycles_are_compared_up_to_rotation_and_repetition() {
    let t = vec![true];
    let f = vec![false];
    let short = vec![t.clone(), f.clone()];
    assert!(equivalent_cycles(&short, &short));
    assert!(equivalent_cycles(&[f.clone(), t.clone()], &short));
    assert!(equivalent_cycles(&[t.clone(), f.clone(), t.clone(), f.clone()], &short));
    assert!(equivalent_cycles(&[f.clone(), t.clone(), f.clone(), t.clone()], &short));
    assert!(!equivalent_cycles(&[t.clone(), t.clone()], &short));
    assert!(!equivalent_cycles(&[t.clone(), f.clone(), t.clone()], &short));
    assert!(!equivalent_cycles(&[t.clone()], &short));
    assert!(!equivalent_cycles(&[], &[]));
    assert!(!equivalent_cycles(&[t.clone()], &[]));
}

#[test]
fn a_wired_level_passes_its_cycle_case() {
    let level = wire_level(vec![TestCase::Cycle { lasers: vec![true], detectors: vec![vec![true]] }]);
    let mut sim = TestingSimulationState::new(&wire_board(), level, 100);
    assert_eq!(sim.run(), LevelResult::Success { latency: 3 });
}

#[test]
fn a_wrong_expectation_fails_the_case() {
    let level = wire_level(vec![TestCase::Cycle { lasers: vec![true], detectors: vec![vec![false]] }]);
    let mut sim = TestingSimulationState::new(&wire_board(), level, 100);
    assert_eq!(sim.run(), LevelResult::Failed { case: 0 });
}

#[test]
fn a_short_timer_runs_out() {
    let level = wire_level(vec![TestCase::Cycle { lasers: vec![true], detectors: vec![vec![true]] }]);
    let mut sim = TestingSimulationState::new(&wire_board(), level, 2);
    assert_eq!(sim.run(), LevelResult::OutOfTime);
}

#[test]
fn an_event_case_passes_on_its_pass_output() {
    let level = wire_level(vec![TestCase::Event {
        lasers: vec![true],
        default: EventType::Neutral,
        pass: vec![vec![true]],
        neutral: vec![],
        fail: vec![],
    }]);
    let mut sim = TestingSimulationState::new(&wire_board(), level, 100);
    assert_eq!(sim.run(), LevelResult::Success { latency: 3 });
}

#[test]
fn an_event_case_fails_on_its_fail_output() {
    let level = wire_level(vec![TestCase::Event {
        lasers: vec![false],
        default: EventType::Neutral,
        pass: vec![],
        neutral: vec![],
        fail: vec![vec![false]],
    }]);
    let mut sim = TestingSimulationState::new(&wire_board(), level, 100);
    assert_eq!(sim.run(), LevelResult::Failed { case: 0 });
}

#[test]
fn two_cases_add_their_latencies() {
    let level = wire_level(vec![
        TestCase::Cycle { lasers: vec![true], detectors: vec![vec![true]] },
        TestCase::Cycle { lasers: vec![false], detectors: vec![vec![false]] },
    ]);
    let mut sim = TestingSimulationState::new(&wire_board(), level, 100);
    match sim.run() {
        LevelResult::Success { latency } => assert!(latency > 3),
        other => panic!("expected success, got {other:?}"),
    }
}

#[test]
fn beam_state_starts_with_the_case_lasers_applied() {
    let level = wire_level(vec![TestCase::Cycle { lasers: vec![true], detectors: vec![vec![true]] }]);
    let state = BeamState::new(&wire_board(), Some(level), Some(0));
    assert_eq!(state.bounds, (Pos::new(0, 0), Pos::new(2, 0)));
    assert_eq!(
        tile_at_exec(&state.board, Pos::new(0, 0)),
        BeamTile::Emitter { direction: Direction::Right, active: true }
    );
    let lvl = state.level.as_ref().unwrap();
    assert_eq!(lvl.test_case, 0);
    assert_eq!(lvl.result(), None);
}

#[test]
fn beam_state_without_level_keeps_tiles() {
    let state = BeamState::new(&wire_board(), None, None);
    assert!(state.level.is_none());
    assert_eq!(
        tile_at_exec(&state.board, Pos::new(0, 0)),
        BeamTile::Emitter { direction: Direction::Right, active: false }
    );
    assert_eq!(tile_at_exec(&state.board, Pos::new(2, 0)), BeamTile::Detector { powered: Directions::empty() });
    let empty = BeamState::new(&TileMap::new(), None, None);
    assert_eq!(empty.bounds, (Pos::new(i32::MAX, i32::MAX), Pos::new(i32::MIN, i32::MIN)));
}

#[test]
fn the_hash_sees_only_the_board() {
    let a = BeamState::new(&wire_board(), None, None);
    let b = BeamState::new(&wire_board(), None, None);
    assert_eq!(a.hash(), b.hash());
    let mut c = BeamState::new(&wire_board(), None, None);
    c.tick();
    c.tick();
    let mut d = BeamState::new(&wire_board(), None, None);
    d.tick();
    assert_eq!(c.hash(), d.hash());
}

#[test]
fn ticking_without_level_advances_the_board() {
    let mut m = wire_board();
    m.set(Pos::new(0, 0), Tile::Emitter { rotation: Direction::Right, active: true, id: Some(0) });
    let mut s = BeamState::new(&m, None, None);
    s.tick();
    assert_eq!(
        tile_at_exec(&s.board, Pos::new(1, 0)),
        BeamTile::Beam { direction: Direction::Right, distance: 0 }
    );
}

#[test]
fn price_skips_fixed_and_dynamic_tiles() {
    let level = wire_level(vec![]);
    let mut board = wire_board();
    board.set(Pos::new(1, 0), Tile::Mirror { rotation: false });
    board.set(Pos::new(1, 1), Tile::Wall);
    board.set(Pos::new(5, 5), Tile::Detector { id: None });
    assert_eq!(price(&board, &level), (200 + 100 + 5000, 3));
    assert_eq!(price(&TileMap::new(), &level), (0, 0));
}

#[test]
fn dynamic_element_map_records_id_positions() {
    let map = DynamicElementMap::from_map(&wire_board());
    assert_eq!(map.position(0), Some(Pos::new(0, 0)));
    assert_eq!(map.position(1), Some(Pos::new(2, 0)));
    assert_eq!(map.position(2), None);
    assert_eq!(DynamicElementMap::new().position(0), None);
}

#[test]
fn tile_power_queries() {
    let e = BeamTile::Emitter { direction: Direction::Up, active: true };
    assert!(e.is_powered());
    assert!(e.power_direction().contains(Direction::Up));
    assert!(!e.power_direction().contains(Direction::Down));
    let off = BeamTile::Emitter { direction: Direction::Up, active: false };
    assert!(!off.is_powered());
    assert!(!off.power_direction().any());
    assert!(!BeamTile::Empty.is_powered());
    let w = BeamTile::Wall { powered: Directions::single(Direction::Left) };
    assert!(w.is_powered());
    assert!(!w.power_direction().any());
}

#[test]
fn mutable_accessors_change_the_tile_in_place() {
    let mut s = BeamTile::Splitter { direction: true, powered: Directions::empty() };
    s.splitter_mut().set(Direction::Up, true);
    assert_eq!(s, BeamTile::Splitter { direction: true, powered: Directions::single(Direction::Up) });
    let mut d = BeamTile::Delay { powered: Directions::empty(), last_powered: Directions::empty() };
    {
        let (p, l) = d.delay_mut();
        p.set(Direction::Left, true);
        l.set(Direction::Right, true);
    }
    assert_eq!(
        d,
        BeamTile::Delay { powered: Directions::single(Direction::Left), last_powered: Directions::single(Direction::Right) }
    );
    let mut g = BeamTile::Galvo { direction: Direction::Down, powered: Directions::empty() };
    g.directions_mut().set(Direction::Down, true);
    assert_eq!(g, BeamTile::Galvo { direction: Direction::Down, powered: Directions::single(Direction::Down) });
    let mut m = BeamTile::Mirror { galvoed: Directions::empty(), direction: true, powered: [None, None] };
    {
        let (dir, galvoed, powered) = m.mirror_mut();
        assert!(dir);
        galvoed.set(Direction::Up, true);
        powered[1] = Some(Direction::Left);
    }
    assert_eq!(
        m,
        BeamTile::Mirror { galvoed: Directions::single(Direction::Up), direction: true, powered: [None, Some(Direction::Left)] }
    );
}
