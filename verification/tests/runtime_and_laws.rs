use beam_logic::direction::{Direction, Directions, Pos};
use beam_logic::map::TileMap;
use beam_logic::simulation::runtime::asynchronous::{RunnerStep, RuntimeConfig};
use beam_logic::simulation::tick::{advance_board, tile_at_exec};
use beam_logic::simulation::tile::BeamTile;

#[test]
fn the_runner_waits_ticks_and_stops() {
    let mut c = RuntimeConfig::new();
    assert_eq!(c.time_per_tick, 50_000_000);
    assert_eq!(c.next_step(false), RunnerStep::Wait);
    assert_eq!(c.next_step(true), RunnerStep::Stop);
    assert_eq!(c.sleep_after(10), None);
    c.running = true;
    assert_eq!(c.next_step(false), RunnerStep::Tick);
    assert_eq!(c.next_step(true), RunnerStep::Stop);
    assert_eq!(c.sleep_after(10_000_000), Some(40_000_000));
    assert_eq!(c.sleep_after(60_000_000), Some(0));
}

#[test]
fn a_powered_galvo_turns_the_mirror_it_faces() {
    let mut b: TileMap<BeamTile> = TileMap::new();
    b.set(Pos::new(0, 0), BeamTile::Galvo { direction: Direction::Up, powered: Directions::single(Direction::Right) });
    b.set(Pos::new(0, 1), BeamTile::Mirror { galvoed: Directions::empty(), direction: false, powered: [None, None] });
    let b1 = advance_board(&b);
    match tile_at_exec(&b1, Pos::new(0, 1)) {
        BeamTile::Mirror { galvoed, direction, .. } => {
            assert!(galvoed.contains(Direction::Down));
            assert!(!direction);
        },
        other => panic!("expected a mirror, got {other:?}"),
    }
}

#[test]
fn a_galvo_fed_from_its_back_does_nothing() {
    let mut b: TileMap<BeamTile> = TileMap::new();
    b.set(Pos::new(0, 0), BeamTile::Galvo { direction: Direction::Up, powered: Directions::single(Direction::Down) });
    b.set(Pos::new(0, 1), BeamTile::Mirror { galvoed: Directions::single(Direction::Down), direction: false, powered: [None, None] });
    let b1 = advance_board(&b);
    match tile_at_exec(&b1, Pos::new(0, 1)) {
        BeamTile::Mirror { galvoed, .. } => assert!(!galvoed.any()),
        other => panic!("expected a mirror, got {other:?}"),
    }
}

#[test]
fn a_delay_remembers_the_last_tick() {
    let mut b: TileMap<BeamTile> = TileMap::new();
    b.set(
        Pos::new(0, 0),
        BeamTile::Delay { powered: Directions::single(Direction::Left), last_powered: Directions::empty() },
    );
    let b1 = advance_board(&b);
    match tile_at_exec(&b1, Pos::new(0, 0)) {
        BeamTile::Delay { last_powered, .. } => assert_eq!(last_powered, Directions::single(Direction::Left)),
        other => panic!("expected a delay, got {other:?}"),
    }
    let b2 = advance_board(&b1);
    assert!(matches!(tile_at_exec(&b2, Pos::new(-1, 0)), BeamTile::Beam { direction: Direction::Left, .. }));
}
