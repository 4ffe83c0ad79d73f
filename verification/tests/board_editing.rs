use std::collections::HashSet;

use beam_logic::direction::{Direction, Directions, Pos};
use beam_logic::game::editing::{
    activate_at, click, erase, fixed, pick, rotate_at, tile_at_pos, tile_props, toggle_emitter,
};
use beam_logic::game::holding::Holding;
use beam_logic::game::selection::{selection_price, SelectMode, SelectionState};
use beam_logic::level::{Level, Tests};
use beam_logic::map::TileMap;
use beam_logic::simulation::tick::{advance_board, tile_at_exec};
use beam_logic::simulation::tile::BeamTile;
use beam_logic::tile::Tile;

fn level_fixing(cells: Vec<Pos>) -> Level {
    Level {
        id: 1,
        name: String::from("Fixed"),
        description: String::new(),
        parents: vec![],
        size: None,
        permanent: cells,
        labels: vec![],
        disabled: None,
        tiles: TileMap::new(),
        tests: Tests { lasers: vec![], detectors: vec![], display: None, hidden: HashSet::new(), cases: vec![] },
    }
}

fn p(x: i32, y: i32) -> Pos {
    Pos::new(x, y)
}

#[test]
fn picking_up_and_putting_back_restores_the_board() {
    let mut m = TileMap::new();
    m.set(p(0, 0), Tile::Mirror { rotation: true });
    m.set(p(1, 0), Tile::Wall);
    let (held, changes, edited) = click(&mut m, Holding::Nothing, p(0, 0), None, true);
    assert_eq!(held, Holding::Tile(Tile::Mirror { rotation: true }));
    assert_eq!(changes, vec![(p(0, 0), Tile::Mirror { rotation: true })]);
    assert!(edited);
    assert_eq!(tile_at_pos(&m, p(0, 0)), Tile::Empty);
    let (held, changes, edited) = click(&mut m, held, p(0, 0), None, true);
    assert_eq!(held, Holding::Nothing);
    assert_eq!(changes, vec![(p(0, 0), Tile::Empty)]);
    assert!(edited);
    assert_eq!(m.len(), 2);
    assert_eq!(tile_at_pos(&m, p(0, 0)), Tile::Mirror { rotation: true });
}

#[test]
fn placing_over_a_tile_swaps_it_unless_told_not_to() {
    let mut m = TileMap::new();
    m.set(p(0, 0), Tile::Wall);
    let (held, _, _) = click(&mut m, Holding::Tile(Tile::Delay), p(0, 0), None, true);
    assert_eq!(held, Holding::Tile(Tile::Wall));
    assert_eq!(tile_at_pos(&m, p(0, 0)), Tile::Delay);
    let (held, _, _) = click(&mut m, Holding::Tile(Tile::Wall), p(0, 0), None, false);
    assert_eq!(held, Holding::Nothing);
    assert_eq!(tile_at_pos(&m, p(0, 0)), Tile::Wall);
}

#[test]
fn fixed_cells_are_left_alone() {
    let level = level_fixing(vec![p(0, 0)]);
    let mut m = TileMap::new();
    m.set(p(0, 0), Tile::Wall);
    let (held, changes, edited) = click(&mut m, Holding::Nothing, p(0, 0), Some(&level), true);
    assert_eq!((held, changes.len(), edited), (Holding::Nothing, 0, false));
    let (held, _, edited) = click(&mut m, Holding::Tile(Tile::Delay), p(0, 0), Some(&level), true);
    assert_eq!((held, edited), (Holding::Tile(Tile::Delay), false));
    assert_eq!(erase(&mut m, p(0, 0), Some(&level)), None);
    assert_eq!(rotate_at(&mut m, p(0, 0), Some(&level), false), None);
    assert_eq!(tile_at_pos(&m, p(0, 0)), Tile::Wall);
    assert!(fixed(Some(&level), p(0, 0)));
    assert!(!fixed(None, p(0, 0)));
}

#[test]
fn paste_skips_fixed_cells_and_tagged_tiles() {
    let level = level_fixing(vec![p(1, 0)]);
    let mut m = TileMap::new();
    m.set(p(2, 0), Tile::Detector { id: Some(4) });
    let items = vec![(p(0, 0), Tile::Wall), (p(1, 0), Tile::Wall), (p(2, 0), Tile::Wall)];
    let (held, changes, edited) = click(&mut m, Holding::Paste(items), p(0, 0), Some(&level), true);
    assert!(edited);
    assert_eq!(changes, vec![(p(0, 0), Tile::Empty)]);
    assert_eq!(held, Holding::Paste(vec![(p(1, 0), Tile::Wall), (p(2, 0), Tile::Wall)]));
    assert_eq!(tile_at_pos(&m, p(0, 0)), Tile::Wall);
    assert_eq!(tile_at_pos(&m, p(1, 0)), Tile::Empty);
    assert_eq!(tile_at_pos(&m, p(2, 0)), Tile::Detector { id: Some(4) });
}

#[test]
fn paste_is_placed_relative_to_the_cursor() {
    let mut m = TileMap::new();
    let items = vec![(p(0, 0), Tile::Wall), (p(1, -1), Tile::Delay)];
    let (held, changes, _) = click(&mut m, Holding::Paste(items), p(5, 5), None, true);
    assert_eq!(held, Holding::Nothing);
    assert_eq!(changes.len(), 2);
    assert_eq!(tile_at_pos(&m, p(5, 5)), Tile::Wall);
    assert_eq!(tile_at_pos(&m, p(6, 4)), Tile::Delay);
}

#[test]
fn erasing_spares_tagged_tiles() {
    let mut m = TileMap::new();
    m.set(p(0, 0), Tile::Wall);
    m.set(p(1, 0), Tile::Emitter { rotation: Direction::Up, active: false, id: Some(1) });
    assert_eq!(erase(&mut m, p(0, 0), None), Some((p(0, 0), Tile::Wall)));
    assert_eq!(erase(&mut m, p(1, 0), None), None);
    assert_eq!(erase(&mut m, p(9, 9), None), None);
    assert_eq!(m.len(), 1);
}

#[test]
fn rotating_and_activating_in_place() {
    let mut m = TileMap::new();
    m.set(p(0, 0), Tile::Galvo { rotation: Direction::Up });
    assert_eq!(rotate_at(&mut m, p(0, 0), None, false), Some((p(0, 0), Tile::Galvo { rotation: Direction::Up })));
    assert_eq!(tile_at_pos(&m, p(0, 0)), Tile::Galvo { rotation: Direction::Right });
    rotate_at(&mut m, p(0, 0), None, true);
    assert_eq!(tile_at_pos(&m, p(0, 0)), Tile::Galvo { rotation: Direction::Up });
    rotate_at(&mut m, p(3, 3), None, false);
    assert_eq!(m.len(), 1);
    m.set(p(1, 1), Tile::Emitter { rotation: Direction::Left, active: false, id: None });
    activate_at(&mut m, p(1, 1));
    assert_eq!(tile_at_pos(&m, p(1, 1)), Tile::Emitter { rotation: Direction::Left, active: true, id: None });
}

#[test]
fn toggling_an_emitter_of_a_running_board() {
    let mut b: TileMap<BeamTile> = TileMap::new();
    b.set(p(0, 0), BeamTile::Emitter { direction: Direction::Up, active: false });
    b.set(p(1, 0), BeamTile::Wall { powered: Directions::empty() });
    toggle_emitter(&mut b, p(0, 0));
    toggle_emitter(&mut b, p(1, 0));
    assert_eq!(tile_at_exec(&b, p(0, 0)), BeamTile::Emitter { direction: Direction::Up, active: true });
    assert_eq!(tile_at_exec(&b, p(1, 0)), BeamTile::Wall { powered: Directions::empty() });
    let b1 = advance_board(&b);
    assert!(matches!(tile_at_exec(&b1, p(0, 1)), BeamTile::Beam { direction: Direction::Up, .. }));
}

#[test]
fn picking_copies_without_ids() {
    assert_eq!(pick(Tile::Empty), None);
    assert_eq!(pick(Tile::Detector { id: Some(3) }), Some(Holding::Tile(Tile::Detector { id: None })));
    assert_eq!(Tile::Wall.generic(), Tile::Wall);
    assert_eq!(tile_props(None, &Tile::Detector { id: Some(3) }, p(0, 0)), (false, false, true));
    assert_eq!(tile_props(None, &Tile::Empty, p(0, 0)), (true, false, false));
}

#[test]
fn drag_selections_replace_add_and_remove() {
    let mut s = SelectionState::new();
    s.begin(p(0, 0));
    s.begin(p(9, 9));
    assert_eq!(s.selection_start(), Some(p(0, 0)));
    s.update_working(p(-1, 1));
    assert_eq!(s.working_selection(), Some((p(-1, 0), p(0, 1))));
    s.release(None, None, SelectMode::Replace);
    assert_eq!(s.selection_start(), None);
    let mut cells = s.selected();
    cells.sort_by_key(|c| (c.x, c.y));
    assert_eq!(cells, vec![p(-1, 0), p(-1, 1), p(0, 0), p(0, 1)]);

    s.begin(p(0, 1));
    s.update_working(p(1, 1));
    s.release(None, None, SelectMode::Add);
    assert_eq!(s.selected().len(), 5);
    assert!(s.contains(p(1, 1)));

    s.begin(p(-1, 0));
    s.update_working(p(-1, 1));
    s.release(None, None, SelectMode::Remove);
    let mut cells = s.selected();
    cells.sort_by_key(|c| (c.x, c.y));
    assert_eq!(cells, vec![p(0, 0), p(0, 1), p(1, 1)]);

    s.deselect();
    assert!(s.selected().is_empty());
}

#[test]
fn selections_skip_fixed_cells_and_the_outside() {
    let level = level_fixing(vec![p(0, 0)]);
    let mut s = SelectionState::new();
    s.begin(p(-1, -1));
    s.update_working(p(1, 1));
    s.release(Some(&level), Some((2, 2)), SelectMode::Replace);
    let mut cells = s.selected();
    cells.sort_by_key(|c| (c.x, c.y));
    assert_eq!(cells, vec![p(0, 1), p(1, 0), p(1, 1)]);
    assert!(s.in_selection(p(1, 1), Some(&level), Some((2, 2)), false, false, false));
    assert!(!s.in_selection(p(0, 0), Some(&level), Some((2, 2)), false, false, false));
}

#[test]
fn deleting_and_cutting_a_selection() {
    let mut m = TileMap::new();
    m.set(p(0, 0), Tile::Wall);
    m.set(p(1, 0), Tile::Detector { id: Some(2) });
    m.set(p(5, 5), Tile::Delay);
    let mut s = SelectionState::new();
    s.begin(p(0, 0));
    s.update_working(p(1, 0));
    s.release(None, None, SelectMode::Replace);
    let (list, cut) = s.copy(&mut m, false, p(1, 0));
    assert!(cut.is_empty());
    let mut list = list;
    list.sort_by_key(|(c, _)| (c.x, c.y));
    assert_eq!(list, vec![(p(-1, 0), Tile::Wall), (p(0, 0), Tile::Detector { id: None })]);
    assert_eq!(m.len(), 3);
    assert!(s.selected().is_empty());

    s.begin(p(0, 0));
    s.update_working(p(1, 0));
    s.release(None, None, SelectMode::Replace);
    let (list, cut) = s.copy(&mut m, true, p(0, 0));
    assert_eq!(list.len(), 2);
    assert_eq!(cut.len(), 2);
    assert_eq!(m.len(), 1);

    m.set(p(0, 0), Tile::Wall);
    s.begin(p(0, 0));
    s.update_working(p(5, 5));
    s.release(None, None, SelectMode::Replace);
    let old = s.delete(&mut m);
    assert_eq!(old.len(), 36);
    assert_eq!(m.len(), 0);
}

#[test]
fn selection_price_sums_the_rectangle() {
    let mut m = TileMap::new();
    m.set(p(0, 0), Tile::Wall);
    m.set(p(1, 1), Tile::Detector { id: None });
    m.set(p(3, 3), Tile::Delay);
    assert_eq!(selection_price(&m, p(0, 0), p(1, 1)), 5100);
    assert_eq!(selection_price(&m, p(0, 0), p(3, 3)), 5600);
    assert_eq!(selection_price(&m, p(2, 2), p(1, 1)), 0);
}
