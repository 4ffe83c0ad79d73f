use beam_logic::direction::{Direction, Directions, Pos};
use beam_logic::map::TileMap;
use beam_logic::tile::{Tile, TileType};

fn all_tiles() -> Vec<Tile> {
    let mut v = vec![
        Tile::Empty,
        Tile::Delay,
        Tile::Wall,
        Tile::Detector { id: None },
        Tile::Detector { id: Some(3) },
        Tile::Mirror { rotation: false },
        Tile::Mirror { rotation: true },
        Tile::Splitter { rotation: false },
        Tile::Splitter { rotation: true },
    ];
    for d in Direction::all() {
        v.push(Tile::Galvo { rotation: d });
        v.push(Tile::Emitter { rotation: d, active: true, id: Some(1) });
        v.push(Tile::Emitter { rotation: d, active: false, id: None });
    }
    v
}

#[test]
fn rotating_four_times_gives_the_tile_back() {
    for t in all_tiles() {
        assert_eq!(t.rotate().rotate().rotate().rotate(), t);
    }
}

#[test]
fn rotate_reverse_undoes_rotate() {
    for t in all_tiles() {
        assert_eq!(t.rotate().rotate_reverse(), t);
        assert_eq!(t.rotate_reverse().rotate(), t);
    }
}

#[test]
fn flips_are_involutions() {
    for t in all_tiles() {
        assert_eq!(t.flip_horizontal().flip_horizontal(), t);
        assert_eq!(t.flip_vertical().flip_vertical(), t);
    }
}

#[test]
fn activate_toggles_emitters_only() {
    for t in all_tiles() {
        assert_eq!(t.activate().activate(), t);
    }
    let e = Tile::Emitter { rotation: Direction::Up, active: false, id: Some(2) };
    assert_eq!(e.activate(), Tile::Emitter { rotation: Direction::Up, active: true, id: Some(2) });
    assert_eq!(Tile::Wall.activate(), Tile::Wall);
}

#[test]
fn transforms_keep_type_and_id() {
    for t in all_tiles() {
        if t.is_empty() {
            continue;
        }
        for u in [t.rotate(), t.rotate_reverse(), t.flip_horizontal(), t.flip_vertical(), t.activate()] {
            assert_eq!(u.as_type(), t.as_type());
            assert_eq!(u.id(), t.id());
            assert_eq!(u.price(), t.price());
        }
    }
}

#[test]
fn rotation_examples() {
    assert_eq!(Tile::Mirror { rotation: false }.rotate(), Tile::Mirror { rotation: true });
    assert_eq!(Tile::Galvo { rotation: Direction::Up }.rotate(), Tile::Galvo { rotation: Direction::Right });
    assert_eq!(
        Tile::Galvo { rotation: Direction::Up }.rotate_reverse(),
        Tile::Galvo { rotation: Direction::Left }
    );
    assert_eq!(Tile::Delay.rotate(), Tile::Delay);
}

#[test]
fn prices_names_and_types() {
    assert_eq!(Tile::Empty.price(), 0);
    assert_eq!(Tile::Detector { id: None }.price(), 5000);
    assert_eq!(Tile::Emitter { rotation: Direction::Up, active: false, id: None }.price(), 1000);
    assert_eq!(Tile::Delay.price(), 500);
    assert_eq!(Tile::Mirror { rotation: true }.price(), 200);
    assert_eq!(Tile::Splitter { rotation: true }.price(), 300);
    assert_eq!(Tile::Galvo { rotation: Direction::Down }.price(), 500);
    assert_eq!(Tile::Wall.price(), 100);
    assert_eq!(Tile::Galvo { rotation: Direction::Down }.name(), "Galvo");
    assert_eq!(Tile::Wall.name(), "Wall");
    assert_eq!(Tile::Splitter { rotation: false }.as_type(), TileType::Splitter);
    assert_eq!(Tile::Detector { id: Some(9) }.id(), Some(9));
    assert_eq!(Tile::Wall.id(), None);
    assert!(Tile::Empty.is_empty());
    assert!(!Tile::Wall.is_empty());
    assert_eq!(Tile::default(), Tile::Empty);
}

#[test]
fn palette_lists_each_type_once() {
    let d = Tile::defaults();
    let mut types: Vec<TileType> = d.iter().map(|t| t.as_type()).collect();
    types.dedup();
    assert_eq!(types.len(), 7);
    assert!(d.iter().all(|t| !t.is_empty()));
}

#[test]
fn directions_rotate_and_offset() {
    assert_eq!(Direction::Up.rotate(), Direction::Right);
    assert_eq!(Direction::Left.rotate(), Direction::Up);
    assert_eq!(Direction::Up.opposite(), Direction::Down);
    assert_eq!(Direction::Up.offset(Pos::new(0, 0)), Pos::new(0, 1));
    assert_eq!(Direction::Left.offset(Pos::new(0, 0)), Pos::new(-1, 0));
    assert!(Direction::Up.is_perpendicular(Direction::Left));
    assert!(!Direction::Up.is_perpendicular(Direction::Down));
    let s = Directions::single(Direction::Up).union(Directions::single(Direction::Left));
    assert!(s.contains(Direction::Up) && s.contains(Direction::Left) && !s.contains(Direction::Down));
    assert!(!s.odd_count());
    assert_eq!(s.iter(), vec![Direction::Up, Direction::Left]);
}

#[test]
fn tile_map_keeps_positions_sorted_and_unique() {
    let mut m: TileMap<Tile> = TileMap::new();
    m.set(Pos::new(2, 0), Tile::Wall);
    m.set(Pos::new(-1, 5), Tile::Delay);
    m.set(Pos::new(2, -3), Tile::Wall);
    m.set(Pos::new(2, 0), Tile::Delay);
    assert_eq!(m.len(), 3);
    assert_eq!(m.entry(0), (Pos::new(-1, 5), Tile::Delay));
    assert_eq!(m.entry(1), (Pos::new(2, -3), Tile::Wall));
    assert_eq!(m.entry(2), (Pos::new(2, 0), Tile::Delay));
    assert_eq!(m.get(Pos::new(2, 0)), Some(Tile::Delay));
    m.remove(Pos::new(2, 0));
    assert_eq!(m.get(Pos::new(2, 0)), None);
    assert_eq!(m.len(), 2);
    m.remove(Pos::new(7, 7));
    assert_eq!(m.len(), 2);
}
