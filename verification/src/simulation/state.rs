use vstd::prelude::*;

use crate::direction::{dir_index, in_bounds, in_bounds_spec, Direction, Directions, Pos};
use crate::level::{dynamic_positions, DynamicElementMap, Level};
use crate::map::{sorted_entries, TileMap};
use crate::simulation::level_state::{setup_spec, LevelState};
use crate::simulation::tick::{advance_board, next_board};
use crate::simulation::tile::BeamTile;
use crate::tile::Tile;
use vstd::std_specs::hash::DefaultHasherAdditionalSpecFns;

verus! {

/// A board being simulated, with the level checker when it runs a level's
/// tests.
pub struct BeamState {
    pub board: TileMap<BeamTile>,
    pub level: Option<LevelState>,
    /// The smallest and largest coordinates of the board's tiles at the start.
    pub bounds: (Pos, Pos),
}

/// The simulation counterpart of a placed tile.
pub open spec fn to_beam(t: Tile) -> BeamTile {
    match t {
        Tile::Empty => BeamTile::Empty,
        Tile::Emitter { rotation, active, .. } => BeamTile::Emitter { direction: rotation, active },
        Tile::Detector { .. } => BeamTile::Detector { powered: Directions::empty_spec() },
        Tile::Delay => BeamTile::Delay {
            powered: Directions::empty_spec(),
            last_powered: Directions::empty_spec(),
        },
        Tile::Mirror { rotation } => BeamTile::Mirror {
            galvoed: Directions::empty_spec(),
            direction: rotation,
            powered: [None, None],
        },
        Tile::Splitter { rotation } => BeamTile::Splitter {
            direction: rotation,
            powered: Directions::empty_spec(),
        },
        Tile::Galvo { rotation } => BeamTile::Galvo {
            direction: rotation,
            powered: Directions::empty_spec(),
        },
        Tile::Wall => BeamTile::Wall { powered: Directions::empty_spec() },
    }
}

fn to_beam_exec(t: Tile) -> (r: BeamTile)
    ensures
        r == to_beam(t),
{
    match t {
        Tile::Empty => BeamTile::Empty,
        Tile::Emitter { rotation, active, .. } => BeamTile::Emitter { direction: rotation, active },
        Tile::Detector { .. } => BeamTile::Detector { powered: Directions::empty() },
        Tile::Delay => BeamTile::Delay {
            powered: Directions::empty(),
            last_powered: Directions::empty(),
        },
        Tile::Mirror { rotation } => BeamTile::Mirror {
            galvoed: Directions::empty(),
            direction: rotation,
            powered: [None, None],
        },
        Tile::Splitter { rotation } => BeamTile::Splitter {
            direction: rotation,
            powered: Directions::empty(),
        },
        Tile::Galvo { rotation } => BeamTile::Galvo {
            direction: rotation,
            powered: Directions::empty(),
        },
        Tile::Wall => BeamTile::Wall { powered: Directions::empty() },
    }
}

/// The board a set of placed tiles starts the simulation as.
pub open spec fn beam_board(tiles: Map<Pos, Tile>) -> Map<Pos, BeamTile> {
    Map::new(|p: Pos| tiles.contains_key(p), |p: Pos| to_beam(tiles[p]))
}

/// The four little-endian bytes of `v`.
pub open spec fn le_bytes(v: u32) -> Seq<u8> {
    seq![v as u8, (v >> 8u32) as u8, (v >> 16u32) as u8, (v >> 24u32) as u8]
}

pub open spec fn dir_byte(d: Direction) -> u8 {
    dir_index(d) as u8
}

pub open spec fn side_byte(s: Option<Direction>) -> u8 {
    match s {
        None => 0,
        Some(d) => (dir_index(d) + 1) as u8,
    }
}

pub open spec fn bool_byte(b: bool) -> u8 {
    if b {
        1
    } else {
        0
    }
}

/// The bytes a tile contributes to the state hash.
pub open spec fn tile_bytes(t: BeamTile) -> Seq<u8> {
    match t {
        BeamTile::Empty => seq![0u8],
        BeamTile::Wall { powered } => seq![1u8, powered.bits_spec()],
        BeamTile::Beam { direction, distance } => seq![2u8, dir_byte(direction), distance],
        BeamTile::CrossBeam { directions } => seq![
            3u8,
            dir_byte(directions[0]),
            dir_byte(directions[1]),
        ],
        BeamTile::Emitter { direction, active } => seq![4u8, dir_byte(direction), bool_byte(active)],
        BeamTile::Detector { powered } => seq![5u8, powered.bits_spec()],
        BeamTile::Delay { powered, last_powered } => seq![
            6u8,
            powered.bits_spec(),
            last_powered.bits_spec(),
        ],
        BeamTile::Mirror { galvoed, direction, powered } => seq![
            7u8,
            galvoed.bits_spec(),
            bool_byte(direction),
            side_byte(powered[0]),
            side_byte(powered[1]),
        ],
        BeamTile::Splitter { direction, powered } => seq![
            8u8,
            bool_byte(direction),
            powered.bits_spec(),
        ],
        BeamTile::Galvo { direction, powered } => seq![9u8, dir_byte(direction), powered.bits_spec()],
    }
}

/// The bytes one board entry contributes to the state hash.
pub open spec fn entry_bytes(p: Pos, t: BeamTile) -> Seq<u8> {
    le_bytes(p.x as u32) + le_bytes(p.y as u32) + tile_bytes(t)
}

/// The writes the state hash is made of: one per entry of the first `n`
/// (position sorted) entries that lies within `bounds`.
pub open spec fn state_writes(es: Seq<(Pos, BeamTile)>, bounds: (Pos, Pos), n: int) -> Seq<Seq<u8>>
    decreases n,
{
    if n <= 0 {
        Seq::empty()
    } else {
        let rest = state_writes(es, bounds, n - 1);
        if in_bounds_spec(es[n - 1].0, bounds.0, bounds.1) {
            rest.push(entry_bytes(es[n - 1].0, es[n - 1].1))
        } else {
            rest
        }
    }
}

/// The hash of the part of `board` within `bounds`.
pub open spec fn state_hash(board: Map<Pos, BeamTile>, bounds: (Pos, Pos)) -> u64 {
    std::collections::hash_map::DefaultHasher::spec_finish(
        state_writes(sorted_entries(board), bounds, sorted_entries(board).len() as int),
    )
}

fn le_bytes_exec(v: u32, out: &mut Vec<u8>)
    ensures
        final(out)@ == old(out)@ + le_bytes(v),
{
    out.push(v as u8);
    out.push((v >> 8u32) as u8);
    out.push((v >> 16u32) as u8);
    out.push((v >> 24u32) as u8);
    assert(out@ =~= old(out)@ + le_bytes(v));
}

fn dir_byte_exec(d: Direction) -> (r: u8)
    ensures
        r == dir_byte(d),
{
    d.index() as u8
}

fn side_byte_exec(s: Option<Direction>) -> (r: u8)
    ensures
        r == side_byte(s),
{
    match s {
        None => 0,
        Some(d) => (d.index() + 1) as u8,
    }
}

fn bool_byte_exec(b: bool) -> (r: u8)
    ensures
        r == bool_byte(b),
{
    if b {
        1
    } else {
        0
    }
}

fn tile_bytes_exec(t: BeamTile) -> (r: Vec<u8>)
    ensures
        r@ == tile_bytes(t),
{
    let r = match t {
        BeamTile::Empty => vec![0u8],
        BeamTile::Wall { powered } => vec![1u8, powered.bits()],
        BeamTile::Beam { direction, distance } => vec![2u8, dir_byte_exec(direction), distance],
        BeamTile::CrossBeam { directions } => vec![
            3u8,
            dir_byte_exec(directions[0]),
            dir_byte_exec(directions[1]),
        ],
        BeamTile::Emitter { direction, active } => vec![
            4u8,
            dir_byte_exec(direction),
            bool_byte_exec(active),
        ],
        BeamTile::Detector { powered } => vec![5u8, powered.bits()],
        BeamTile::Delay { powered, last_powered } => vec![6u8, powered.bits(), last_powered.bits()],
        BeamTile::Mirror { galvoed, direction, powered } => vec![
            7u8,
            galvoed.bits(),
            bool_byte_exec(direction),
            side_byte_exec(powered[0]),
            side_byte_exec(powered[1]),
        ],
        BeamTile::Splitter { direction, powered } => vec![
            8u8,
            bool_byte_exec(direction),
            powered.bits(),
        ],
        BeamTile::Galvo { direction, powered } => vec![
            9u8,
            dir_byte_exec(direction),
            powered.bits(),
        ],
    };
    assert(r@ =~= tile_bytes(t));
    r
}

fn entry_bytes_exec(p: Pos, t: BeamTile) -> (r: Vec<u8>)
    ensures
        r@ == entry_bytes(p, t),
{
    let mut out: Vec<u8> = Vec::new();
    le_bytes_exec(p.x as u32, &mut out);
    le_bytes_exec(p.y as u32, &mut out);
    let mut tb = tile_bytes_exec(t);
    out.append(&mut tb);
    assert(out@ =~= entry_bytes(p, t));
    out
}

impl BeamState {
    pub open spec fn wf(self) -> bool {
        &&& self.board.wf()
        &&& match self.level {
            Some(ls) => ls.wf() && ls.level().tests.cases@.len() > 0,
            None => true,
        }
    }

    /// Creates a new BeamState from a Board by converting Tiles into their
    /// BeamTile counterparts.
    pub fn new(tiles: &TileMap<Tile>, level: Option<Level>, test: Option<usize>) -> (r: BeamState)
        requires
            tiles.wf(),
            test is Some ==> (level matches Some(l) ==> l.tests.cases@.len() > 0),
        ensures
            r.wf(),
            forall|p: Pos| tiles@.contains_key(p) ==> in_bounds_spec(p, r.bounds.0, r.bounds.1),
            tiles@.dom().len() == 0 ==> r.bounds == (
                Pos { x: i32::MAX, y: i32::MAX },
                Pos { x: i32::MIN, y: i32::MIN },
            ),
            tiles@.dom().len() > 0 ==> {
                &&& exists|p: Pos| #[trigger] tiles@.contains_key(p) && p.x == r.bounds.0.x
                &&& exists|p: Pos| #[trigger] tiles@.contains_key(p) && p.y == r.bounds.0.y
                &&& exists|p: Pos| #[trigger] tiles@.contains_key(p) && p.x == r.bounds.1.x
                &&& exists|p: Pos| #[trigger] tiles@.contains_key(p) && p.y == r.bounds.1.y
            },
            match (level, test) {
                (Some(l), Some(o)) => {
                    &&& r.level matches Some(ls)
                    &&& ls.level() == l
                    &&& ls.positions() == dynamic_positions(tiles.entries(), tiles.entries().len() as int)
                    &&& ls.current() == 0
                    &&& ls.offset() == o
                    &&& ls.latency() == 0
                    &&& ls.history() == Map::<u64, usize>::empty()
                    &&& ls.history_states() == Seq::<Seq<bool>>::empty()
                    &&& ls.outcome() == None::<crate::simulation::level_state::LevelResult>
                    &&& r.board@ == setup_spec(l, ls.positions(), 0, o, beam_board(tiles@))
                },
                _ => r.level is None && r.board@ == beam_board(tiles@),
            },
    {
        let mut state_level: Option<LevelState> = match (level, test) {
            (Some(l), Some(o)) => Some(LevelState::new(l, DynamicElementMap::from_map(tiles), o)),
            _ => None,
        };
        let mut lo = Pos { x: i32::MAX, y: i32::MAX };
        let mut hi = Pos { x: i32::MIN, y: i32::MIN };
        let mut board: TileMap<BeamTile> = TileMap::new();
        let n = tiles.len();
        let mut i: usize = 0;
        proof {
            tiles.lemma_entries();
        }
        while i < n
            invariant
                tiles.wf(),
                board.wf(),
                n == tiles.entries().len(),
                i <= n,
                forall|p: Pos| #[trigger]
                    board@.contains_key(p) == (exists|k: int| 0 <= k < i && tiles.entries()[k].0 == p),
                forall|p: Pos| board@.contains_key(p) ==> #[trigger] board@[p] == to_beam(tiles@[p]),
                forall|k: int| 0 <= k < i ==> in_bounds_spec(#[trigger] tiles.entries()[k].0, lo, hi),
                i == 0 ==> lo == (Pos { x: i32::MAX, y: i32::MAX }) && hi == (Pos { x: i32::MIN, y: i32::MIN }),
                i > 0 ==> {
                    &&& exists|k: int| 0 <= k < i && #[trigger] tiles.entries()[k].0.x == lo.x
                    &&& exists|k: int| 0 <= k < i && #[trigger] tiles.entries()[k].0.y == lo.y
                    &&& exists|k: int| 0 <= k < i && #[trigger] tiles.entries()[k].0.x == hi.x
                    &&& exists|k: int| 0 <= k < i && #[trigger] tiles.entries()[k].0.y == hi.y
                },
                forall|k: int| 0 <= k < n ==> tiles@.contains_key(#[trigger] tiles.entries()[k].0) && tiles@[tiles.entries()[k].0] == tiles.entries()[k].1,
            decreases n - i,
        {
            let (pos, tile) = tiles.entry(i);
            let ghost (lo0, hi0) = (lo, hi);
            if pos.x < lo.x {
                lo.x = pos.x;
            }
            if pos.y < lo.y {
                lo.y = pos.y;
            }
            if pos.x > hi.x {
                hi.x = pos.x;
            }
            if pos.y > hi.y {
                hi.y = pos.y;
            }
            board.set(pos, to_beam_exec(tile));
            proof {
                assert(tiles.entries()[i as int].0 == pos);
                assert forall|p: Pos| #[trigger]
                    board@.contains_key(p) == (exists|k: int| 0 <= k < i + 1 && tiles.entries()[k].0 == p) by {
                    if p == pos {
                        assert(tiles.entries()[i as int].0 == p);
                    }
                    if exists|k: int| 0 <= k < i + 1 && tiles.entries()[k].0 == p {
                        let k = choose|k: int| 0 <= k < i + 1 && tiles.entries()[k].0 == p;
                        if k < i {
                            assert(exists|k2: int| 0 <= k2 < i && tiles.entries()[k2].0 == p);
                        }
                    }
                }
                if i > 0 {
                    let k1 = choose|k: int| 0 <= k < i && #[trigger] tiles.entries()[k].0.x == lo0.x;
                    let k2 = choose|k: int| 0 <= k < i && #[trigger] tiles.entries()[k].0.y == lo0.y;
                    let k3 = choose|k: int| 0 <= k < i && #[trigger] tiles.entries()[k].0.x == hi0.x;
                    let k4 = choose|k: int| 0 <= k < i && #[trigger] tiles.entries()[k].0.y == hi0.y;
                    assert(tiles.entries()[(if lo.x == pos.x { i as int } else { k1 })].0.x == lo.x);
                    assert(tiles.entries()[(if lo.y == pos.y { i as int } else { k2 })].0.y == lo.y);
                    assert(tiles.entries()[(if hi.x == pos.x { i as int } else { k3 })].0.x == hi.x);
                    assert(tiles.entries()[(if hi.y == pos.y { i as int } else { k4 })].0.y == hi.y);
                } else {
                    assert(tiles.entries()[0].0.x == lo.x);
                    assert(tiles.entries()[0].0.y == lo.y);
                    assert(tiles.entries()[0].0.x == hi.x);
                    assert(tiles.entries()[0].0.y == hi.y);
                }
            }
            i = i + 1;
        }
        proof {
            tiles.lemma_entries();
            assert(board@ =~= beam_board(tiles@)) by {
                assert forall|p: Pos| board@.contains_key(p) == tiles@.contains_key(p) by {
                    if tiles@.contains_key(p) {
                        let k = choose|k: int| 0 <= k < n && (#[trigger] tiles.entries()[k]).0 == p;
                        assert(tiles.entries()[k].0 == p);
                    }
                }
            }
            assert forall|p: Pos| tiles@.contains_key(p) implies in_bounds_spec(p, lo, hi) by {
                let k = choose|k: int| 0 <= k < n && (#[trigger] tiles.entries()[k]).0 == p;
                assert(in_bounds_spec(tiles.entries()[k].0, lo, hi));
            }
            if tiles@.dom().len() == 0 && n > 0 {
                assert(tiles@.dom().contains(tiles.entries()[0].0));
            }
            if tiles@.dom().len() > 0 {
                if n == 0 {
                    assert(tiles@.dom() =~= Set::<Pos>::empty());
                }
                let k1 = choose|k: int| 0 <= k < n && #[trigger] tiles.entries()[k].0.x == lo.x;
                let k2 = choose|k: int| 0 <= k < n && #[trigger] tiles.entries()[k].0.y == lo.y;
                let k3 = choose|k: int| 0 <= k < n && #[trigger] tiles.entries()[k].0.x == hi.x;
                let k4 = choose|k: int| 0 <= k < n && #[trigger] tiles.entries()[k].0.y == hi.y;
                assert(tiles@.contains_key(tiles.entries()[k1].0));
                assert(tiles@.contains_key(tiles.entries()[k2].0));
                assert(tiles@.contains_key(tiles.entries()[k3].0));
                assert(tiles@.contains_key(tiles.entries()[k4].0));
            }
        }
        if let Some(ls) = &mut state_level {
            ls.setup_case(&mut board);
        }
        BeamState { board, level: state_level, bounds: (lo, hi) }
    }

    /// One simulation step: the level checker (when there is one) looks at
    /// the board first, and a finished run leaves the board as it is.
    pub open spec fn tick_spec(old: BeamState, new: BeamState) -> bool {
        &&& new.bounds == old.bounds
        &&& match old.level {
            None => new.level is None && new.board@ == next_board(old.board@),
            Some(ls) => new.level matches Some(nls) && {
                &&& nls.level() == ls.level()
                &&& nls.positions() == ls.positions()
                &&& nls.offset() == ls.offset()
                &&& exists|mid: Map<Pos, BeamTile>|
                    LevelState::tick_spec(
                        ls,
                        nls,
                        state_hash(old.board@, old.bounds),
                        old.board@,
                        mid,
                    ) && new.board@ == (if nls.outcome() is Some {
                        mid
                    } else {
                        next_board(mid)
                    })
            },
        }
    }

    /// Whether a state may be ticked: the index of the checker's case must
    /// not run past the machine's integers.
    pub open spec fn can_tick(self) -> bool {
        match self.level {
            Some(ls) => ls.current() + ls.offset() < usize::MAX,
            None => true,
        }
    }

    /// Whether the state may be ticked.
    pub fn can_tick_now(&self) -> (r: bool)
        ensures
            r == self.can_tick(),
    {
        match &self.level {
            Some(ls) => ls.test_case() < usize::MAX - ls.test_offset(),
            None => true,
        }
    }

    pub fn tick(&mut self)
        requires
            old(self).wf(),
            old(self).can_tick(),
        ensures
            final(self).wf(),
            BeamState::tick_spec(*old(self), *final(self)),
    {
        if self.level.is_some() {
            let hash = self.hash();
            let mut stop = false;
            match &mut self.level {
                Some(level) => {
                    level.tick(hash, &mut self.board);
                    stop = level.result().is_some();
                },
                None => {},
            }
            // If the level has been completed or failed, don't continue
            // updating the board.
            if stop {
                return ;
            }
        }
        self.board = advance_board(&self.board);
    }

    /// The hash of the part of the board within the starting bounds.
    pub fn hash(&self) -> (r: u64)
        requires
            self.board.wf(),
        ensures
            r == state_hash(self.board@, self.bounds),
    {
        let mut hasher = std::collections::hash_map::DefaultHasher::new();
        let n = self.board.len();
        let mut i: usize = 0;
        proof {
            self.board.lemma_entries_sorted();
        }
        while i < n
            invariant
                n == self.board.entries().len(),
                i <= n,
                hasher@ == state_writes(self.board.entries(), self.bounds, i as int),
            decreases n - i,
        {
            let (pos, tile) = self.board.entry(i);
            if in_bounds(pos, self.bounds) {
                let bytes = entry_bytes_exec(pos, tile);
                std::hash::Hasher::write(&mut hasher, bytes.as_slice());
            }
            i = i + 1;
        }
        std::hash::Hasher::finish(&hasher)
    }
}

} // verus!
