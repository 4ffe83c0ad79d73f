use vstd::prelude::*;

use crate::direction::Pos;
use crate::game::holding::Holding;
use crate::level::Level;
use crate::map::{get_or, TileMap};
use crate::misc::contains_pos;
use crate::simulation::tick::tile_at;
use crate::simulation::tile::BeamTile;
use crate::tile::{activate_tile, id_spec, rotate_reverse_tile, rotate_tile, Tile};

verus! {

/// The tile at `p`, `Empty` where nothing is placed.
pub open spec fn tile_of(m: Map<Pos, Tile>, p: Pos) -> Tile {
    get_or(m, p, Tile::Empty)
}

/// The level, if any, behind an optional reference.
pub open spec fn level_of(level: Option<&Level>) -> Option<Level> {
    match level {
        Some(l) => Some(*l),
        None => None,
    }
}

/// Whether the level fixes the cell `p`.
pub open spec fn is_fixed(level: Option<Level>, p: Pos) -> bool {
    level matches Some(l) && l.permanent@.contains(p)
}

/// The board with `t` placed at `p`; placing nothing clears the cell.
pub open spec fn stored(m: Map<Pos, Tile>, p: Pos, t: Tile) -> Map<Pos, Tile> {
    if t is Empty {
        m.remove(p)
    } else {
        m.insert(p, t)
    }
}

/// The tile without the id that ties it to a level's tests.
pub open spec fn generic_tile(t: Tile) -> Tile {
    match t {
        Tile::Emitter { rotation, active, .. } => Tile::Emitter { rotation, active, id: None },
        Tile::Detector { .. } => Tile::Detector { id: None },
        x => x,
    }
}

/// The cell `at` moved by `off`.
pub open spec fn shifted(off: Pos, at: Pos) -> Pos {
    Pos { x: (off.x + at.x) as i32, y: (off.y + at.y) as i32 }
}

/// Whether every offset of `items` moved by `at` stays on the grid.
pub open spec fn fits(items: Seq<(Pos, Tile)>, at: Pos) -> bool {
    forall|i: int|
        0 <= i < items.len() ==> i32::MIN <= (#[trigger] items[i]).0.x + at.x <= i32::MAX
            && i32::MIN <= items[i].0.y + at.y <= i32::MAX
}

/// Pasting the first `n` of `items` at `at`: the board after, the cells
/// overwritten (with what they held), and the items that could not be placed
/// because their cell is fixed or holds a tile with an id.
pub open spec fn paste_from(
    m: Map<Pos, Tile>,
    level: Option<Level>,
    at: Pos,
    items: Seq<(Pos, Tile)>,
    n: int,
) -> (Map<Pos, Tile>, Seq<(Pos, Tile)>, Seq<(Pos, Tile)>)
    decreases n,
{
    if n <= 0 {
        (m, Seq::empty(), Seq::empty())
    } else {
        let (m1, old, next) = paste_from(m, level, at, items, n - 1);
        let p = shifted(items[n - 1].0, at);
        let cur = tile_of(m1, p);
        if is_fixed(level, p) || id_spec(cur) is Some {
            (m1, old, next.push(items[n - 1]))
        } else {
            (stored(m1, p, items[n - 1].1), old.push((p, cur)), next)
        }
    }
}

/// Places `t` at `p`; placing nothing clears the cell.
fn store(tiles: &mut TileMap<Tile>, p: Pos, t: Tile)
    requires
        old(tiles).wf(),
    ensures
        final(tiles).wf(),
        final(tiles)@ == stored(old(tiles)@, p, t),
{
    if t.is_empty() {
        tiles.remove(p);
    } else {
        tiles.set(p, t);
    }
}

/// The tile at `p`, `Empty` where nothing is placed.
pub fn tile_at_pos(tiles: &TileMap<Tile>, p: Pos) -> (r: Tile)
    requires
        tiles.wf(),
    ensures
        r == tile_of(tiles@, p),
{
    match tiles.get(p) {
        Some(t) => t,
        None => Tile::Empty,
    }
}

/// Whether the level fixes the cell `p`.
pub fn fixed(level: Option<&Level>, p: Pos) -> (r: bool)
    ensures
        r == is_fixed(level_of(level), p),
{
    match level {
        Some(l) => contains_pos(&l.permanent, p),
        None => false,
    }
}

impl Tile {
    /// A copy of the tile that is not tied to a level's tests: emitters and
    /// detectors lose their id.
    pub fn generic(self) -> (r: Tile)
        ensures
            r == generic_tile(self),
    {
        match self {
            Tile::Emitter { rotation, active, .. } => Tile::Emitter { rotation, active, id: None },
            Tile::Detector { .. } => Tile::Detector { id: None },
            x => x,
        }
    }
}

/// What the cursor shows about the cell `pos`: whether it is empty, whether
/// the level fixes it, and whether its tile carries an id.
pub fn tile_props(level: Option<&Level>, tile: &Tile, pos: Pos) -> (r: (bool, bool, bool))
    ensures
        r == (*tile is Empty, is_fixed(level_of(level), pos), id_spec(*tile) is Some),
{
    (tile.is_empty(), fixed(level, pos), tile.id().is_some())
}

/// Pastes `items` at `at`, skipping the items whose cell is fixed or holds a
/// tile with an id. Returns the cells overwritten, with what they held, and
/// the skipped items.
fn paste(tiles: &mut TileMap<Tile>, level: Option<&Level>, at: Pos, items: Vec<(Pos, Tile)>) -> (r:
    (Vec<(Pos, Tile)>, Vec<(Pos, Tile)>))
    requires
        old(tiles).wf(),
        fits(items@, at),
    ensures
        final(tiles).wf(),
        ({
            let (m, old_cells, next) = paste_from(
                old(tiles)@,
                level_of(level),
                at,
                items@,
                items@.len() as int,
            );
            final(tiles)@ == m && r.0@ == old_cells && r.1@ == next
        }),
{
    let mut old_cells: Vec<(Pos, Tile)> = Vec::new();
    let mut next: Vec<(Pos, Tile)> = Vec::new();
    let ghost m0 = tiles@;
    let mut i: usize = 0;
    while i < items.len()
        invariant
            tiles.wf(),
            fits(items@, at),
            i <= items@.len(),
            ({
                let (m, o, n) = paste_from(m0, level_of(level), at, items@, i as int);
                tiles@ == m && old_cells@ == o && next@ == n
            }),
        decreases items@.len() - i,
    {
        let (off, t) = items[i];
        assert(i32::MIN <= items@[i as int].0.x + at.x <= i32::MAX);
        let p = Pos { x: off.x + at.x, y: off.y + at.y };
        let cur = tile_at_pos(tiles, p);
        if fixed(level, p) || cur.id().is_some() {
            next.push((off, t));
        } else {
            old_cells.push((p, cur));
            store(tiles, p, t);
        }
        i = i + 1;
    }
    (old_cells, next)
}

/// A left click at `pos` with `holding` on the cursor: with nothing held the
/// tile there is picked up; a held tile is placed, and the tile it replaces is
/// picked up unless `keep_old` is false; held tiles are pasted where they
/// may go, and those that may not stay held. Fixed cells are never changed.
/// Returns what is held afterwards, the cells changed (with what they held
/// before), and whether the board was edited, which stops a running
/// simulation.
pub fn click(
    tiles: &mut TileMap<Tile>,
    holding: Holding,
    pos: Pos,
    level: Option<&Level>,
    keep_old: bool,
) -> (r: (Holding, Vec<(Pos, Tile)>, bool))
    requires
        old(tiles).wf(),
        holding matches Holding::Paste(items) ==> fits(items@, pos),
    ensures
        final(tiles).wf(),
        ({
            let m = old(tiles)@;
            let tile = tile_of(m, pos);
            let permanent = is_fixed(level_of(level), pos);
            match holding {
                Holding::Nothing => if !(tile is Empty) && !permanent {
                    &&& final(tiles)@ == m.remove(pos)
                    &&& r.0 == Holding::Tile(tile)
                    &&& r.1@ == seq![(pos, tile)]
                    &&& r.2
                } else {
                    &&& final(tiles)@ == m
                    &&& r.0 == Holding::Nothing
                    &&& r.1@.len() == 0
                    &&& !r.2
                },
                Holding::Tile(t) => if !permanent {
                    &&& final(tiles)@ == stored(m, pos, t)
                    &&& r.0 == (if !(tile is Empty) && keep_old {
                        Holding::Tile(tile)
                    } else {
                        Holding::Nothing
                    })
                    &&& r.1@ == seq![(pos, tile)]
                    &&& r.2
                } else {
                    &&& final(tiles)@ == m
                    &&& r.0 == Holding::Tile(t)
                    &&& r.1@.len() == 0
                    &&& !r.2
                },
                Holding::Paste(items) => {
                    let (m2, old_cells, next) = paste_from(
                        m,
                        level_of(level),
                        pos,
                        items@,
                        items@.len() as int,
                    );
                    &&& final(tiles)@ == m2
                    &&& r.1@ == old_cells
                    &&& (if next.len() > 0 {
                        r.0 matches Holding::Paste(v) && v@ == next
                    } else {
                        r.0 is Nothing
                    })
                    &&& r.2
                },
            }
        }),
{
    let tile = tile_at_pos(tiles, pos);
    let permanent = fixed(level, pos);
    match holding {
        Holding::Nothing => {
            if !tile.is_empty() && !permanent {
                tiles.remove(pos);
                (Holding::Tile(tile), vec![(pos, tile)], true)
            } else {
                (Holding::Nothing, Vec::new(), false)
            }
        },
        Holding::Tile(t) => {
            if !permanent {
                store(tiles, pos, t);
                let next = if !tile.is_empty() && keep_old {
                    Holding::Tile(tile)
                } else {
                    Holding::Nothing
                };
                (next, vec![(pos, tile)], true)
            } else {
                (Holding::Tile(t), Vec::new(), false)
            }
        },
        Holding::Paste(items) => {
            let (old_cells, next) = paste(tiles, level, pos, items);
            if next.len() > 0 {
                (Holding::Paste(next), old_cells, true)
            } else {
                (Holding::Nothing, old_cells, true)
            }
        },
    }
}

/// Erasing with the right button: the tile at `pos` is removed unless the
/// cell is empty, fixed, or holds a tile with an id. Returns the cell and
/// what it held when something was removed.
pub fn erase(tiles: &mut TileMap<Tile>, pos: Pos, level: Option<&Level>) -> (r: Option<(Pos, Tile)>)
    requires
        old(tiles).wf(),
    ensures
        final(tiles).wf(),
        ({
            let tile = tile_of(old(tiles)@, pos);
            if !(tile is Empty) && !is_fixed(level_of(level), pos) && id_spec(tile) is None {
                final(tiles)@ == old(tiles)@.remove(pos) && r == Some((pos, tile))
            } else {
                final(tiles)@ == old(tiles)@ && r is None
            }
        }),
{
    let tile = tile_at_pos(tiles, pos);
    let (empty, permanent, dynamic) = tile_props(level, &tile, pos);
    if !permanent && !empty && !dynamic {
        tiles.remove(pos);
        Some((pos, tile))
    } else {
        None
    }
}

/// Turns the tile at `pos` clockwise, or counterclockwise when `reverse`,
/// unless the level fixes the cell. Returns the cell and what it held when it
/// was turned.
pub fn rotate_at(tiles: &mut TileMap<Tile>, pos: Pos, level: Option<&Level>, reverse: bool) -> (r:
    Option<(Pos, Tile)>)
    requires
        old(tiles).wf(),
    ensures
        final(tiles).wf(),
        ({
            let tile = tile_of(old(tiles)@, pos);
            if !is_fixed(level_of(level), pos) {
                &&& final(tiles)@ == stored(
                    old(tiles)@,
                    pos,
                    if reverse {
                        rotate_reverse_tile(tile)
                    } else {
                        rotate_tile(tile)
                    },
                )
                &&& r == Some((pos, tile))
            } else {
                final(tiles)@ == old(tiles)@ && r is None
            }
        }),
{
    let tile = tile_at_pos(tiles, pos);
    if fixed(level, pos) {
        return None;
    }
    let turned = if reverse {
        tile.rotate_reverse()
    } else {
        tile.rotate()
    };
    store(tiles, pos, turned);
    Some((pos, tile))
}

/// Switches the emitter at `pos` on or off while no simulation runs.
/// Returns the cell and what it held.
pub fn activate_at(tiles: &mut TileMap<Tile>, pos: Pos) -> (r: (Pos, Tile))
    requires
        old(tiles).wf(),
    ensures
        final(tiles).wf(),
        final(tiles)@ == stored(old(tiles)@, pos, activate_tile(tile_of(old(tiles)@, pos))),
        r == (pos, tile_of(old(tiles)@, pos)),
{
    let tile = tile_at_pos(tiles, pos);
    store(tiles, pos, tile.activate());
    (pos, tile)
}

/// Switches the emitter at `pos` of a running sandbox simulation on or off;
/// other cells are left alone.
pub fn toggle_emitter(board: &mut TileMap<BeamTile>, pos: Pos)
    requires
        old(board).wf(),
    ensures
        final(board).wf(),
        match tile_at(old(board)@, pos) {
            BeamTile::Emitter { direction, active } => final(board)@ == old(board)@.insert(
                pos,
                BeamTile::Emitter { direction, active: !active },
            ),
            _ => final(board)@ == old(board)@,
        },
{
    if let Some(BeamTile::Emitter { direction, active }) = board.get(pos) {
        board.set(pos, BeamTile::Emitter { direction, active: !active });
    }
}

/// What pressing the pick key over a tile puts on the cursor: a copy of the
/// tile that is not tied to a level's tests, or nothing over an empty cell.
pub fn pick(tile: Tile) -> (r: Option<Holding>)
    ensures
        if tile is Empty {
            r is None
        } else {
            r == Some(Holding::Tile(generic_tile(tile)))
        },
{
    if tile.is_empty() {
        None
    } else {
        Some(Holding::Tile(tile.generic()))
    }
}

proof fn lemma_paste_spares(
    m: Map<Pos, Tile>,
    level: Option<Level>,
    at: Pos,
    items: Seq<(Pos, Tile)>,
    n: int,
    p: Pos,
)
    requires
        is_fixed(level, p) || id_spec(tile_of(m, p)) is Some,
    ensures
        tile_of(paste_from(m, level, at, items, n).0, p) == tile_of(m, p),
    decreases n,
{
    if n > 0 {
        lemma_paste_spares(m, level, at, items, n - 1, p);
    }
}

/// Pasting never changes a cell that the level fixes or that holds a tile
/// with an id (an emitter or detector the level's tests use).
pub proof fn law_paste_spares_fixed_and_tagged(
    m: Map<Pos, Tile>,
    level: Option<Level>,
    at: Pos,
    items: Seq<(Pos, Tile)>,
)
    ensures
        forall|p: Pos|
            (is_fixed(level, p) || id_spec(tile_of(m, p)) is Some) ==> #[trigger] tile_of(
                paste_from(m, level, at, items, items.len() as int).0,
                p,
            ) == tile_of(m, p),
{
    assert forall|p: Pos|
        (is_fixed(level, p) || id_spec(tile_of(m, p)) is Some) implies #[trigger] tile_of(
            paste_from(m, level, at, items, items.len() as int).0,
            p,
        ) == tile_of(m, p) by {
        lemma_paste_spares(m, level, at, items, items.len() as int, p);
    }
}

/// Picking a tile up with an empty cursor and clicking the same cell again
/// puts it back: the board is as it was.
pub proof fn law_pick_up_and_put_back(m: Map<Pos, Tile>, pos: Pos)
    requires
        !(tile_of(m, pos) is Empty),
    ensures
        stored(m.remove(pos), pos, tile_of(m, pos)) == m,
{
    assert(stored(m.remove(pos), pos, tile_of(m, pos)) =~= m);
}

/// Whether the items of a copied group all have different offsets.
pub open spec fn distinct_offsets(items: Seq<(Pos, Tile)>) -> bool {
    forall|i: int, j: int| 0 <= i < j < items.len() ==> (#[trigger] items[i]).0 != (#[trigger] items[j]).0
}

/// Whether item `i` may be placed: its cell is neither fixed by the level
/// nor holds a tile with an id on the board `m`.
pub open spec fn placeable(m: Map<Pos, Tile>, level: Option<Level>, at: Pos, items: Seq<(Pos, Tile)>, i: int) -> bool {
    let p = shifted(items[i].0, at);
    !is_fixed(level, p) && id_spec(tile_of(m, p)) is None
}

proof fn lemma_paste_places(
    m: Map<Pos, Tile>,
    level: Option<Level>,
    at: Pos,
    items: Seq<(Pos, Tile)>,
    n: int,
)
    requires
        fits(items, at),
        distinct_offsets(items),
        0 <= n <= items.len(),
    ensures
        ({
            let (m2, old, next) = paste_from(m, level, at, items, n);
            &&& forall|p: Pos|
                (forall|j: int| 0 <= j < n ==> shifted(#[trigger] items[j].0, at) != p) ==> tile_of(m2, p)
                    == tile_of(m, p)
            &&& forall|i: int|
                0 <= i < n && #[trigger] placeable(m, level, at, items, i) ==> tile_of(
                    m2,
                    shifted(items[i].0, at),
                ) == items[i].1
            &&& forall|k: int|
                0 <= k < next.len() ==> exists|j: int|
                    0 <= j < n && (#[trigger] next[k]) == #[trigger] items[j] && !placeable(m, level, at, items, j)
        }),
    decreases n,
{
    if n > 0 {
        lemma_paste_places(m, level, at, items, n - 1);
        let (m1, old, next) = paste_from(m, level, at, items, n - 1);
        let p = shifted(items[n - 1].0, at);
        assert forall|j: int| 0 <= j < n - 1 implies shifted(#[trigger] items[j].0, at) != p by {
            assert(items[j].0 != items[n - 1].0);
        }
        assert(tile_of(m1, p) == tile_of(m, p));
        let (m2, old2, next2) = paste_from(m, level, at, items, n);
        assert forall|i: int|
            0 <= i < n && #[trigger] placeable(m, level, at, items, i) implies tile_of(
                m2,
                shifted(items[i].0, at),
            ) == items[i].1 by {
            if i < n - 1 {
                assert(items[i].0 != items[n - 1].0);
                assert(shifted(items[i].0, at) != p);
            }
        }
        assert forall|k: int|
            0 <= k < next2.len() implies exists|j: int|
                0 <= j < n && (#[trigger] next2[k]) == #[trigger] items[j] && !placeable(m, level, at, items, j) by {
            if k < next.len() {
                let j = choose|j: int|
                    0 <= j < n - 1 && next[k] == #[trigger] items[j] && !placeable(m, level, at, items, j);
                assert(next2[k] == items[j]);
            } else {
                assert(next2[k] == items[n - 1]);
                assert(!placeable(m, level, at, items, n - 1));
            }
        }
    }
}

/// Pasting a group whose offsets differ puts each item whose cell is free of
/// fixed tiles and tiles with an id on its cell (offset plus cursor): the
/// cell holds the item's tile afterwards, whatever stood there, and the item
/// is not left held.
pub proof fn law_paste_places_items(
    m: Map<Pos, Tile>,
    level: Option<Level>,
    at: Pos,
    items: Seq<(Pos, Tile)>,
)
    requires
        fits(items, at),
        distinct_offsets(items),
    ensures
        forall|i: int|
            0 <= i < items.len() && #[trigger] placeable(m, level, at, items, i) ==> {
                let (m2, old, next) = paste_from(m, level, at, items, items.len() as int);
                &&& tile_of(m2, shifted(items[i].0, at)) == items[i].1
                &&& !next.contains(items[i])
            },
{
    lemma_paste_places(m, level, at, items, items.len() as int);
    let (m2, old, next) = paste_from(m, level, at, items, items.len() as int);
    assert forall|i: int|
        0 <= i < items.len() && #[trigger] placeable(m, level, at, items, i) implies !next.contains(items[i]) by {
        if next.contains(items[i]) {
            let k = choose|k: int| 0 <= k < next.len() && next[k] == items[i];
            let j = choose|j: int|
                0 <= j < items.len() && next[k] == #[trigger] items[j] && !placeable(m, level, at, items, j);
            if i < j {
                assert(items[i].0 != items[j].0);
            } else if j < i {
                assert(items[j].0 != items[i].0);
            }
        }
    }
}

} // verus!
