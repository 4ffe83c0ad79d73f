use vstd::prelude::*;

use crate::direction::{
    is_perpendicular_spec, is_vertical, offset_spec, opposite_spec, Direction, Directions, Pos,
};
use crate::map::{get_or, sorted_entries, TileMap};

use crate::simulation::tile::{emits, is_powered_spec, reflect, reflect_exec, BeamTile};

verus! {

/// The tile at `p`, `Empty` where nothing is stored.
pub open spec fn tile_at(m: Map<Pos, BeamTile>, p: Pos) -> BeamTile {
    get_or(m, p, BeamTile::Empty)
}

/// Whether the tile behind `pos` (seen from `direction`) no longer sends power
/// towards `pos` in `direction`.
pub open spec fn source_gone_spec(board: Map<Pos, BeamTile>, pos: Pos, direction: Direction) -> bool {
    let source = tile_at(board, offset_spec(opposite_spec(direction), pos));
    !is_powered_spec(source) || !emits(source, direction)
}

/// The directions of `s` that are still fed by their source on `board`.
pub open spec fn still_fed(board: Map<Pos, BeamTile>, pos: Pos, s: Directions) -> Directions {
    Directions {
        up: s.up && !source_gone_spec(board, pos, Direction::Up),
        right: s.right && !source_gone_spec(board, pos, Direction::Right),
        down: s.down && !source_gone_spec(board, pos, Direction::Down),
        left: s.left && !source_gone_spec(board, pos, Direction::Left),
    }
}

/// The mirror side that a beam travelling in `d` lands on.
pub open spec fn mirror_side(mirror_direction: bool, galvoed: Directions, d: Direction) -> int {
    if mirror_direction != galvoed.any_spec() {
        if d == Direction::Up || d == Direction::Right {
            1
        } else {
            0
        }
    } else {
        if d == Direction::Up || d == Direction::Left {
            1
        } else {
            0
        }
    }
}

pub open spec fn set_side(
    sides: [Option<Direction>; 2],
    i: int,
    v: Option<Direction>,
) -> [Option<Direction>; 2] {
    if i == 0 {
        [v, sides[1]]
    } else {
        [sides[0], v]
    }
}

/// The working board after the tile at `pos` sends power in `direction`
/// into its neighbour.
pub open spec fn power_spec(w: Map<Pos, BeamTile>, pos: Pos, direction: Direction) -> Map<
    Pos,
    BeamTile,
> {
    let t = offset_spec(direction, pos);
    match tile_at(w, t) {
        BeamTile::Empty => w.insert(t, BeamTile::Beam { direction, distance: 0 }),
        BeamTile::Beam { direction: dir, .. } => if is_perpendicular_spec(dir, direction) {
            w.insert(t, BeamTile::CrossBeam { directions: [dir, direction] })
        } else {
            w
        },
        BeamTile::Mirror { galvoed, powered, direction: md } => w.insert(
            t,
            BeamTile::Mirror {
                galvoed,
                direction: md,
                powered: set_side(powered, mirror_side(md, galvoed, direction), Some(direction)),
            },
        ),
        BeamTile::Splitter { direction: sd, powered } => w.insert(
            t,
            BeamTile::Splitter { direction: sd, powered: powered.with(direction, true) },
        ),
        BeamTile::Galvo { direction: gd, powered } => if direction != opposite_spec(gd) {
            w.insert(t, BeamTile::Galvo { direction: gd, powered: powered.with(direction, true) })
        } else {
            w
        },
        BeamTile::Wall { powered } => w.insert(
            t,
            BeamTile::Wall { powered: powered.with(direction, true) },
        ),
        BeamTile::Detector { powered } => w.insert(
            t,
            BeamTile::Detector { powered: powered.with(direction, true) },
        ),
        BeamTile::Delay { powered, last_powered } => w.insert(
            t,
            BeamTile::Delay { powered: powered.with(direction, true), last_powered },
        ),
        _ => w,
    }
}

/// Drops from the powered set of the wall, detector, galvo or delay at `pos`
/// the directions whose source is gone.
pub open spec fn track_spec(b: Map<Pos, BeamTile>, w: Map<Pos, BeamTile>, pos: Pos) -> Map<
    Pos,
    BeamTile,
> {
    match tile_at(w, pos) {
        BeamTile::Galvo { direction, powered } => w.insert(
            pos,
            BeamTile::Galvo { direction, powered: still_fed(b, pos, powered) },
        ),
        BeamTile::Wall { powered } => w.insert(pos, BeamTile::Wall { powered: still_fed(b, pos, powered) }),
        BeamTile::Detector { powered } => w.insert(
            pos,
            BeamTile::Detector { powered: still_fed(b, pos, powered) },
        ),
        BeamTile::Delay { powered, last_powered } => w.insert(
            pos,
            BeamTile::Delay { powered: still_fed(b, pos, powered), last_powered },
        ),
        _ => w,
    }
}

/// The beam at `pos` travelling in `direction`, once its source is checked.
pub open spec fn beam_spec(
    b: Map<Pos, BeamTile>,
    w: Map<Pos, BeamTile>,
    pos: Pos,
    direction: Direction,
    distance: u8,
) -> Map<Pos, BeamTile> {
    if distance == 255 {
        w.remove(pos)
    } else {
        let w1 = if source_gone_spec(b, pos, direction) {
            match tile_at(w, pos) {
                BeamTile::CrossBeam { directions } => w.insert(
                    pos,
                    BeamTile::Beam {
                        direction: if directions[0] == direction {
                            directions[1]
                        } else {
                            directions[0]
                        },
                        distance,
                    },
                ),
                _ => w.remove(pos),
            }
        } else {
            w
        };
        power_spec(w1, pos, direction)
    }
}

/// One of the two beams of the crossbeam at `pos`.
pub open spec fn cross_half_spec(
    b: Map<Pos, BeamTile>,
    w: Map<Pos, BeamTile>,
    pos: Pos,
    directions: [Direction; 2],
    idx: int,
) -> Map<Pos, BeamTile> {
    let d = directions[idx];
    let w1 = power_spec(w, pos, d);
    if source_gone_spec(b, pos, d) {
        match tile_at(w1, pos) {
            BeamTile::CrossBeam { .. } => w1.insert(
                pos,
                BeamTile::Beam { direction: directions[1 - idx], distance: 0 },
            ),
            _ => w1.remove(pos),
        }
    } else {
        w1
    }
}

/// One side of the mirror at `pos`, as it was at the start of the tick.
pub open spec fn mirror_half_spec(
    b: Map<Pos, BeamTile>,
    w: Map<Pos, BeamTile>,
    pos: Pos,
    galvoed: Directions,
    direction: bool,
    side: Option<Direction>,
    idx: int,
) -> Map<Pos, BeamTile> {
    match side {
        None => w,
        Some(p) => {
            let out = reflect(p, !(direction != galvoed.any_spec()));
            let w1 = power_spec(w, pos, out);
            if source_gone_spec(b, pos, p) {
                match tile_at(w1, pos) {
                    BeamTile::Mirror { galvoed: g, direction: md, powered } => w1.insert(
                        pos,
                        BeamTile::Mirror { galvoed: g, direction: md, powered: set_side(powered, idx, None) },
                    ),
                    _ => w1,
                }
            } else {
                w1
            }
        },
    }
}

/// The splitter at `pos` handling the incoming beams `ins`, in order.
pub open spec fn splitter_spec(
    b: Map<Pos, BeamTile>,
    w: Map<Pos, BeamTile>,
    pos: Pos,
    direction: bool,
    ins: Seq<Direction>,
) -> Map<Pos, BeamTile>
    decreases ins.len(),
{
    if ins.len() == 0 {
        w
    } else {
        let p = ins[0];
        let w1 = power_spec(power_spec(w, pos, p), pos, reflect(p, !direction));
        let w2 = if source_gone_spec(b, pos, p) {
            match tile_at(w1, pos) {
                BeamTile::Splitter { direction: sd, powered } => w1.insert(
                    pos,
                    BeamTile::Splitter { direction: sd, powered: powered.with(p, false) },
                ),
                _ => w1,
            }
        } else {
            w1
        };
        splitter_spec(b, w2, pos, direction, ins.drop_first())
    }
}

/// The tile at `pos` sending power in each of `dirs`, in order.
pub open spec fn power_all_spec(w: Map<Pos, BeamTile>, pos: Pos, dirs: Seq<Direction>) -> Map<
    Pos,
    BeamTile,
>
    decreases dirs.len(),
{
    if dirs.len() == 0 {
        w
    } else {
        power_all_spec(power_spec(w, pos, dirs[0]), pos, dirs.drop_first())
    }
}

/// The sides of a mirror after a galvo turned it: a beam on a vertical side
/// stays where it is and the other side is cleared; otherwise the sides swap.
pub open spec fn turned_sides(sides: [Option<Direction>; 2]) -> [Option<Direction>; 2] {
    let top = sides[0] matches Some(d) && is_vertical(d);
    let bottom = sides[1] matches Some(d) && is_vertical(d);
    if top && !bottom {
        [sides[0], None]
    } else if bottom && !top {
        [None, sides[1]]
    } else if !top || !bottom {
        [sides[1], sides[0]]
    } else {
        sides
    }
}

/// The galvo at `pos` facing `direction`, powered (at the start of the tick)
/// from `powered`.
pub open spec fn galvo_spec(
    b: Map<Pos, BeamTile>,
    w: Map<Pos, BeamTile>,
    pos: Pos,
    direction: Direction,
    powered: Directions,
) -> Map<Pos, BeamTile> {
    let w1 = track_spec(b, w, pos);
    let t = offset_spec(direction, pos);
    match tile_at(w1, t) {
        BeamTile::Mirror { galvoed, direction: md, powered: sides } => {
            let opp = opposite_spec(direction);
            let new = exists|x: Direction| x != opp && #[trigger] powered.has(x);
            let changed = galvoed.has(opp) != new;
            w1.insert(
                t,
                BeamTile::Mirror {
                    galvoed: galvoed.with(opp, new),
                    direction: md,
                    powered: if changed {
                        turned_sides(sides)
                    } else {
                        sides
                    },
                },
            )
        },
        _ => w1,
    }
}

/// What the tile that was at `pos` at the start of the tick does to the
/// working board.
pub open spec fn step_spec(b: Map<Pos, BeamTile>, w: Map<Pos, BeamTile>, pos: Pos, tile: BeamTile) -> Map<
    Pos,
    BeamTile,
> {
    match tile {
        BeamTile::Emitter { direction, active } => if active {
            power_spec(w, pos, direction)
        } else {
            w
        },
        BeamTile::Beam { direction, distance } => beam_spec(b, w, pos, direction, distance),
        BeamTile::CrossBeam { directions } => cross_half_spec(
            b,
            cross_half_spec(b, w, pos, directions, 0),
            pos,
            directions,
            1,
        ),
        BeamTile::Mirror { galvoed, powered, direction } => mirror_half_spec(
            b,
            mirror_half_spec(b, w, pos, galvoed, direction, powered[0], 0),
            pos,
            galvoed,
            direction,
            powered[1],
            1,
        ),
        BeamTile::Splitter { direction, powered } => splitter_spec(
            b,
            w,
            pos,
            direction,
            powered.members(),
        ),
        BeamTile::Galvo { direction, powered } => galvo_spec(b, w, pos, direction, powered),
        BeamTile::Delay { last_powered, .. } => track_spec(
            b,
            power_all_spec(w, pos, last_powered.members()),
            pos,
        ),
        BeamTile::Wall { .. } => track_spec(b, w, pos),
        BeamTile::Detector { .. } => track_spec(b, w, pos),
        _ => w,
    }
}

/// The tiles of `es[..n]` acting, in order, on the working board `w`.
pub open spec fn steps_spec(
    b: Map<Pos, BeamTile>,
    w: Map<Pos, BeamTile>,
    es: Seq<(Pos, BeamTile)>,
    n: int,
) -> Map<Pos, BeamTile>
    decreases n,
{
    if n <= 0 {
        w
    } else {
        step_spec(b, steps_spec(b, w, es, n - 1), es[n - 1].0, es[n - 1].1)
    }
}

/// A delay remembers what powered it in the previous tick.
pub open spec fn delay_latched(t: BeamTile) -> BeamTile {
    match t {
        BeamTile::Delay { powered, .. } => BeamTile::Delay { powered, last_powered: powered },
        _ => t,
    }
}

/// The board at the start of the tick's second pass: every delay latched.
pub open spec fn latch_delays(b: Map<Pos, BeamTile>) -> Map<Pos, BeamTile> {
    Map::new(|p: Pos| b.contains_key(p), |p: Pos| delay_latched(b[p]))
}

/// The board one simulation step after `board`: delays latch their input,
/// then every tile acts, in position order, on a working copy, reading the
/// sources of its beams from the board as it was.
pub open spec fn next_board(board: Map<Pos, BeamTile>) -> Map<Pos, BeamTile> {
    steps_spec(board, latch_delays(board), sorted_entries(board), sorted_entries(board).len() as int)
}


/// The tile at `p`, `Empty` where nothing is stored.
pub fn tile_at_exec(m: &TileMap<BeamTile>, p: Pos) -> (r: BeamTile)
    requires
        m.wf(),
    ensures
        r == tile_at(m@, p),
{
    match m.get(p) {
        Some(t) => t,
        None => BeamTile::Empty,
    }
}

/// Checks if the tile behind `pos` no longer provides power in `direction`.
fn source_gone(board: &TileMap<BeamTile>, pos: Pos, direction: Direction) -> (r: bool)
    requires
        board.wf(),
    ensures
        r == source_gone_spec(board@, pos, direction),
{
    let source = direction.opposite().offset(pos);
    let source_tile = tile_at_exec(board, source);
    !source_tile.is_powered() || !source_tile.power_direction().contains(direction)
}

fn still_fed_exec(board: &TileMap<BeamTile>, pos: Pos, s: Directions) -> (r: Directions)
    requires
        board.wf(),
    ensures
        r == still_fed(board@, pos, s),
{
    Directions {
        up: s.up && !source_gone(board, pos, Direction::Up),
        right: s.right && !source_gone(board, pos, Direction::Right),
        down: s.down && !source_gone(board, pos, Direction::Down),
        left: s.left && !source_gone(board, pos, Direction::Left),
    }
}

fn set_side_exec(sides: [Option<Direction>; 2], i: usize, v: Option<Direction>) -> (r: [Option<
    Direction,
>; 2])
    requires
        i < 2,
    ensures
        r == set_side(sides, i as int, v),
{
    if i == 0 {
        [v, sides[1]]
    } else {
        [sides[0], v]
    }
}

/// Powers the neighbour of `pos` in the given direction.
fn power(w: &mut TileMap<BeamTile>, pos: Pos, direction: Direction)
    requires
        old(w).wf(),
    ensures
        final(w).wf(),
        final(w)@ == power_spec(old(w)@, pos, direction),
{
    let t = direction.offset(pos);
    match tile_at_exec(w, t) {
        BeamTile::Empty => w.set(t, BeamTile::Beam { direction, distance: 0 }),
        BeamTile::Beam { direction: dir, .. } => {
            if dir.is_perpendicular(direction) {
                w.set(t, BeamTile::CrossBeam { directions: [dir, direction] });
            }
        },
        BeamTile::Mirror { galvoed, powered, direction: md } => {
            let side: usize = if md != galvoed.any() {
                if matches!(direction, Direction::Up | Direction::Right) {
                    1
                } else {
                    0
                }
            } else {
                if matches!(direction, Direction::Up | Direction::Left) {
                    1
                } else {
                    0
                }
            };
            w.set(
                t,
                BeamTile::Mirror {
                    galvoed,
                    direction: md,
                    powered: set_side_exec(powered, side, Some(direction)),
                },
            );
        },
        BeamTile::Splitter { direction: sd, powered } => {
            w.set(t, BeamTile::Splitter { direction: sd, powered: powered.with_dir(direction, true) });
        },
        BeamTile::Galvo { direction: gd, powered } => {
            if direction != gd.opposite() {
                w.set(t, BeamTile::Galvo { direction: gd, powered: powered.with_dir(direction, true) });
            }
        },
        BeamTile::Wall { powered } => {
            w.set(t, BeamTile::Wall { powered: powered.with_dir(direction, true) });
        },
        BeamTile::Detector { powered } => {
            w.set(t, BeamTile::Detector { powered: powered.with_dir(direction, true) });
        },
        BeamTile::Delay { powered, last_powered } => {
            w.set(t, BeamTile::Delay { powered: powered.with_dir(direction, true), last_powered });
        },
        _ => {},
    }
}

/// Drops, at `pos`, the powered directions whose source is gone.
fn track_powered(b: &TileMap<BeamTile>, w: &mut TileMap<BeamTile>, pos: Pos)
    requires
        b.wf(),
        old(w).wf(),
    ensures
        final(w).wf(),
        final(w)@ == track_spec(b@, old(w)@, pos),
{
    match tile_at_exec(w, pos) {
        BeamTile::Galvo { direction, powered } => {
            let p = still_fed_exec(b, pos, powered);
            w.set(pos, BeamTile::Galvo { direction, powered: p });
        },
        BeamTile::Wall { powered } => {
            let p = still_fed_exec(b, pos, powered);
            w.set(pos, BeamTile::Wall { powered: p });
        },
        BeamTile::Detector { powered } => {
            let p = still_fed_exec(b, pos, powered);
            w.set(pos, BeamTile::Detector { powered: p });
        },
        BeamTile::Delay { powered, last_powered } => {
            let p = still_fed_exec(b, pos, powered);
            w.set(pos, BeamTile::Delay { powered: p, last_powered });
        },
        _ => {},
    }
}

fn beam_step(
    b: &TileMap<BeamTile>,
    w: &mut TileMap<BeamTile>,
    pos: Pos,
    direction: Direction,
    distance: u8,
)
    requires
        b.wf(),
        old(w).wf(),
    ensures
        final(w).wf(),
        final(w)@ == beam_spec(b@, old(w)@, pos, direction, distance),
{
    if distance == 255 {
        w.remove(pos);
        return ;
    }
    if source_gone(b, pos, direction) {
        if let BeamTile::CrossBeam { directions } = tile_at_exec(w, pos) {
            let other = if directions[0] == direction {
                directions[1]
            } else {
                directions[0]
            };
            w.set(pos, BeamTile::Beam { direction: other, distance });
        } else {
            w.remove(pos);
        }
    }
    power(w, pos, direction);
}

fn cross_half(
    b: &TileMap<BeamTile>,
    w: &mut TileMap<BeamTile>,
    pos: Pos,
    directions: [Direction; 2],
    idx: usize,
)
    requires
        b.wf(),
        old(w).wf(),
        idx < 2,
    ensures
        final(w).wf(),
        final(w)@ == cross_half_spec(b@, old(w)@, pos, directions, idx as int),
{
    let d = directions[idx];
    power(w, pos, d);
    if source_gone(b, pos, d) {
        if let BeamTile::CrossBeam { .. } = tile_at_exec(w, pos) {
            w.set(pos, BeamTile::Beam { direction: directions[1 - idx], distance: 0 });
        } else {
            w.remove(pos);
        }
    }
}

fn mirror_half(
    b: &TileMap<BeamTile>,
    w: &mut TileMap<BeamTile>,
    pos: Pos,
    galvoed: Directions,
    direction: bool,
    side: Option<Direction>,
    idx: usize,
)
    requires
        b.wf(),
        old(w).wf(),
        idx < 2,
    ensures
        final(w).wf(),
        final(w)@ == mirror_half_spec(b@, old(w)@, pos, galvoed, direction, side, idx as int),
{
    if let Some(p) = side {
        let out = reflect_exec(p, !(direction != galvoed.any()));
        power(w, pos, out);
        if source_gone(b, pos, p) {
            if let BeamTile::Mirror { galvoed: g, direction: md, powered } = tile_at_exec(w, pos) {
                w.set(pos, BeamTile::Mirror { galvoed: g, direction: md, powered: set_side_exec(powered, idx, None) });
            }
        }
    }
}

fn splitter_step(
    b: &TileMap<BeamTile>,
    w: &mut TileMap<BeamTile>,
    pos: Pos,
    direction: bool,
    powered: Directions,
)
    requires
        b.wf(),
        old(w).wf(),
    ensures
        final(w).wf(),
        final(w)@ == splitter_spec(b@, old(w)@, pos, direction, powered.members()),
{
    let ins = powered.iter();
    let ghost target = splitter_spec(b@, w@, pos, direction, ins@);
    let mut i: usize = 0;
    assert(ins@.subrange(0, ins@.len() as int) =~= ins@);
    while i < ins.len()
        invariant
            b.wf(),
            w.wf(),
            i <= ins@.len(),
            splitter_spec(b@, w@, pos, direction, ins@.subrange(i as int, ins@.len() as int))
                == target,
        decreases ins@.len() - i,
    {
        let p = ins[i];
        let ghost rest = ins@.subrange(i as int, ins@.len() as int);
        assert(rest.drop_first() =~= ins@.subrange(i + 1, ins@.len() as int));
        power(w, pos, p);
        power(w, pos, reflect_exec(p, !direction));
        if source_gone(b, pos, p) {
            if let BeamTile::Splitter { direction: sd, powered: pw } = tile_at_exec(w, pos) {
                w.set(pos, BeamTile::Splitter { direction: sd, powered: pw.with_dir(p, false) });
            }
        }
        i = i + 1;
    }
    assert(ins@.subrange(i as int, ins@.len() as int) =~= Seq::<Direction>::empty());
}

fn power_all(w: &mut TileMap<BeamTile>, pos: Pos, dirs: Directions)
    requires
        old(w).wf(),
    ensures
        final(w).wf(),
        final(w)@ == power_all_spec(old(w)@, pos, dirs.members()),
{
    let ins = dirs.iter();
    let ghost target = power_all_spec(w@, pos, ins@);
    let mut i: usize = 0;
    assert(ins@.subrange(0, ins@.len() as int) =~= ins@);
    while i < ins.len()
        invariant
            w.wf(),
            i <= ins@.len(),
            power_all_spec(w@, pos, ins@.subrange(i as int, ins@.len() as int)) == target,
        decreases ins@.len() - i,
    {
        let ghost rest = ins@.subrange(i as int, ins@.len() as int);
        assert(rest.drop_first() =~= ins@.subrange(i + 1, ins@.len() as int));
        power(w, pos, ins[i]);
        i = i + 1;
    }
    assert(ins@.subrange(i as int, ins@.len() as int) =~= Seq::<Direction>::empty());
}

fn turned_sides_exec(sides: [Option<Direction>; 2]) -> (r: [Option<Direction>; 2])
    ensures
        r == turned_sides(sides),
{
    let top = matches!(sides[0], Some(Direction::Up) | Some(Direction::Down));
    let bottom = matches!(sides[1], Some(Direction::Up) | Some(Direction::Down));
    if top && !bottom {
        [sides[0], None]
    } else if bottom && !top {
        [None, sides[1]]
    } else if !top || !bottom {
        [sides[1], sides[0]]
    } else {
        sides
    }
}

fn galvo_step(
    b: &TileMap<BeamTile>,
    w: &mut TileMap<BeamTile>,
    pos: Pos,
    direction: Direction,
    powered: Directions,
)
    requires
        b.wf(),
        old(w).wf(),
    ensures
        final(w).wf(),
        final(w)@ == galvo_spec(b@, old(w)@, pos, direction, powered),
{
    track_powered(b, w, pos);
    let t = direction.offset(pos);
    if let BeamTile::Mirror { galvoed, direction: md, powered: sides } = tile_at_exec(w, t) {
        let opp = direction.opposite();
        let new = powered.any_but(opp);
        let changed = galvoed.contains(opp) != new;
        let new_sides = if changed {
            turned_sides_exec(sides)
        } else {
            sides
        };
        w.set(t, BeamTile::Mirror { galvoed: galvoed.with_dir(opp, new), direction: md, powered: new_sides });
    }
}

/// What the tile that was at `pos` at the start of the tick does.
fn step(b: &TileMap<BeamTile>, w: &mut TileMap<BeamTile>, pos: Pos, tile: BeamTile)
    requires
        b.wf(),
        old(w).wf(),
    ensures
        final(w).wf(),
        final(w)@ == step_spec(b@, old(w)@, pos, tile),
{
    match tile {
        BeamTile::Emitter { direction, active } => {
            if active {
                power(w, pos, direction);
            }
        },
        BeamTile::Beam { direction, distance } => beam_step(b, w, pos, direction, distance),
        BeamTile::CrossBeam { directions } => {
            cross_half(b, w, pos, directions, 0);
            cross_half(b, w, pos, directions, 1);
        },
        BeamTile::Mirror { galvoed, powered, direction } => {
            mirror_half(b, w, pos, galvoed, direction, powered[0], 0);
            mirror_half(b, w, pos, galvoed, direction, powered[1], 1);
        },
        BeamTile::Splitter { direction, powered } => splitter_step(b, w, pos, direction, powered),
        BeamTile::Galvo { direction, powered } => galvo_step(b, w, pos, direction, powered),
        BeamTile::Delay { last_powered, .. } => {
            power_all(w, pos, last_powered);
            track_powered(b, w, pos);
        },
        BeamTile::Wall { .. } => track_powered(b, w, pos),
        BeamTile::Detector { .. } => track_powered(b, w, pos),
        _ => {},
    }
}

/// The board one simulation step after `board`.
pub fn advance_board(board: &TileMap<BeamTile>) -> (r: TileMap<BeamTile>)
    requires
        board.wf(),
    ensures
        r.wf(),
        r@ == next_board(board@),
{
    proof {
        board.lemma_entries_sorted();
    }
    // To avoid issues that would arise from modifying the board in place, a
    // copy is made to store the new state.
    let mut w = board.copy();
    let n = board.len();
    let mut i: usize = 0;
    proof {
        board.lemma_entries();
    }
    while i < n
        invariant
            board.wf(),
            w.wf(),
            n == board.entries().len(),
            i <= n,
            forall|p: Pos| #[trigger] w@.contains_key(p) == board@.contains_key(p),
            forall|p: Pos|
                w@.contains_key(p) ==> #[trigger] w@[p] == (if exists|k: int|
                    0 <= k < i && board.entries()[k].0 == p {
                    delay_latched(board@[p])
                } else {
                    board@[p]
                }),
        decreases n - i,
    {
        let (pos, tile) = board.entry(i);
        if let BeamTile::Delay { powered, .. } = tile {
            w.set(pos, BeamTile::Delay { powered, last_powered: powered });
        }
        proof {
            board.lemma_entries();
            assert forall|p: Pos|
                w@.contains_key(p) implies #[trigger] w@[p] == (if exists|k: int|
                    0 <= k < i + 1 && board.entries()[k].0 == p {
                    delay_latched(board@[p])
                } else {
                    board@[p]
                }) by {
                if p == pos {
                    assert(board.entries()[i as int].0 == p);
                } else {
                    if exists|k: int| 0 <= k < i + 1 && board.entries()[k].0 == p {
                        let k = choose|k: int| 0 <= k < i + 1 && board.entries()[k].0 == p;
                        assert(k != i);
                    }
                }
            }
        }
        i = i + 1;
    }
    proof {
        board.lemma_entries();
        assert(w@ =~= latch_delays(board@)) by {
            assert forall|p: Pos| w@.contains_key(p) implies w@[p] == delay_latched(board@[p]) by {
                let k = choose|k: int| 0 <= k < n && (#[trigger] board.entries()[k]).0 == p;
                assert(board.entries()[k].0 == p);
            }
        }
    }
    let mut j: usize = 0;
    while j < n
        invariant
            board.wf(),
            w.wf(),
            n == board.entries().len(),
            j <= n,
            w@ == steps_spec(board@, latch_delays(board@), board.entries(), j as int),
        decreases n - j,
    {
        let (pos, tile) = board.entry(j);
        step(board, &mut w, pos, tile);
        j = j + 1;
    }
    w
}

} // verus!
