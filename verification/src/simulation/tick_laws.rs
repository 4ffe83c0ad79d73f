use vstd::prelude::*;

use crate::direction::{
    is_perpendicular_spec, offset_spec, opposite_spec, Direction, Directions, Pos,
};
use crate::map::{lemma_sorted_lookup, seq_to_map, sorted_entries, sorted_positions, TileMap};
use crate::simulation::tick::{
    beam_spec, cross_half_spec, galvo_spec, latch_delays, mirror_half_spec, next_board,
    power_all_spec, power_spec, splitter_spec, step_spec, steps_spec, tile_at, track_spec,
};
use crate::simulation::tile::{emits, reflect, BeamTile};

verus! {

/// Whether a cell holds a component (anything but a beam or nothing).
pub open spec fn is_component(t: BeamTile) -> bool {
    !(t is Empty || t is Beam || t is CrossBeam)
}

/// Whether a cell that held `before` may hold `after` one tick later: a
/// component keeps its kind and the way it was placed (an emitter stays
/// exactly as it is), and a cell without a component still has none.
pub open spec fn keeps_placement(before: BeamTile, after: BeamTile) -> bool {
    match before {
        BeamTile::Emitter { .. } => after == before,
        BeamTile::Mirror { direction, .. } => after matches BeamTile::Mirror { direction: d, .. }
            && d == direction,
        BeamTile::Splitter { direction, .. } => after matches BeamTile::Splitter {
            direction: d,
            ..
        } && d == direction,
        BeamTile::Galvo { direction, .. } => after matches BeamTile::Galvo { direction: d, .. }
            && d == direction,
        BeamTile::Wall { .. } => after is Wall,
        BeamTile::Detector { .. } => after is Detector,
        BeamTile::Delay { .. } => after is Delay,
        _ => !is_component(after),
    }
}

/// Every cell of `w` is as `b` placed it.
pub open spec fn keeps_all(b: Map<Pos, BeamTile>, w: Map<Pos, BeamTile>) -> bool {
    forall|p: Pos| #[trigger] keeps_placement(tile_at(b, p), tile_at(w, p))
}

proof fn lemma_keeps_refl(w: Map<Pos, BeamTile>)
    ensures
        keeps_all(w, w),
{
}

proof fn lemma_keeps_trans(a: Map<Pos, BeamTile>, b: Map<Pos, BeamTile>, c: Map<Pos, BeamTile>)
    requires
        keeps_all(a, b),
        keeps_all(b, c),
    ensures
        keeps_all(a, c),
{
    assert forall|p: Pos| #[trigger] keeps_placement(tile_at(a, p), tile_at(c, p)) by {
        assert(keeps_placement(tile_at(a, p), tile_at(b, p)));
        assert(keeps_placement(tile_at(b, p), tile_at(c, p)));
    }
}

proof fn lemma_power_keeps(w: Map<Pos, BeamTile>, pos: Pos, d: Direction)
    ensures
        keeps_all(w, power_spec(w, pos, d)),
{
    let w2 = power_spec(w, pos, d);
    assert forall|p: Pos| #[trigger] keeps_placement(tile_at(w, p), tile_at(w2, p)) by {}
}

proof fn lemma_track_keeps(b: Map<Pos, BeamTile>, w: Map<Pos, BeamTile>, pos: Pos)
    ensures
        keeps_all(w, track_spec(b, w, pos)),
{
    let w2 = track_spec(b, w, pos);
    assert forall|p: Pos| #[trigger] keeps_placement(tile_at(w, p), tile_at(w2, p)) by {}
}

proof fn lemma_beam_keeps(
    b: Map<Pos, BeamTile>,
    w: Map<Pos, BeamTile>,
    pos: Pos,
    direction: Direction,
    distance: u8,
)
    requires
        !is_component(tile_at(w, pos)),
    ensures
        keeps_all(w, beam_spec(b, w, pos, direction, distance)),
{
    if distance != 255 {
        let w1 = if crate::simulation::tick::source_gone_spec(b, pos, direction) {
            match tile_at(w, pos) {
                BeamTile::CrossBeam { directions } => w.insert(
                    pos,
                    BeamTile::Beam {
                        direction: if directions[0] == direction {
                            directions[1]
                        } else {
                            directions[0]
                        },
                        distance,
                    },
                ),
                _ => w.remove(pos),
            }
        } else {
            w
        };
        assert forall|p: Pos| #[trigger] keeps_placement(tile_at(w, p), tile_at(w1, p)) by {}
        lemma_power_keeps(w1, pos, direction);
        lemma_keeps_trans(w, w1, power_spec(w1, pos, direction));
    } else {
        let w2 = w.remove(pos);
        assert forall|p: Pos| #[trigger] keeps_placement(tile_at(w, p), tile_at(w2, p)) by {}
    }
}

proof fn lemma_cross_half_keeps(
    b: Map<Pos, BeamTile>,
    w: Map<Pos, BeamTile>,
    pos: Pos,
    directions: [Direction; 2],
    idx: int,
)
    requires
        !is_component(tile_at(w, pos)),
        0 <= idx <= 1,
    ensures
        keeps_all(w, cross_half_spec(b, w, pos, directions, idx)),
        !is_component(tile_at(cross_half_spec(b, w, pos, directions, idx), pos)),
{
    let d = directions[idx];
    let w1 = power_spec(w, pos, d);
    lemma_power_keeps(w, pos, d);
    assert(keeps_placement(tile_at(w, pos), tile_at(w1, pos)));
    let w2 = cross_half_spec(b, w, pos, directions, idx);
    assert forall|p: Pos| #[trigger] keeps_placement(tile_at(w1, p), tile_at(w2, p)) by {}
    lemma_keeps_trans(w, w1, w2);
    assert(keeps_placement(tile_at(w, pos), tile_at(w2, pos)));
}

proof fn lemma_mirror_half_keeps(
    b: Map<Pos, BeamTile>,
    w: Map<Pos, BeamTile>,
    pos: Pos,
    galvoed: Directions,
    direction: bool,
    side: Option<Direction>,
    idx: int,
)
    ensures
        keeps_all(w, mirror_half_spec(b, w, pos, galvoed, direction, side, idx)),
{
    match side {
        None => {},
        Some(p) => {
            let out = crate::simulation::tile::reflect(p, !(direction != galvoed.any_spec()));
            let w1 = power_spec(w, pos, out);
            lemma_power_keeps(w, pos, out);
            let w2 = mirror_half_spec(b, w, pos, galvoed, direction, side, idx);
            assert forall|q: Pos| #[trigger] keeps_placement(tile_at(w1, q), tile_at(w2, q)) by {}
            lemma_keeps_trans(w, w1, w2);
        },
    }
}

proof fn lemma_splitter_keeps(
    b: Map<Pos, BeamTile>,
    w: Map<Pos, BeamTile>,
    pos: Pos,
    direction: bool,
    ins: Seq<Direction>,
)
    ensures
        keeps_all(w, splitter_spec(b, w, pos, direction, ins)),
    decreases ins.len(),
{
    if ins.len() > 0 {
        let p = ins[0];
        let w0 = power_spec(w, pos, p);
        let w1 = power_spec(w0, pos, crate::simulation::tile::reflect(p, !direction));
        lemma_power_keeps(w, pos, p);
        lemma_power_keeps(w0, pos, crate::simulation::tile::reflect(p, !direction));
        lemma_keeps_trans(w, w0, w1);
        let w2 = if crate::simulation::tick::source_gone_spec(b, pos, p) {
            match tile_at(w1, pos) {
                BeamTile::Splitter { direction: sd, powered } => w1.insert(
                    pos,
                    BeamTile::Splitter { direction: sd, powered: powered.with(p, false) },
                ),
                _ => w1,
            }
        } else {
            w1
        };
        assert forall|q: Pos| #[trigger] keeps_placement(tile_at(w1, q), tile_at(w2, q)) by {}
        lemma_keeps_trans(w, w1, w2);
        lemma_splitter_keeps(b, w2, pos, direction, ins.drop_first());
        lemma_keeps_trans(w, w2, splitter_spec(b, w2, pos, direction, ins.drop_first()));
    } else {
        lemma_keeps_refl(w);
    }
}

proof fn lemma_power_all_keeps(w: Map<Pos, BeamTile>, pos: Pos, dirs: Seq<Direction>)
    ensures
        keeps_all(w, power_all_spec(w, pos, dirs)),
    decreases dirs.len(),
{
    if dirs.len() > 0 {
        let w1 = power_spec(w, pos, dirs[0]);
        lemma_power_keeps(w, pos, dirs[0]);
        lemma_power_all_keeps(w1, pos, dirs.drop_first());
        lemma_keeps_trans(w, w1, power_all_spec(w1, pos, dirs.drop_first()));
    } else {
        lemma_keeps_refl(w);
    }
}

proof fn lemma_galvo_keeps(
    b: Map<Pos, BeamTile>,
    w: Map<Pos, BeamTile>,
    pos: Pos,
    direction: Direction,
    powered: Directions,
)
    ensures
        keeps_all(w, galvo_spec(b, w, pos, direction, powered)),
{
    let w1 = track_spec(b, w, pos);
    lemma_track_keeps(b, w, pos);
    let w2 = galvo_spec(b, w, pos, direction, powered);
    assert forall|q: Pos| #[trigger] keeps_placement(tile_at(w1, q), tile_at(w2, q)) by {}
    lemma_keeps_trans(w, w1, w2);
}

proof fn lemma_step_keeps(b: Map<Pos, BeamTile>, w: Map<Pos, BeamTile>, pos: Pos, tile: BeamTile)
    requires
        (tile is Beam || tile is CrossBeam) ==> !is_component(tile_at(w, pos)),
    ensures
        keeps_all(w, step_spec(b, w, pos, tile)),
{
    match tile {
        BeamTile::Emitter { direction, active } => {
            if active {
                lemma_power_keeps(w, pos, direction);
            } else {
                lemma_keeps_refl(w);
            }
        },
        BeamTile::Beam { direction, distance } => lemma_beam_keeps(b, w, pos, direction, distance),
        BeamTile::CrossBeam { directions } => {
            let w1 = cross_half_spec(b, w, pos, directions, 0);
            lemma_cross_half_keeps(b, w, pos, directions, 0);
            lemma_cross_half_keeps(b, w1, pos, directions, 1);
            lemma_keeps_trans(w, w1, cross_half_spec(b, w1, pos, directions, 1));
        },
        BeamTile::Mirror { galvoed, powered, direction } => {
            let w1 = mirror_half_spec(b, w, pos, galvoed, direction, powered[0], 0);
            lemma_mirror_half_keeps(b, w, pos, galvoed, direction, powered[0], 0);
            lemma_mirror_half_keeps(b, w1, pos, galvoed, direction, powered[1], 1);
            lemma_keeps_trans(
                w,
                w1,
                mirror_half_spec(b, w1, pos, galvoed, direction, powered[1], 1),
            );
        },
        BeamTile::Splitter { direction, powered } => lemma_splitter_keeps(
            b,
            w,
            pos,
            direction,
            powered.members(),
        ),
        BeamTile::Galvo { direction, powered } => lemma_galvo_keeps(b, w, pos, direction, powered),
        BeamTile::Delay { last_powered, .. } => {
            let w1 = power_all_spec(w, pos, last_powered.members());
            lemma_power_all_keeps(w, pos, last_powered.members());
            lemma_track_keeps(b, w1, pos);
            lemma_keeps_trans(w, w1, track_spec(b, w1, pos));
        },
        BeamTile::Wall { .. } => lemma_track_keeps(b, w, pos),
        BeamTile::Detector { .. } => lemma_track_keeps(b, w, pos),
        BeamTile::Empty => lemma_keeps_refl(w),
    }
}

proof fn lemma_steps_keeps(
    b: Map<Pos, BeamTile>,
    w: Map<Pos, BeamTile>,
    es: Seq<(Pos, BeamTile)>,
    n: int,
)
    requires
        keeps_all(b, w),
        sorted_positions(es),
        seq_to_map(es) == b,
        0 <= n <= es.len(),
    ensures
        keeps_all(b, steps_spec(b, w, es, n)),
    decreases n,
{
    if n > 0 {
        lemma_steps_keeps(b, w, es, n - 1);
        let prev = steps_spec(b, w, es, n - 1);
        let (pos, tile) = es[n - 1];
        lemma_sorted_lookup(es, n - 1);
        assert(tile_at(b, pos) == tile);
        assert(keeps_placement(tile_at(b, pos), tile_at(prev, pos)));
        lemma_step_keeps(b, prev, pos, tile);
        lemma_keeps_trans(b, prev, step_spec(b, prev, pos, tile));
    }
}

/// One tick of the simulation never moves, removes or turns a component:
/// every component keeps its kind and the way it was placed (emitters are
/// left exactly as they are), and beams only ever stand where no component
/// stands.
pub proof fn law_tick_keeps_placement(board: TileMap<BeamTile>)
    requires
        board.wf(),
    ensures
        forall|p: Pos|
            #[trigger] keeps_placement(tile_at(board@, p), tile_at(next_board(board@), p)),
{
    let b = board@;
    board.lemma_entries();
    board.lemma_entries_sorted();
    let es = sorted_entries(b);
    let l = latch_delays(b);
    assert forall|p: Pos| #[trigger] keeps_placement(tile_at(b, p), tile_at(l, p)) by {}
    lemma_steps_keeps(b, l, es, es.len() as int);
}

/// Whether the galvo side `side` of the mirror at `t` is set, or `None`
/// where no mirror stands.
pub open spec fn mirror_side_bit(w: Map<Pos, BeamTile>, t: Pos, side: Direction) -> Option<bool> {
    match tile_at(w, t) {
        BeamTile::Mirror { galvoed, .. } => Some(galvoed.has(side)),
        _ => None,
    }
}

/// Whether a galvo at the start of a tick powered from `powered` is on: it
/// is fed from a side other than its back.
pub open spec fn galvo_on(direction: Direction, powered: Directions) -> bool {
    exists|x: Direction| x != opposite_spec(direction) && #[trigger] powered.has(x)
}

proof fn lemma_offset_injective(d: Direction, p: Pos, q: Pos)
    requires
        offset_spec(d, p) == offset_spec(d, q),
    ensures
        p == q,
{
}

proof fn lemma_power_bit(w: Map<Pos, BeamTile>, pos: Pos, d: Direction, t: Pos, side: Direction)
    requires
        tile_at(w, t) is Mirror,
    ensures
        mirror_side_bit(power_spec(w, pos, d), t, side) == mirror_side_bit(w, t, side),
{
}

proof fn lemma_track_bit(b: Map<Pos, BeamTile>, w: Map<Pos, BeamTile>, pos: Pos, t: Pos, side: Direction)
    requires
        tile_at(w, t) is Mirror,
    ensures
        mirror_side_bit(track_spec(b, w, pos), t, side) == mirror_side_bit(w, t, side),
        tile_at(track_spec(b, w, pos), t) is Mirror,
{
}

proof fn lemma_splitter_bit(
    b: Map<Pos, BeamTile>,
    w: Map<Pos, BeamTile>,
    pos: Pos,
    direction: bool,
    ins: Seq<Direction>,
    t: Pos,
    side: Direction,
)
    requires
        tile_at(w, t) is Mirror,
    ensures
        mirror_side_bit(splitter_spec(b, w, pos, direction, ins), t, side) == mirror_side_bit(w, t, side),
        tile_at(splitter_spec(b, w, pos, direction, ins), t) is Mirror,
    decreases ins.len(),
{
    if ins.len() > 0 {
        let p = ins[0];
        let w0 = power_spec(w, pos, p);
        let w1 = power_spec(w0, pos, crate::simulation::tile::reflect(p, !direction));
        lemma_power_bit(w, pos, p, t, side);
        lemma_power_bit(w0, pos, crate::simulation::tile::reflect(p, !direction), t, side);
        let w2 = if crate::simulation::tick::source_gone_spec(b, pos, p) {
            match tile_at(w1, pos) {
                BeamTile::Splitter { direction: sd, powered } => w1.insert(
                    pos,
                    BeamTile::Splitter { direction: sd, powered: powered.with(p, false) },
                ),
                _ => w1,
            }
        } else {
            w1
        };
        assert(mirror_side_bit(w2, t, side) == mirror_side_bit(w1, t, side));
        lemma_splitter_bit(b, w2, pos, direction, ins.drop_first(), t, side);
    }
}

proof fn lemma_power_all_bit(w: Map<Pos, BeamTile>, pos: Pos, dirs: Seq<Direction>, t: Pos, side: Direction)
    requires
        tile_at(w, t) is Mirror,
    ensures
        mirror_side_bit(power_all_spec(w, pos, dirs), t, side) == mirror_side_bit(w, t, side),
        tile_at(power_all_spec(w, pos, dirs), t) is Mirror,
    decreases dirs.len(),
{
    if dirs.len() > 0 {
        lemma_power_bit(w, pos, dirs[0], t, side);
        lemma_power_all_bit(power_spec(w, pos, dirs[0]), pos, dirs.drop_first(), t, side);
    }
}

/// Every step but that of the galvo facing the mirror's `side` leaves that
/// side of the mirror at `t` as it is.
proof fn lemma_step_bit(
    b: Map<Pos, BeamTile>,
    w: Map<Pos, BeamTile>,
    pos: Pos,
    tile: BeamTile,
    t: Pos,
    side: Direction,
)
    requires
        tile_at(w, t) is Mirror,
        (tile is Beam || tile is CrossBeam) ==> !is_component(tile_at(w, pos)),
        tile matches BeamTile::Galvo { direction, .. } ==> !(offset_spec(direction, pos) == t
            && opposite_spec(direction) == side),
    ensures
        mirror_side_bit(step_spec(b, w, pos, tile), t, side) == mirror_side_bit(w, t, side),
        tile_at(step_spec(b, w, pos, tile), t) is Mirror,
{
    match tile {
        BeamTile::Emitter { direction, active } => {
            if active {
                lemma_power_bit(w, pos, direction, t, side);
            }
        },
        BeamTile::Beam { direction, distance } => {
            if distance != 255 {
                let w1 = if crate::simulation::tick::source_gone_spec(b, pos, direction) {
                    match tile_at(w, pos) {
                        BeamTile::CrossBeam { directions } => w.insert(
                            pos,
                            BeamTile::Beam {
                                direction: if directions[0] == direction {
                                    directions[1]
                                } else {
                                    directions[0]
                                },
                                distance,
                            },
                        ),
                        _ => w.remove(pos),
                    }
                } else {
                    w
                };
                assert(pos != t);
                assert(mirror_side_bit(w1, t, side) == mirror_side_bit(w, t, side));
                lemma_power_bit(w1, pos, direction, t, side);
            }
        },
        BeamTile::CrossBeam { directions } => {
            assert(pos != t);
            let w1 = cross_half_spec(b, w, pos, directions, 0);
            lemma_power_bit(w, pos, directions[0], t, side);
            lemma_cross_half_keeps(b, w, pos, directions, 0);
            lemma_power_bit(w1, pos, directions[1], t, side);
        },
        BeamTile::Mirror { galvoed, powered, direction } => {
            let out0 = crate::simulation::tile::reflect(
                powered[0]->0,
                !(direction != galvoed.any_spec()),
            );
            if powered[0] is Some {
                lemma_power_bit(w, pos, out0, t, side);
            }
            let w1 = mirror_half_spec(b, w, pos, galvoed, direction, powered[0], 0);
            assert(mirror_side_bit(w1, t, side) == mirror_side_bit(w, t, side));
            let out1 = crate::simulation::tile::reflect(
                powered[1]->0,
                !(direction != galvoed.any_spec()),
            );
            if powered[1] is Some {
                lemma_power_bit(w1, pos, out1, t, side);
            }
        },
        BeamTile::Splitter { direction, powered } => lemma_splitter_bit(
            b,
            w,
            pos,
            direction,
            powered.members(),
            t,
            side,
        ),
        BeamTile::Galvo { direction, powered } => {
            lemma_track_bit(b, w, pos, t, side);
        },
        BeamTile::Delay { last_powered, .. } => {
            lemma_power_all_bit(w, pos, last_powered.members(), t, side);
            lemma_track_bit(b, power_all_spec(w, pos, last_powered.members()), pos, t, side);
        },
        BeamTile::Wall { .. } => lemma_track_bit(b, w, pos, t, side),
        BeamTile::Detector { .. } => lemma_track_bit(b, w, pos, t, side),
        BeamTile::Empty => {},
    }
}

proof fn lemma_steps_galvo(
    b: Map<Pos, BeamTile>,
    w: Map<Pos, BeamTile>,
    es: Seq<(Pos, BeamTile)>,
    n: int,
    k: int,
    d: Direction,
    powered: Directions,
)
    requires
        keeps_all(b, w),
        sorted_positions(es),
        seq_to_map(es) == b,
        0 <= k < n <= es.len(),
        es[k].1 == (BeamTile::Galvo { direction: d, powered }),
        tile_at(b, offset_spec(d, es[k].0)) is Mirror,
    ensures
        mirror_side_bit(steps_spec(b, w, es, n), offset_spec(d, es[k].0), opposite_spec(d)) == Some(
            galvo_on(d, powered),
        ),
    decreases n,
{
    let p = es[k].0;
    let t = offset_spec(d, p);
    let side = opposite_spec(d);
    lemma_steps_keeps(b, w, es, n - 1);
    let prev = steps_spec(b, w, es, n - 1);
    assert(keeps_placement(tile_at(b, t), tile_at(prev, t)));
    assert(tile_at(prev, t) is Mirror);
    let (q, tile) = es[n - 1];
    lemma_sorted_lookup(es, n - 1);
    assert(tile_at(b, q) == tile);
    assert(keeps_placement(tile_at(b, q), tile_at(prev, q)));
    if n - 1 == k {
        assert(p != t);
        let w1 = track_spec(b, prev, p);
        lemma_track_bit(b, prev, p, t, side);
        let new = exists|x: Direction| x != side && #[trigger] powered.has(x);
        assert(new == galvo_on(d, powered));
    } else {
        lemma_steps_galvo(b, w, es, n - 1, k, d, powered);
        assert(q != p) by {
            assert(es[k].0.lt(es[n - 1].0));
        }
        if let BeamTile::Galvo { direction: d2, .. } = tile {
            if offset_spec(d2, q) == t && opposite_spec(d2) == side {
                assert(d2 == d);
                lemma_offset_injective(d, p, q);
            }
        }
        lemma_step_bit(b, prev, q, tile, t, side);
    }
}

/// Galvos are the only active component: after a tick, the side of a mirror
/// that a galvo faces is marked as turned exactly when the galvo was powered
/// (from a side other than its back) at the start of the tick.
pub proof fn law_powered_galvo_turns_mirror(board: TileMap<BeamTile>, p: Pos)
    requires
        board.wf(),
        tile_at(board@, p) is Galvo,
        tile_at(board@, offset_spec(tile_at(board@, p)->Galvo_direction, p)) is Mirror,
    ensures
        ({
            let d = tile_at(board@, p)->Galvo_direction;
            let powered = tile_at(board@, p)->Galvo_powered;
            mirror_side_bit(next_board(board@), offset_spec(d, p), opposite_spec(d)) == Some(
                galvo_on(d, powered),
            )
        }),
{
    let b = board@;
    board.lemma_entries();
    board.lemma_entries_sorted();
    let es = sorted_entries(b);
    let l = latch_delays(b);
    assert forall|q: Pos| #[trigger] keeps_placement(tile_at(b, q), tile_at(l, q)) by {}
    assert(b.contains_key(p));
    let k = choose|k: int| 0 <= k < es.len() && (#[trigger] es[k]).0 == p;
    lemma_sorted_lookup(es, k);
    let d = tile_at(b, p)->Galvo_direction;
    let powered = tile_at(b, p)->Galvo_powered;
    lemma_steps_galvo(b, l, es, es.len() as int, k, d, powered);
}

/// What the delay at `t` remembers of the previous tick, or `None` where no
/// delay stands.
pub open spec fn delay_memory(w: Map<Pos, BeamTile>, t: Pos) -> Option<Directions> {
    match tile_at(w, t) {
        BeamTile::Delay { last_powered, .. } => Some(last_powered),
        _ => None,
    }
}

proof fn lemma_power_memory(w: Map<Pos, BeamTile>, pos: Pos, d: Direction, t: Pos)
    requires
        tile_at(w, t) is Delay,
    ensures
        delay_memory(power_spec(w, pos, d), t) == delay_memory(w, t),
{
}

proof fn lemma_track_memory(b: Map<Pos, BeamTile>, w: Map<Pos, BeamTile>, pos: Pos, t: Pos)
    requires
        tile_at(w, t) is Delay,
    ensures
        delay_memory(track_spec(b, w, pos), t) == delay_memory(w, t),
{
}

proof fn lemma_power_all_memory(w: Map<Pos, BeamTile>, pos: Pos, dirs: Seq<Direction>, t: Pos)
    requires
        tile_at(w, t) is Delay,
    ensures
        delay_memory(power_all_spec(w, pos, dirs), t) == delay_memory(w, t),
    decreases dirs.len(),
{
    if dirs.len() > 0 {
        lemma_power_memory(w, pos, dirs[0], t);
        lemma_power_all_memory(power_spec(w, pos, dirs[0]), pos, dirs.drop_first(), t);
    }
}

proof fn lemma_splitter_memory(
    b: Map<Pos, BeamTile>,
    w: Map<Pos, BeamTile>,
    pos: Pos,
    direction: bool,
    ins: Seq<Direction>,
    t: Pos,
)
    requires
        tile_at(w, t) is Delay,
    ensures
        delay_memory(splitter_spec(b, w, pos, direction, ins), t) == delay_memory(w, t),
    decreases ins.len(),
{
    if ins.len() > 0 {
        let p = ins[0];
        let w0 = power_spec(w, pos, p);
        let w1 = power_spec(w0, pos, crate::simulation::tile::reflect(p, !direction));
        lemma_power_memory(w, pos, p, t);
        lemma_power_memory(w0, pos, crate::simulation::tile::reflect(p, !direction), t);
        let w2 = if crate::simulation::tick::source_gone_spec(b, pos, p) {
            match tile_at(w1, pos) {
                BeamTile::Splitter { direction: sd, powered } => w1.insert(
                    pos,
                    BeamTile::Splitter { direction: sd, powered: powered.with(p, false) },
                ),
                _ => w1,
            }
        } else {
            w1
        };
        assert(delay_memory(w2, t) == delay_memory(w1, t));
        lemma_splitter_memory(b, w2, pos, direction, ins.drop_first(), t);
    }
}

proof fn lemma_step_memory(b: Map<Pos, BeamTile>, w: Map<Pos, BeamTile>, pos: Pos, tile: BeamTile, t: Pos)
    requires
        tile_at(w, t) is Delay,
        (tile is Beam || tile is CrossBeam) ==> !is_component(tile_at(w, pos)),
    ensures
        delay_memory(step_spec(b, w, pos, tile), t) == delay_memory(w, t),
{
    lemma_step_keeps(b, w, pos, tile);
    assert(keeps_placement(tile_at(w, t), tile_at(step_spec(b, w, pos, tile), t)));
    match tile {
        BeamTile::Emitter { direction, active } => {
            if active {
                lemma_power_memory(w, pos, direction, t);
            }
        },
        BeamTile::Beam { direction, distance } => {
            if distance != 255 {
                let w1 = if crate::simulation::tick::source_gone_spec(b, pos, direction) {
                    match tile_at(w, pos) {
                        BeamTile::CrossBeam { directions } => w.insert(
                            pos,
                            BeamTile::Beam {
                                direction: if directions[0] == direction {
                                    directions[1]
                                } else {
                                    directions[0]
                                },
                                distance,
                            },
                        ),
                        _ => w.remove(pos),
                    }
                } else {
                    w
                };
                assert(pos != t);
                assert(delay_memory(w1, t) == delay_memory(w, t));
                lemma_power_memory(w1, pos, direction, t);
            }
        },
        BeamTile::CrossBeam { directions } => {
            assert(pos != t);
            let w1 = cross_half_spec(b, w, pos, directions, 0);
            lemma_power_memory(w, pos, directions[0], t);
            lemma_cross_half_keeps(b, w, pos, directions, 0);
            lemma_power_memory(w1, pos, directions[1], t);
        },
        BeamTile::Mirror { galvoed, powered, direction } => {
            let out0 = crate::simulation::tile::reflect(
                powered[0]->0,
                !(direction != galvoed.any_spec()),
            );
            if powered[0] is Some {
                lemma_power_memory(w, pos, out0, t);
            }
            let w1 = mirror_half_spec(b, w, pos, galvoed, direction, powered[0], 0);
            assert(delay_memory(w1, t) == delay_memory(w, t));
            let out1 = crate::simulation::tile::reflect(
                powered[1]->0,
                !(direction != galvoed.any_spec()),
            );
            if powered[1] is Some {
                lemma_power_memory(w1, pos, out1, t);
            }
        },
        BeamTile::Splitter { direction, powered } => lemma_splitter_memory(
            b,
            w,
            pos,
            direction,
            powered.members(),
            t,
        ),
        BeamTile::Galvo { direction, powered } => {
            lemma_track_memory(b, w, pos, t);
        },
        BeamTile::Delay { last_powered, .. } => {
            lemma_power_all_memory(w, pos, last_powered.members(), t);
            lemma_power_all_keeps(w, pos, last_powered.members());
            assert(keeps_placement(tile_at(w, t), tile_at(power_all_spec(w, pos, last_powered.members()), t)));
            lemma_track_memory(b, power_all_spec(w, pos, last_powered.members()), pos, t);
        },
        BeamTile::Wall { .. } => lemma_track_memory(b, w, pos, t),
        BeamTile::Detector { .. } => lemma_track_memory(b, w, pos, t),
        BeamTile::Empty => {},
    }
}

proof fn lemma_steps_memory(
    b: Map<Pos, BeamTile>,
    w: Map<Pos, BeamTile>,
    es: Seq<(Pos, BeamTile)>,
    n: int,
    t: Pos,
)
    requires
        keeps_all(b, w),
        sorted_positions(es),
        seq_to_map(es) == b,
        0 <= n <= es.len(),
        tile_at(b, t) is Delay,
    ensures
        delay_memory(steps_spec(b, w, es, n), t) == delay_memory(w, t),
    decreases n,
{
    if n > 0 {
        lemma_steps_memory(b, w, es, n - 1, t);
        lemma_steps_keeps(b, w, es, n - 1);
        let prev = steps_spec(b, w, es, n - 1);
        assert(keeps_placement(tile_at(b, t), tile_at(prev, t)));
        let (q, tile) = es[n - 1];
        lemma_sorted_lookup(es, n - 1);
        assert(keeps_placement(tile_at(b, q), tile_at(prev, q)));
        lemma_step_memory(b, prev, q, tile, t);
    }
}

/// A delay passes on what powered it one tick later: after a tick, a delay
/// remembers exactly the directions it was powered from at the start of the
/// tick, and powers its neighbours from that memory in the next one.
pub proof fn law_delay_remembers_one_tick(board: TileMap<BeamTile>, p: Pos)
    requires
        board.wf(),
        tile_at(board@, p) is Delay,
    ensures
        delay_memory(next_board(board@), p) == Some(tile_at(board@, p)->Delay_powered),
{
    let b = board@;
    board.lemma_entries();
    board.lemma_entries_sorted();
    let es = sorted_entries(b);
    let l = latch_delays(b);
    assert forall|q: Pos| #[trigger] keeps_placement(tile_at(b, q), tile_at(l, q)) by {}
    assert(delay_memory(l, p) == Some(tile_at(b, p)->Delay_powered));
    lemma_steps_memory(b, l, es, es.len() as int, p);
}

/// What a beam arriving in direction `d` makes of a cell without a
/// component that holds `x`.
pub open spec fn beam_in(x: BeamTile, d: Direction) -> BeamTile {
    match x {
        BeamTile::Empty => BeamTile::Beam { direction: d, distance: 0 },
        BeamTile::Beam { direction: d2, .. } => if is_perpendicular_spec(d2, d) {
            BeamTile::CrossBeam { directions: [d2, d] }
        } else {
            x
        },
        _ => x,
    }
}

/// The cell `x`, with a beam arriving in direction `d` when `hit`.
pub open spec fn arrive(x: BeamTile, d: Direction, hit: bool) -> BeamTile {
    if hit {
        beam_in(x, d)
    } else {
        x
    }
}

proof fn lemma_offset_back(d: Direction, p: Pos, q: Pos)
    ensures
        offset_spec(d, p) == q <==> p == offset_spec(opposite_spec(d), q),
{
    match d {
        Direction::Up => {},
        Direction::Down => {},
        Direction::Left => {},
        Direction::Right => {},
    }
}

proof fn lemma_offset_unique(d: Direction, e: Direction, p: Pos)
    requires
        offset_spec(d, p) == offset_spec(e, p),
    ensures
        d == e,
{
    match d {
        Direction::Up => {},
        Direction::Down => {},
        Direction::Left => {},
        Direction::Right => {},
    }
}

/// Whether `d` is the only direction leading from `p` to `q`.
pub open spec fn only_way(p: Pos, q: Pos, d: Direction) -> bool {
    forall|e: Direction| #[trigger] offset_spec(e, p) == q ==> e == d
}

proof fn lemma_power_into(w: Map<Pos, BeamTile>, p: Pos, e: Direction, q: Pos, d: Direction)
    requires
        !is_component(tile_at(w, q)),
        only_way(p, q, d),
    ensures
        tile_at(power_spec(w, p, e), q) == arrive(tile_at(w, q), d, offset_spec(e, p) == q),
        !is_component(tile_at(power_spec(w, p, e), q)),
{
    if offset_spec(e, p) == q {
        assert(e == d);
    }
}

proof fn lemma_arrive_twice(x: BeamTile, d: Direction, a: bool, b: bool)
    requires
        !is_component(x),
    ensures
        arrive(arrive(x, d, a), d, b) == arrive(x, d, a || b),
        !is_component(arrive(x, d, a)),
{
}

proof fn lemma_members_has(s: Directions, d: Direction)
    ensures
        s.has(d) <==> exists|k: int| 0 <= k < s.members().len() && s.members()[k] == d,
{
    let m = s.members();
    let a: int = if s.up { 1int } else { 0int };
    let b: int = a + if s.right { 1int } else { 0int };
    let c: int = b + if s.down { 1int } else { 0int };
    if s.has(d) {
        match d {
            Direction::Up => { assert(m[0] == d); },
            Direction::Right => { assert(m[a] == d); },
            Direction::Down => { assert(m[b] == d); },
            Direction::Left => { assert(m[c] == d); },
        }
    }
}

proof fn lemma_power_all_into(w: Map<Pos, BeamTile>, p: Pos, dirs: Seq<Direction>, q: Pos, d: Direction)
    requires
        !is_component(tile_at(w, q)),
        only_way(p, q, d),
    ensures
        tile_at(power_all_spec(w, p, dirs), q) == arrive(
            tile_at(w, q),
            d,
            offset_spec(d, p) == q && exists|k: int| 0 <= k < dirs.len() && dirs[k] == d,
        ),
    decreases dirs.len(),
{
    if dirs.len() > 0 {
        let w1 = power_spec(w, p, dirs[0]);
        lemma_power_into(w, p, dirs[0], q, d);
        lemma_power_all_into(w1, p, dirs.drop_first(), q, d);
        lemma_arrive_twice(tile_at(w, q), d, offset_spec(dirs[0], p) == q, offset_spec(d, p) == q
            && exists|k: int| 0 <= k < dirs.drop_first().len() && dirs.drop_first()[k] == d);
        if offset_spec(d, p) == q && exists|k: int| 0 <= k < dirs.len() && dirs[k] == d {
            let k = choose|k: int| 0 <= k < dirs.len() && dirs[k] == d;
            if k > 0 {
                assert(dirs.drop_first()[k - 1] == d);
            }
        }
        if exists|k: int| 0 <= k < dirs.drop_first().len() && dirs.drop_first()[k] == d {
            let k = choose|k: int| 0 <= k < dirs.drop_first().len() && dirs.drop_first()[k] == d;
            assert(dirs[k + 1] == d);
        }
    }
}

proof fn lemma_splitter_into(
    b: Map<Pos, BeamTile>,
    w: Map<Pos, BeamTile>,
    p: Pos,
    direction: bool,
    ins: Seq<Direction>,
    q: Pos,
    d: Direction,
)
    requires
        !is_component(tile_at(w, q)),
        only_way(p, q, d),
        p != q,
    ensures
        tile_at(splitter_spec(b, w, p, direction, ins), q) == arrive(
            tile_at(w, q),
            d,
            offset_spec(d, p) == q && exists|k: int|
                0 <= k < ins.len() && (ins[k] == d || reflect(ins[k], !direction) == d),
        ),
    decreases ins.len(),
{
    if ins.len() > 0 {
        let i0 = ins[0];
        let w0 = power_spec(w, p, i0);
        let w1 = power_spec(w0, p, reflect(i0, !direction));
        lemma_power_into(w, p, i0, q, d);
        lemma_power_into(w0, p, reflect(i0, !direction), q, d);
        lemma_arrive_twice(tile_at(w, q), d, offset_spec(i0, p) == q, offset_spec(
            reflect(i0, !direction),
            p,
        ) == q);
        let w2 = if crate::simulation::tick::source_gone_spec(b, p, i0) {
            match tile_at(w1, p) {
                BeamTile::Splitter { direction: sd, powered } => w1.insert(
                    p,
                    BeamTile::Splitter { direction: sd, powered: powered.with(i0, false) },
                ),
                _ => w1,
            }
        } else {
            w1
        };
        assert(tile_at(w2, q) == tile_at(w1, q));
        let rest = ins.drop_first();
        lemma_splitter_into(b, w2, p, direction, rest, q, d);
        let here = offset_spec(i0, p) == q || offset_spec(reflect(i0, !direction), p) == q;
        let later = offset_spec(d, p) == q && exists|k: int|
            0 <= k < rest.len() && (rest[k] == d || reflect(rest[k], !direction) == d);
        lemma_arrive_twice(tile_at(w, q), d, here, later);
        let all = offset_spec(d, p) == q && exists|k: int|
            0 <= k < ins.len() && (ins[k] == d || reflect(ins[k], !direction) == d);
        assert((here || later) == all) by {
            if all {
                let k = choose|k: int|
                    0 <= k < ins.len() && (ins[k] == d || reflect(ins[k], !direction) == d);
                if k > 0 {
                    assert(rest[k - 1] == ins[k]);
                }
            }
            if later {
                let k = choose|k: int|
                    0 <= k < rest.len() && (rest[k] == d || reflect(rest[k], !direction) == d);
                assert(ins[k + 1] == rest[k]);
            }
            if offset_spec(i0, p) == q {
                assert(i0 == d);
            }
            if offset_spec(reflect(i0, !direction), p) == q {
                assert(reflect(i0, !direction) == d);
            }
        }
    }
}

proof fn lemma_beam_into(b: Map<Pos, BeamTile>, w: Map<Pos, BeamTile>, p: Pos, direction: Direction, distance: u8, q: Pos, d: Direction)
    requires
        !is_component(tile_at(w, q)),
        only_way(p, q, d),
        p != q,
        distance == 255 ==> offset_spec(d, p) != q,
    ensures
        tile_at(step_spec(b, w, p, BeamTile::Beam { direction, distance }), q) == arrive(tile_at(w, q), d, offset_spec(d, p) == q
            && emits(BeamTile::Beam { direction, distance }, d)),
{
    let x = tile_at(w, q);
    if distance != 255 {
        let w1 = if crate::simulation::tick::source_gone_spec(b, p, direction) {
            match tile_at(w, p) {
                BeamTile::CrossBeam { directions } => w.insert(
                    p,
                    BeamTile::Beam {
                        direction: if directions[0] == direction {
                            directions[1]
                        } else {
                            directions[0]
                        },
                        distance,
                    },
                ),
                _ => w.remove(p),
            }
        } else {
            w
        };
        assert(tile_at(w1, q) == x);
        lemma_power_into(w1, p, direction, q, d);
    } else {
        assert(tile_at(w.remove(p), q) == x);
    }
}

proof fn lemma_cross_into(b: Map<Pos, BeamTile>, w: Map<Pos, BeamTile>, p: Pos, directions: [Direction; 2], q: Pos, d: Direction)
    requires
        !is_component(tile_at(w, q)),
        only_way(p, q, d),
        p != q,
    ensures
        tile_at(step_spec(b, w, p, BeamTile::CrossBeam { directions }), q) == arrive(tile_at(w, q), d, offset_spec(d, p) == q
            && emits(BeamTile::CrossBeam { directions }, d)),
{
    let x = tile_at(w, q);
    let w0 = power_spec(w, p, directions[0]);
    lemma_power_into(w, p, directions[0], q, d);
    let w1 = cross_half_spec(b, w, p, directions, 0);
    assert(tile_at(w1, q) == tile_at(w0, q));
    let w2 = power_spec(w1, p, directions[1]);
    lemma_power_into(w1, p, directions[1], q, d);
    assert(tile_at(cross_half_spec(b, w1, p, directions, 1), q) == tile_at(w2, q));
    lemma_arrive_twice(x, d, offset_spec(directions[0], p) == q, offset_spec(directions[1], p) == q);
    if offset_spec(directions[0], p) == q {
        assert(directions[0] == d);
    }
    if offset_spec(directions[1], p) == q {
        assert(directions[1] == d);
    }
}

proof fn lemma_mirror_into(
    b: Map<Pos, BeamTile>,
    w: Map<Pos, BeamTile>,
    p: Pos,
    galvoed: Directions,
    powered: [Option<Direction>; 2],
    direction: bool,
    q: Pos,
    d: Direction,
)
    requires
        !is_component(tile_at(w, q)),
        only_way(p, q, d),
        p != q,
    ensures
        tile_at(step_spec(b, w, p, BeamTile::Mirror { galvoed, powered, direction }), q) == arrive(
            tile_at(w, q),
            d,
            offset_spec(d, p) == q && emits(BeamTile::Mirror { galvoed, powered, direction }, d),
        ),
{
    let x = tile_at(w, q);
    let flip = !(direction != galvoed.any_spec());
    let w1 = mirror_half_spec(b, w, p, galvoed, direction, powered[0], 0);
    let h0 = powered[0] is Some && offset_spec(reflect(powered[0]->0, flip), p) == q;
    let h1 = powered[1] is Some && offset_spec(reflect(powered[1]->0, flip), p) == q;
    if powered[0] is Some {
        lemma_power_into(w, p, reflect(powered[0]->0, flip), q, d);
    }
    assert(tile_at(w1, q) == arrive(x, d, h0));
    lemma_arrive_twice(x, d, h0, h1);
    if powered[1] is Some {
        lemma_power_into(w1, p, reflect(powered[1]->0, flip), q, d);
    }
    assert(tile_at(mirror_half_spec(b, w1, p, galvoed, direction, powered[1], 1), q) == arrive(
        arrive(x, d, h0),
        d,
        h1,
    ));
    if h0 {
        assert(reflect(powered[0]->0, flip) == d);
    }
    if h1 {
        assert(reflect(powered[1]->0, flip) == d);
    }
}

proof fn lemma_splitter_emits(direction: bool, powered: Directions, d: Direction)
    ensures
        (exists|k: int|
            0 <= k < powered.members().len() && ((#[trigger] powered.members()[k]) == d || reflect(
                powered.members()[k],
                !direction,
            ) == d)) == emits(BeamTile::Splitter { direction, powered }, d),
{
    let tile = BeamTile::Splitter { direction, powered };
    let ins = powered.members();
    if exists|k: int| 0 <= k < ins.len() && (ins[k] == d || reflect(ins[k], !direction) == d) {
        let k = choose|k: int|
            0 <= k < ins.len() && (ins[k] == d || reflect(ins[k], !direction) == d);
        lemma_members_has(powered, ins[k]);
        assert(powered.has(ins[k]));
        assert(tile->Splitter_powered.has(ins[k]));
        assert(emits(tile, d));
    }
    if emits(tile, d) {
        let e = choose|e: Direction|
            #[trigger] powered.has(e) && (d == e || d == reflect(e, !direction));
        lemma_members_has(powered, e);
        let k = choose|k: int| 0 <= k < ins.len() && ins[k] == e;
        assert(0 <= k < ins.len() && (ins[k] == d || reflect(ins[k], !direction) == d));
        assert(0 <= k < powered.members().len() && (powered.members()[k] == d || reflect(powered.members()[k], !direction) == d));
    }
}

proof fn lemma_splitter_step_into(
    b: Map<Pos, BeamTile>,
    w: Map<Pos, BeamTile>,
    p: Pos,
    direction: bool,
    powered: Directions,
    q: Pos,
    d: Direction,
)
    requires
        !is_component(tile_at(w, q)),
        only_way(p, q, d),
        p != q,
    ensures
        tile_at(step_spec(b, w, p, BeamTile::Splitter { direction, powered }), q) == arrive(
            tile_at(w, q),
            d,
            offset_spec(d, p) == q && emits(BeamTile::Splitter { direction, powered }, d),
        ),
{
    assert(step_spec(b, w, p, BeamTile::Splitter { direction, powered }) == splitter_spec(
        b,
        w,
        p,
        direction,
        powered.members(),
    ));
    lemma_splitter_into(b, w, p, direction, powered.members(), q, d);
    lemma_splitter_emits(direction, powered, d);
}

/// What the step of the tile at `p` does to the cell `q` next to it: a beam
/// arrives exactly when the tile emits towards `q`.
proof fn lemma_step_into(b: Map<Pos, BeamTile>, w: Map<Pos, BeamTile>, p: Pos, tile: BeamTile, q: Pos, d: Direction)
    requires
        !is_component(tile_at(w, q)),
        only_way(p, q, d),
        p != q,
        (tile matches BeamTile::Beam { distance, .. } && distance == 255) ==> offset_spec(d, p) != q,
    ensures
        tile_at(step_spec(b, w, p, tile), q) == arrive(tile_at(w, q), d, offset_spec(d, p) == q
            && emits(tile, d)),
{
    let x = tile_at(w, q);
    match tile {
        BeamTile::Emitter { direction, active } => {
            if active {
                lemma_power_into(w, p, direction, q, d);
            }
        },
        BeamTile::Beam { direction, distance } => lemma_beam_into(b, w, p, direction, distance, q, d),
        BeamTile::CrossBeam { directions } => lemma_cross_into(b, w, p, directions, q, d),
        BeamTile::Mirror { galvoed, powered, direction } => lemma_mirror_into(
            b,
            w,
            p,
            galvoed,
            powered,
            direction,
            q,
            d,
        ),
        BeamTile::Splitter { direction, powered } => lemma_splitter_step_into(
            b,
            w,
            p,
            direction,
            powered,
            q,
            d,
        ),
        BeamTile::Galvo { direction, powered } => {
            let w1 = track_spec(b, w, p);
            assert(tile_at(w1, q) == x);
            assert(tile_at(galvo_spec(b, w, p, direction, powered), q) == x);
        },
        BeamTile::Delay { last_powered, .. } => {
            let w1 = power_all_spec(w, p, last_powered.members());
            lemma_power_all_into(w, p, last_powered.members(), q, d);
            lemma_members_has(last_powered, d);
            assert(tile_at(track_spec(b, w1, p), q) == tile_at(w1, q));
        },
        BeamTile::Wall { .. } => {},
        BeamTile::Detector { .. } => {},
        BeamTile::Empty => {},
    }
}

/// Whether the first `n` entries of `es` include a tile sending power into
/// `q` in direction `d`.
pub open spec fn sent(es: Seq<(Pos, BeamTile)>, n: int, q: Pos, d: Direction) -> bool {
    exists|k: int| 0 <= k < n && offset_spec(d, (#[trigger] es[k]).0) == q && emits(es[k].1, d)
}

proof fn lemma_steps_into(
    b: Map<Pos, BeamTile>,
    w: Map<Pos, BeamTile>,
    es: Seq<(Pos, BeamTile)>,
    n: int,
    q: Pos,
)
    requires
        keeps_all(b, w),
        sorted_positions(es),
        seq_to_map(es) == b,
        0 <= n <= es.len(),
        tile_at(b, q) is Empty,
        tile_at(w, q) is Empty,
        forall|e: Direction|
            !(#[trigger] tile_at(b, offset_spec(opposite_spec(e), q)) matches BeamTile::Beam {
                distance,
                ..
            } && distance == 255),
    ensures
        (forall|d: Direction| !#[trigger] sent(es, n, q, d)) ==> tile_at(steps_spec(b, w, es, n), q) is Empty,
        forall|d: Direction|
            sent(es, n, q, d) && (forall|e: Direction| #[trigger] sent(es, n, q, e) ==> e == d) ==> tile_at(
                steps_spec(b, w, es, n),
                q,
            ) == (BeamTile::Beam { direction: d, distance: 0 }),
    decreases n,
{
    if n > 0 {
        lemma_steps_into(b, w, es, n - 1, q);
        lemma_steps_keeps(b, w, es, n - 1);
        let prev = steps_spec(b, w, es, n - 1);
        let x = tile_at(prev, q);
        assert(keeps_placement(tile_at(b, q), x));
        let (p, tile) = es[n - 1];
        lemma_sorted_lookup(es, n - 1);
        assert(tile_at(b, p) == tile);
        let cur = steps_spec(b, w, es, n);
        if p == q {
            assert(tile is Empty);
            assert(cur == prev);
            assert forall|e: Direction| #[trigger] sent(es, n, q, e) == sent(es, n - 1, q, e) by {
                if sent(es, n, q, e) {
                    let k = choose|k: int| 0 <= k < n && offset_spec(e, (#[trigger] es[k]).0) == q && emits(es[k].1, e);
                    assert(k != n - 1);
                }
            }
            assert((forall|e: Direction| !#[trigger] sent(es, n, q, e)) ==> tile_at(cur, q) is Empty) by {
                if forall|e: Direction| !#[trigger] sent(es, n, q, e) {
                    assert forall|e: Direction| !#[trigger] sent(es, n - 1, q, e) by {
                        assert(!sent(es, n, q, e));
                    }
                }
            }
            assert forall|d2: Direction|
                #[trigger] sent(es, n, q, d2) && (forall|e: Direction| #[trigger] sent(es, n, q, e) ==> e == d2) implies tile_at(cur, q) == (BeamTile::Beam { direction: d2, distance: 0 }) by {
                assert forall|e: Direction| #[trigger] sent(es, n - 1, q, e) implies e == d2 by {
                    assert(sent(es, n, q, e));
                }
                assert(sent(es, n - 1, q, d2));
            }
        } else {
            let way = exists|d: Direction| #[trigger] offset_spec(d, p) == q;
            let d = if way {
                choose|d: Direction| #[trigger] offset_spec(d, p) == q
            } else {
                Direction::Up
            };
            assert(only_way(p, q, d)) by {
                assert forall|e: Direction| #[trigger] offset_spec(e, p) == q implies e == d by {
                    lemma_offset_unique(e, d, p);
                }
            }
            if tile matches BeamTile::Beam { distance, .. } && distance == 255 && offset_spec(d, p) == q {
                lemma_offset_back(d, p, q);
                assert(tile_at(b, offset_spec(opposite_spec(d), q)) == tile);
            }
            lemma_step_into(b, prev, p, tile, q, d);
            let hit = offset_spec(d, p) == q && emits(tile, d);
            assert(tile_at(cur, q) == arrive(x, d, hit));
            assert forall|e: Direction| #[trigger] sent(es, n, q, e) == (sent(es, n - 1, q, e) || (e == d && hit)) by {
                if sent(es, n, q, e) {
                    let k = choose|k: int| 0 <= k < n && offset_spec(e, (#[trigger] es[k]).0) == q && emits(es[k].1, e);
                    if k == n - 1 {
                        assert(e == d);
                    }
                }
                if e == d && hit {
                    assert(offset_spec(e, es[n - 1].0) == q && emits(es[n - 1].1, e));
                }
            }
            assert((forall|e: Direction| !#[trigger] sent(es, n, q, e)) ==> tile_at(cur, q) is Empty) by {
                if forall|e: Direction| !#[trigger] sent(es, n, q, e) {
                    assert forall|e: Direction| !#[trigger] sent(es, n - 1, q, e) by {
                        assert(!sent(es, n, q, e));
                    }
                    assert(!sent(es, n, q, d));
                }
            }
            assert forall|d2: Direction|
                #[trigger] sent(es, n, q, d2) && (forall|e: Direction| #[trigger] sent(es, n, q, e) ==> e == d2) implies tile_at(cur, q) == (BeamTile::Beam { direction: d2, distance: 0 }) by {
                assert forall|e: Direction| #[trigger] sent(es, n - 1, q, e) implies e == d2 by {
                    assert(sent(es, n, q, e));
                }
                if hit {
                    assert(sent(es, n, q, d));
                    assert(d == d2);
                    if exists|e: Direction| #[trigger] sent(es, n - 1, q, e) {
                        let e = choose|e: Direction| #[trigger] sent(es, n - 1, q, e);
                        assert(e == d2);
                        assert(sent(es, n - 1, q, d2));
                    } else {
                        assert(forall|e: Direction| !#[trigger] sent(es, n - 1, q, e));
                    }
                } else {
                    assert(sent(es, n - 1, q, d2));
                }
            }
        }
    }
}

/// Power leaves a tile exactly along its output directions: after a tick, an
/// empty cell whose neighbours send it nothing is still empty, and an empty
/// cell that only one direction feeds holds a new beam in that direction.
/// (A neighbouring beam that has travelled its full distance is left out:
/// it disappears without passing its power on.) The output directions are
/// those of `BeamTile::power_direction`, which `emits` states.
pub proof fn law_power_follows_output_directions(board: TileMap<BeamTile>, q: Pos)
    requires
        board.wf(),
        tile_at(board@, q) is Empty,
        forall|e: Direction|
            !(#[trigger] tile_at(board@, offset_spec(opposite_spec(e), q)) matches BeamTile::Beam {
                distance,
                ..
            } && distance == 255),
    ensures
        (forall|d: Direction| !emits(tile_at(board@, offset_spec(opposite_spec(d), q)), d))
            ==> tile_at(next_board(board@), q) is Empty,
        forall|d: Direction|
            emits(tile_at(board@, offset_spec(opposite_spec(d), q)), d) && (forall|e: Direction|
                emits(#[trigger] tile_at(board@, offset_spec(opposite_spec(e), q)), e) ==> e == d)
                ==> tile_at(next_board(board@), q) == (BeamTile::Beam { direction: d, distance: 0 }),
{
    let b = board@;
    board.lemma_entries();
    board.lemma_entries_sorted();
    let es = sorted_entries(b);
    let l = latch_delays(b);
    assert forall|r: Pos| #[trigger] keeps_placement(tile_at(b, r), tile_at(l, r)) by {}
    assert(tile_at(l, q) is Empty);
    lemma_steps_into(b, l, es, es.len() as int, q);
    assert forall|d: Direction|
        sent(es, es.len() as int, q, d) == emits(tile_at(b, offset_spec(opposite_spec(d), q)), d) by {
        let p = offset_spec(opposite_spec(d), q);
        lemma_offset_back(d, p, q);
        if sent(es, es.len() as int, q, d) {
            let k = choose|k: int| 0 <= k < es.len() && offset_spec(d, (#[trigger] es[k]).0) == q && emits(es[k].1, d);
            lemma_offset_back(d, es[k].0, q);
            lemma_sorted_lookup(es, k);
        }
        if emits(tile_at(b, p), d) {
            assert(b.contains_key(p));
            let k = choose|k: int| 0 <= k < es.len() && (#[trigger] es[k]).0 == p;
            lemma_sorted_lookup(es, k);
            assert(offset_spec(d, es[k].0) == q && emits(es[k].1, d));
        }
    }
    let nb = next_board(b);
    assert((forall|d: Direction| !emits(tile_at(b, offset_spec(opposite_spec(d), q)), d))
        ==> tile_at(nb, q) is Empty) by {
        if forall|d: Direction| !emits(tile_at(b, offset_spec(opposite_spec(d), q)), d) {
            assert forall|d: Direction| !#[trigger] sent(es, es.len() as int, q, d) by {
                assert(!emits(tile_at(b, offset_spec(opposite_spec(d), q)), d));
            }
        }
    }
    assert forall|d: Direction|
        emits(tile_at(b, offset_spec(opposite_spec(d), q)), d) && (forall|e: Direction|
            emits(#[trigger] tile_at(b, offset_spec(opposite_spec(e), q)), e) ==> e == d)
            implies tile_at(nb, q) == (BeamTile::Beam { direction: d, distance: 0 }) by {
        assert(sent(es, es.len() as int, q, d));
        assert forall|e: Direction| #[trigger] sent(es, es.len() as int, q, e) implies e == d by {
            assert(emits(tile_at(b, offset_spec(opposite_spec(e), q)), e));
        }
    }
}

/// Whether the cell `p` of `w` holds a delay powered from direction `d`.
pub open spec fn delay_fed(w: Map<Pos, BeamTile>, p: Pos, d: Direction) -> bool {
    tile_at(w, p) matches BeamTile::Delay { powered, .. } && powered.has(d)
}

proof fn lemma_offset_moves(e: Direction, q: Pos)
    ensures
        offset_spec(e, q) != q,
{
}

proof fn lemma_power_fed(w: Map<Pos, BeamTile>, q: Pos, e: Direction, p: Pos, d: Direction)
    requires
        tile_at(w, p) is Delay,
    ensures
        tile_at(power_spec(w, q, e), p) is Delay,
        (delay_fed(w, p, d) || (offset_spec(e, q) == p && e == d)) ==> delay_fed(power_spec(w, q, e), p, d),
{
}

proof fn lemma_power_all_fed(w: Map<Pos, BeamTile>, q: Pos, dirs: Seq<Direction>, p: Pos, d: Direction)
    requires
        tile_at(w, p) is Delay,
    ensures
        tile_at(power_all_spec(w, q, dirs), p) is Delay,
        (delay_fed(w, p, d) || (offset_spec(d, q) == p && exists|k: int| 0 <= k < dirs.len() && dirs[k] == d))
            ==> delay_fed(power_all_spec(w, q, dirs), p, d),
    decreases dirs.len(),
{
    if dirs.len() > 0 {
        let w1 = power_spec(w, q, dirs[0]);
        lemma_power_fed(w, q, dirs[0], p, d);
        lemma_power_all_fed(w1, q, dirs.drop_first(), p, d);
        if exists|k: int| 0 <= k < dirs.len() && dirs[k] == d {
            let k = choose|k: int| 0 <= k < dirs.len() && dirs[k] == d;
            if k > 0 {
                assert(dirs.drop_first()[k - 1] == d);
            }
        }
    }
}

proof fn lemma_splitter_fed(
    b: Map<Pos, BeamTile>,
    w: Map<Pos, BeamTile>,
    q: Pos,
    direction: bool,
    ins: Seq<Direction>,
    p: Pos,
    d: Direction,
)
    requires
        tile_at(w, p) is Delay,
        q != p,
    ensures
        tile_at(splitter_spec(b, w, q, direction, ins), p) is Delay,
        (delay_fed(w, p, d) || (offset_spec(d, q) == p && exists|k: int|
            0 <= k < ins.len() && (ins[k] == d || reflect(ins[k], !direction) == d)))
            ==> delay_fed(splitter_spec(b, w, q, direction, ins), p, d),
    decreases ins.len(),
{
    if ins.len() > 0 {
        let i0 = ins[0];
        let w0 = power_spec(w, q, i0);
        let w1 = power_spec(w0, q, reflect(i0, !direction));
        lemma_power_fed(w, q, i0, p, d);
        lemma_power_fed(w0, q, reflect(i0, !direction), p, d);
        let w2 = if crate::simulation::tick::source_gone_spec(b, q, i0) {
            match tile_at(w1, q) {
                BeamTile::Splitter { direction: sd, powered } => w1.insert(
                    q,
                    BeamTile::Splitter { direction: sd, powered: powered.with(i0, false) },
                ),
                _ => w1,
            }
        } else {
            w1
        };
        assert(tile_at(w2, p) == tile_at(w1, p));
        let rest = ins.drop_first();
        lemma_splitter_fed(b, w2, q, direction, rest, p, d);
        if offset_spec(d, q) == p && exists|k: int|
            0 <= k < ins.len() && (ins[k] == d || reflect(ins[k], !direction) == d) {
            let k = choose|k: int|
                0 <= k < ins.len() && (ins[k] == d || reflect(ins[k], !direction) == d);
            if k > 0 {
                assert(rest[k - 1] == ins[k]);
            }
        }
    }
}

proof fn lemma_emits_powered(t: BeamTile, d: Direction)
    requires
        emits(t, d),
    ensures
        crate::simulation::tile::is_powered_spec(t),
{
    if let BeamTile::Splitter { direction, powered } = t {
        let e = choose|e: Direction| #[trigger] powered.has(e) && (d == e || d == reflect(e, !direction));
        assert(powered.has(e));
    }
}

proof fn lemma_beam_fed(
    b: Map<Pos, BeamTile>,
    w: Map<Pos, BeamTile>,
    q: Pos,
    direction: Direction,
    distance: u8,
    p: Pos,
    d: Direction,
)
    requires
        tile_at(w, p) is Delay,
        q != p,
    ensures
        tile_at(step_spec(b, w, q, BeamTile::Beam { direction, distance }), p) is Delay,
        (delay_fed(w, p, d) || (offset_spec(d, q) == p && direction == d && distance != 255))
            ==> delay_fed(step_spec(b, w, q, BeamTile::Beam { direction, distance }), p, d),
{
    if distance != 255 {
        let w1 = if crate::simulation::tick::source_gone_spec(b, q, direction) {
            match tile_at(w, q) {
                BeamTile::CrossBeam { directions } => w.insert(
                    q,
                    BeamTile::Beam {
                        direction: if directions[0] == direction {
                            directions[1]
                        } else {
                            directions[0]
                        },
                        distance,
                    },
                ),
                _ => w.remove(q),
            }
        } else {
            w
        };
        assert(tile_at(w1, p) == tile_at(w, p));
        lemma_power_fed(w1, q, direction, p, d);
    } else {
        assert(tile_at(w.remove(q), p) == tile_at(w, p));
    }
}

proof fn lemma_cross_fed(
    b: Map<Pos, BeamTile>,
    w: Map<Pos, BeamTile>,
    q: Pos,
    directions: [Direction; 2],
    p: Pos,
    d: Direction,
)
    requires
        tile_at(w, p) is Delay,
        q != p,
    ensures
        tile_at(step_spec(b, w, q, BeamTile::CrossBeam { directions }), p) is Delay,
        (delay_fed(w, p, d) || (offset_spec(d, q) == p && (directions[0] == d || directions[1] == d)))
            ==> delay_fed(step_spec(b, w, q, BeamTile::CrossBeam { directions }), p, d),
{
    let w0 = power_spec(w, q, directions[0]);
    lemma_power_fed(w, q, directions[0], p, d);
    let w1 = cross_half_spec(b, w, q, directions, 0);
    assert(tile_at(w1, p) == tile_at(w0, p));
    let w2 = power_spec(w1, q, directions[1]);
    lemma_power_fed(w1, q, directions[1], p, d);
    assert(tile_at(cross_half_spec(b, w1, q, directions, 1), p) == tile_at(w2, p));
}

proof fn lemma_mirror_fed(
    b: Map<Pos, BeamTile>,
    w: Map<Pos, BeamTile>,
    q: Pos,
    galvoed: Directions,
    powered: [Option<Direction>; 2],
    direction: bool,
    p: Pos,
    d: Direction,
)
    requires
        tile_at(w, p) is Delay,
        q != p,
    ensures
        tile_at(step_spec(b, w, q, BeamTile::Mirror { galvoed, powered, direction }), p) is Delay,
        (delay_fed(w, p, d) || (offset_spec(d, q) == p && emits(
            BeamTile::Mirror { galvoed, powered, direction },
            d,
        ))) ==> delay_fed(step_spec(b, w, q, BeamTile::Mirror { galvoed, powered, direction }), p, d),
{
    let flip = !(direction != galvoed.any_spec());
    let w1 = mirror_half_spec(b, w, q, galvoed, direction, powered[0], 0);
    if powered[0] is Some {
        lemma_power_fed(w, q, reflect(powered[0]->0, flip), p, d);
        assert(tile_at(w1, p) == tile_at(power_spec(w, q, reflect(powered[0]->0, flip)), p));
    }
    if powered[1] is Some {
        lemma_power_fed(w1, q, reflect(powered[1]->0, flip), p, d);
        assert(tile_at(mirror_half_spec(b, w1, q, galvoed, direction, powered[1], 1), p)
            == tile_at(power_spec(w1, q, reflect(powered[1]->0, flip)), p));
    }
}

proof fn lemma_splitter_step_fed(
    b: Map<Pos, BeamTile>,
    w: Map<Pos, BeamTile>,
    q: Pos,
    direction: bool,
    powered: Directions,
    p: Pos,
    d: Direction,
)
    requires
        tile_at(w, p) is Delay,
        q != p,
    ensures
        tile_at(step_spec(b, w, q, BeamTile::Splitter { direction, powered }), p) is Delay,
        (delay_fed(w, p, d) || (offset_spec(d, q) == p && emits(BeamTile::Splitter { direction, powered }, d)))
            ==> delay_fed(step_spec(b, w, q, BeamTile::Splitter { direction, powered }), p, d),
{
    let tile = BeamTile::Splitter { direction, powered };
    assert(step_spec(b, w, q, tile) == splitter_spec(b, w, q, direction, powered.members()));
    lemma_splitter_fed(b, w, q, direction, powered.members(), p, d);
    if emits(tile, d) {
        let e = choose|e: Direction| #[trigger] powered.has(e) && (d == e || d == reflect(e, !direction));
        lemma_members_has(powered, e);
        let k = choose|k: int| 0 <= k < powered.members().len() && powered.members()[k] == e;
        assert(0 <= k < powered.members().len() && (powered.members()[k] == d || reflect(
            powered.members()[k],
            !direction,
        ) == d));
    }
}

/// A step of the tile at `q`, another cell than the delay at `p`, never takes
/// power away from the delay, and powers it from `d` when the tile emits
/// towards it in that direction.
proof fn lemma_step_fed(b: Map<Pos, BeamTile>, w: Map<Pos, BeamTile>, q: Pos, tile: BeamTile, p: Pos, d: Direction)
    requires
        tile_at(w, p) is Delay,
        q != p,
    ensures
        tile_at(step_spec(b, w, q, tile), p) is Delay,
        (delay_fed(w, p, d) || (offset_spec(d, q) == p && emits(tile, d) && !(tile matches BeamTile::Beam {
            distance,
            ..
        } && distance == 255))) ==> delay_fed(step_spec(b, w, q, tile), p, d),
{
    match tile {
        BeamTile::Emitter { direction, active } => {
            if active {
                lemma_power_fed(w, q, direction, p, d);
            }
        },
        BeamTile::Beam { direction, distance } => lemma_beam_fed(b, w, q, direction, distance, p, d),
        BeamTile::CrossBeam { directions } => lemma_cross_fed(b, w, q, directions, p, d),
        BeamTile::Mirror { galvoed, powered, direction } => lemma_mirror_fed(
            b,
            w,
            q,
            galvoed,
            powered,
            direction,
            p,
            d,
        ),
        BeamTile::Splitter { direction, powered } => lemma_splitter_step_fed(b, w, q, direction, powered, p, d),
        BeamTile::Galvo { direction, powered } => {
            let w1 = track_spec(b, w, q);
            assert(tile_at(w1, p) == tile_at(w, p));
            assert(tile_at(galvo_spec(b, w, q, direction, powered), p) == tile_at(w, p));
        },
        BeamTile::Delay { last_powered, .. } => {
            let w1 = power_all_spec(w, q, last_powered.members());
            lemma_power_all_fed(w, q, last_powered.members(), p, d);
            lemma_members_has(last_powered, d);
            assert(tile_at(track_spec(b, w1, q), p) == tile_at(w1, p));
        },
        BeamTile::Wall { .. } => {},
        BeamTile::Detector { .. } => {},
        BeamTile::Empty => {},
    }
}

/// The delay's own step keeps the directions whose source still feeds it.
proof fn lemma_own_step_fed(b: Map<Pos, BeamTile>, w: Map<Pos, BeamTile>, p: Pos, tile: BeamTile, d: Direction)
    requires
        tile is Delay,
        delay_fed(w, p, d),
        !crate::simulation::tick::source_gone_spec(b, p, d),
    ensures
        delay_fed(step_spec(b, w, p, tile), p, d),
{
    let last = tile->Delay_last_powered;
    let w1 = power_all_spec(w, p, last.members());
    lemma_power_all_fed(w, p, last.members(), p, d);
}

proof fn lemma_steps_fed(
    b: Map<Pos, BeamTile>,
    w: Map<Pos, BeamTile>,
    es: Seq<(Pos, BeamTile)>,
    n: int,
    p: Pos,
    d: Direction,
    knb: int,
)
    requires
        keeps_all(b, w),
        sorted_positions(es),
        seq_to_map(es) == b,
        tile_at(b, p) is Delay,
        0 <= knb < n <= es.len(),
        offset_spec(d, es[knb].0) == p,
        emits(es[knb].1, d),
        !(es[knb].1 matches BeamTile::Beam { distance, .. } && distance == 255),
        !crate::simulation::tick::source_gone_spec(b, p, d),
    ensures
        delay_fed(steps_spec(b, w, es, n), p, d),
    decreases n,
{
    lemma_steps_keeps(b, w, es, n - 1);
    let prev = steps_spec(b, w, es, n - 1);
    assert(keeps_placement(tile_at(b, p), tile_at(prev, p)));
    let (q, tile) = es[n - 1];
    lemma_sorted_lookup(es, n - 1);
    if n - 1 == knb {
        lemma_offset_moves(d, q);
        lemma_step_fed(b, prev, q, tile, p, d);
    } else {
        lemma_steps_fed(b, w, es, n - 1, p, d, knb);
        if q == p {
            assert(tile == tile_at(b, p));
            lemma_own_step_fed(b, prev, p, tile, d);
        } else {
            lemma_step_fed(b, prev, q, tile, p, d);
        }
    }
}

/// A delay takes in what its neighbours send it: after a tick, a delay is
/// powered from every direction in which a neighbour sent power into it at
/// the start of the tick (a neighbouring beam that has travelled its full
/// distance vanishes instead). The delay passes that power on in the tick
/// after, from what it remembers.
pub proof fn law_delay_takes_in_power(board: TileMap<BeamTile>, p: Pos, d: Direction)
    requires
        board.wf(),
        tile_at(board@, p) is Delay,
        emits(tile_at(board@, offset_spec(opposite_spec(d), p)), d),
        !(tile_at(board@, offset_spec(opposite_spec(d), p)) matches BeamTile::Beam { distance, .. }
            && distance == 255),
    ensures
        delay_fed(next_board(board@), p, d),
{
    let b = board@;
    board.lemma_entries();
    board.lemma_entries_sorted();
    let es = sorted_entries(b);
    let l = latch_delays(b);
    assert forall|r: Pos| #[trigger] keeps_placement(tile_at(b, r), tile_at(l, r)) by {}
    let nb = offset_spec(opposite_spec(d), p);
    lemma_offset_back(d, nb, p);
    assert(b.contains_key(nb));
    let k = choose|k: int| 0 <= k < es.len() && (#[trigger] es[k]).0 == nb;
    lemma_sorted_lookup(es, k);
    lemma_emits_powered(tile_at(b, nb), d);
    lemma_steps_fed(b, l, es, es.len() as int, p, d, k);
}

} // verus!
