use vstd::prelude::*;

use crate::direction::{
    mirror_reflection, mirror_reflections, opposite_spec, Direction, Directions,
};

verus! {

/// The state of one cell while the board is being simulated.
#[derive(Debug, Clone, Copy, PartialEq, Eq)]
#[allow(inconsistent_fields)]
pub enum BeamTile {
    Empty,
    Wall { powered: Directions },
    Beam { direction: Direction, distance: u8 },
    CrossBeam {
        /// Directions of the two incoming beams.
        directions: [Direction; 2],
    },
    Emitter { direction: Direction, active: bool },
    Detector { powered: Directions },
    Delay { powered: Directions, last_powered: Directions },
    Mirror {
        /// The galvos currently turning the mirror, by the side they face it from.
        galvoed: Directions,
        /// The direction the mirror was placed in: `false => /`, `true => \`.
        direction: bool,
        /// Which direction the beam is coming from for each side.
        powered: [Option<Direction>; 2],
    },
    /// A splitter keeps the set of directions its incoming beams travel in
    /// and serves every one of them in a tick, passing each straight on and
    /// reflecting it; it does not take only one beam at a time.
    Splitter { direction: bool, powered: Directions },
    Galvo { direction: Direction, powered: Directions },
}

/// The direction a beam travelling in `incoming` leaves a `/` mirror in,
/// turned around when `flip` holds.
pub open spec fn reflect(incoming: Direction, flip: bool) -> Direction {
    if flip {
        opposite_spec(mirror_reflection(incoming))
    } else {
        mirror_reflection(incoming)
    }
}

pub fn reflect_exec(incoming: Direction, flip: bool) -> (r: Direction)
    ensures
        r == reflect(incoming, flip),
{
    mirror_reflections(incoming).opposite_if(flip)
}

pub open spec fn side_powered(s: Option<Direction>) -> bool {
    s is Some
}

pub open spec fn is_powered_spec(t: BeamTile) -> bool {
    match t {
        BeamTile::Emitter { active, .. } => active,
        BeamTile::Beam { .. } => true,
        BeamTile::CrossBeam { .. } => true,
        BeamTile::Detector { powered } => powered.any_spec(),
        BeamTile::Galvo { powered, .. } => powered.any_spec(),
        BeamTile::Wall { powered } => powered.any_spec(),
        BeamTile::Delay { last_powered, .. } => last_powered.any_spec(),
        BeamTile::Mirror { powered, .. } => powered[0] is Some || powered[1] is Some,
        BeamTile::Splitter { powered, .. } => powered.any_spec(),
        BeamTile::Empty => false,
    }
}

/// Whether the tile sends power out in direction `d`.
pub open spec fn emits(t: BeamTile, d: Direction) -> bool {
    match t {
        BeamTile::Beam { direction, .. } => d == direction,
        BeamTile::Emitter { direction, active } => active && d == direction,
        BeamTile::CrossBeam { directions } => d == directions[0] || d == directions[1],
        BeamTile::Mirror { galvoed, powered, direction } => {
            let flip = !(direction != galvoed.any_spec());
            (powered[0] matches Some(p) && d == reflect(p, flip)) || (powered[1] matches Some(p)
                && d == reflect(p, flip))
        },
        BeamTile::Splitter { direction, powered } => exists|p: Direction|
            #[trigger] powered.has(p) && (d == p || d == reflect(p, !direction)),
        BeamTile::Delay { last_powered, .. } => last_powered.has(d),
        _ => false,
    }
}

/// The directions a splitter sends out for one incoming beam: straight on
/// and reflected.
fn splitter_output(p: Direction, flip: bool) -> (r: Directions)
    ensures
        forall|d: Direction| r.has(d) == (d == p || d == reflect(p, flip)),
{
    Directions::single(p).union(Directions::single(reflect_exec(p, flip)))
}

impl BeamTile {
    /// Checks if a tile is powered. This should be more efficient than
    /// power_direction, which only needs to be called if the tile is powered.
    pub fn is_powered(&self) -> (r: bool)
        ensures
            r == is_powered_spec(*self),
    {
        match self {
            BeamTile::Emitter { active, .. } => *active,
            BeamTile::Beam { .. } => true,
            BeamTile::CrossBeam { .. } => true,
            BeamTile::Detector { powered } => powered.any(),
            BeamTile::Galvo { powered, .. } => powered.any(),
            BeamTile::Wall { powered } => powered.any(),
            BeamTile::Delay { last_powered, .. } => last_powered.any(),
            BeamTile::Mirror { powered, .. } => powered[0].is_some() || powered[1].is_some(),
            BeamTile::Splitter { powered, .. } => powered.any(),
            BeamTile::Empty => false,
        }
    }

    /// Returns the directions of power output from a tile.
    pub fn power_direction(&self) -> (r: Directions)
        ensures
            forall|d: Direction| r.has(d) == emits(*self, d),
    {
        match self {
            BeamTile::Beam { direction, .. } => Directions::single(*direction),
            BeamTile::Emitter { direction, active } => {
                if *active {
                    Directions::single(*direction)
                } else {
                    Directions::empty()
                }
            },
            BeamTile::CrossBeam { directions } => {
                Directions::single(directions[0]).union(Directions::single(directions[1]))
            },
            BeamTile::Mirror { galvoed, powered, direction } => {
                let flip = !(*direction != galvoed.any());
                let mut out = Directions::empty();
                if let Some(p) = powered[0] {
                    out = out.union(Directions::single(reflect_exec(p, flip)));
                }
                if let Some(p) = powered[1] {
                    out = out.union(Directions::single(reflect_exec(p, flip)));
                }
                out
            },
            BeamTile::Splitter { direction, powered } => {
                let flip = !*direction;
                let mut out = Directions::empty();
                if powered.up {
                    out = out.union(splitter_output(Direction::Up, flip));
                }
                if powered.right {
                    out = out.union(splitter_output(Direction::Right, flip));
                }
                if powered.down {
                    out = out.union(splitter_output(Direction::Down, flip));
                }
                if powered.left {
                    out = out.union(splitter_output(Direction::Left, flip));
                }
                proof {
                    assert forall|d: Direction| out.has(d) == emits(*self, d) by {
                        if out.has(d) {
                            if powered.up && (d == Direction::Up || d == reflect(Direction::Up, flip)) {
                                assert(powered.has(Direction::Up));
                            } else if powered.right && (d == Direction::Right || d == reflect(Direction::Right, flip)) {
                                assert(powered.has(Direction::Right));
                            } else if powered.down && (d == Direction::Down || d == reflect(Direction::Down, flip)) {
                                assert(powered.has(Direction::Down));
                            } else {
                                assert(powered.has(Direction::Left));
                            }
                        }
                    }
                }
                out
            },
            BeamTile::Delay { last_powered, .. } => *last_powered,
            _ => Directions::empty(),
        }
    }

    /// The placement, galvos and powered sides of a mirror, the last two to
    /// be changed in place.
    pub fn mirror_mut(&mut self) -> (r: (bool, &mut Directions, &mut [Option<Direction>; 2]))
        requires
            *old(self) is Mirror,
        ensures
            r.0 == old(self)->Mirror_direction,
            *r.1 == old(self)->Mirror_galvoed,
            *r.2 == old(self)->Mirror_powered,
            *final(self) == (BeamTile::Mirror {
                galvoed: *final(r.1),
                direction: r.0,
                powered: *final(r.2),
            }),
    {
        match self {
            BeamTile::Mirror { galvoed, direction, powered } => (*direction, galvoed, powered),
            _ => vstd::pervasive::unreached(),
        }
    }

    /// The directions a splitter is powered from, to be changed in place.
    pub fn splitter_mut(&mut self) -> (r: &mut Directions)
        requires
            *old(self) is Splitter,
        ensures
            *r == old(self)->Splitter_powered,
            *final(self) == (BeamTile::Splitter {
                direction: old(self)->Splitter_direction,
                powered: *final(r),
            }),
    {
        match self {
            BeamTile::Splitter { powered, .. } => powered,
            _ => vstd::pervasive::unreached(),
        }
    }

    /// What a delay is powered from now and was in the previous tick, to be
    /// changed in place.
    pub fn delay_mut(&mut self) -> (r: (&mut Directions, &mut Directions))
        requires
            *old(self) is Delay,
        ensures
            *r.0 == old(self)->Delay_powered,
            *r.1 == old(self)->Delay_last_powered,
            *final(self) == (BeamTile::Delay { powered: *final(r.0), last_powered: *final(r.1) }),
    {
        match self {
            BeamTile::Delay { powered, last_powered } => (powered, last_powered),
            _ => vstd::pervasive::unreached(),
        }
    }

    /// The directions a galvo, wall or detector is powered from, to be
    /// changed in place.
    pub fn directions_mut(&mut self) -> (r: &mut Directions)
        requires
            *old(self) is Galvo || *old(self) is Wall || *old(self) is Detector,
        ensures
            ({
                let before = *old(self);
                match before {
                    BeamTile::Galvo { direction, powered } => *r == powered && *final(self) == (
                    BeamTile::Galvo { direction, powered: *final(r) }),
                    BeamTile::Wall { powered } => *r == powered && *final(self) == (BeamTile::Wall {
                        powered: *final(r),
                    }),
                    BeamTile::Detector { powered } => *r == powered && *final(self) == (
                    BeamTile::Detector { powered: *final(r) }),
                    _ => false,
                }
            }),
    {
        match self {
            BeamTile::Galvo { powered, .. } => powered,
            BeamTile::Wall { powered } => powered,
            BeamTile::Detector { powered } => powered,
            _ => vstd::pervasive::unreached(),
        }
    }
}

} // verus!
