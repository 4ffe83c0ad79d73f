use vstd::prelude::*;

use crate::direction::{
    flip_horizontal_spec, flip_vertical_spec, rotate_reverse_spec, rotate_spec, Direction,
};

verus! {

/// A component placed on the board by the player.
#[derive(Debug, Copy, Clone, PartialEq, Eq, Structural)]
pub enum Tile {
    Empty,
    Detector { id: Option<u32> },
    Delay,
    Emitter { rotation: Direction, active: bool, id: Option<u32> },
    Mirror { rotation: bool },
    Splitter { rotation: bool },
    Galvo { rotation: Direction },
    Wall,
}

/// The kind of a non-empty tile.
#[derive(Debug, Clone, Copy, PartialEq, Eq, Hash, Structural)]
pub enum TileType {
    Detector,
    Delay,
    Emitter,
    Mirror,
    Splitter,
    Galvo,
    Wall,
}

pub open spec fn price_spec(t: Tile) -> u32 {
    match t {
        Tile::Empty => 0,
        Tile::Detector { .. } => 5000,
        Tile::Emitter { .. } => 1000,
        Tile::Delay => 500,
        Tile::Mirror { .. } => 200,
        Tile::Splitter { .. } => 300,
        Tile::Galvo { .. } => 500,
        Tile::Wall => 100,
    }
}

pub open spec fn id_spec(t: Tile) -> Option<u32> {
    match t {
        Tile::Emitter { id, .. } => id,
        Tile::Detector { id } => id,
        _ => None,
    }
}

pub open spec fn as_type_spec(t: Tile) -> TileType
    recommends
        t != Tile::Empty,
{
    match t {
        Tile::Detector { .. } => TileType::Detector,
        Tile::Delay => TileType::Delay,
        Tile::Emitter { .. } => TileType::Emitter,
        Tile::Mirror { .. } => TileType::Mirror,
        Tile::Splitter { .. } => TileType::Splitter,
        Tile::Galvo { .. } => TileType::Galvo,
        _ => TileType::Wall,
    }
}

pub open spec fn rotate_tile(t: Tile) -> Tile {
    match t {
        Tile::Emitter { rotation, active, id } => Tile::Emitter {
            rotation: rotate_spec(rotation),
            active,
            id,
        },
        Tile::Mirror { rotation } => Tile::Mirror { rotation: !rotation },
        Tile::Splitter { rotation } => Tile::Splitter { rotation: !rotation },
        Tile::Galvo { rotation } => Tile::Galvo { rotation: rotate_spec(rotation) },
        x => x,
    }
}

pub open spec fn rotate_reverse_tile(t: Tile) -> Tile {
    match t {
        Tile::Emitter { rotation, active, id } => Tile::Emitter {
            rotation: rotate_reverse_spec(rotation),
            active,
            id,
        },
        Tile::Galvo { rotation } => Tile::Galvo { rotation: rotate_reverse_spec(rotation) },
        x => rotate_tile(x),
    }
}

pub open spec fn flip_horizontal_tile(t: Tile) -> Tile {
    match t {
        Tile::Emitter { rotation, active, id } => Tile::Emitter {
            rotation: flip_horizontal_spec(rotation),
            active,
            id,
        },
        Tile::Galvo { rotation } => Tile::Galvo { rotation: flip_horizontal_spec(rotation) },
        Tile::Mirror { .. } => rotate_tile(t),
        Tile::Splitter { .. } => rotate_tile(t),
        x => x,
    }
}

pub open spec fn flip_vertical_tile(t: Tile) -> Tile {
    match t {
        Tile::Emitter { rotation, active, id } => Tile::Emitter {
            rotation: flip_vertical_spec(rotation),
            active,
            id,
        },
        Tile::Galvo { rotation } => Tile::Galvo { rotation: flip_vertical_spec(rotation) },
        Tile::Mirror { .. } => rotate_tile(t),
        Tile::Splitter { .. } => rotate_tile(t),
        x => x,
    }
}

pub open spec fn activate_tile(t: Tile) -> Tile {
    match t {
        Tile::Emitter { rotation, active, id } => Tile::Emitter { rotation, active: !active, id },
        x => x,
    }
}

impl Tile {
    /// The placeable tiles offered in the tile panel, in panel order.
    pub fn defaults() -> (r: [Tile; 7])
        ensures
            r@ == seq![
                Tile::Mirror { rotation: false },
                Tile::Splitter { rotation: false },
                Tile::Galvo { rotation: Direction::Up },
                Tile::Emitter { rotation: Direction::Up, active: true, id: None },
                Tile::Delay,
                Tile::Wall,
                Tile::Detector { id: None },
            ],
    {
        [
            Tile::Mirror { rotation: false },
            Tile::Splitter { rotation: false },
            Tile::Galvo { rotation: Direction::Up },
            Tile::Emitter { rotation: Direction::Up, active: true, id: None },
            Tile::Delay,
            Tile::Wall,
            Tile::Detector { id: None },
        ]
    }

    pub fn is_empty(&self) -> (r: bool)
        ensures
            r == (*self == Tile::Empty),
    {
        matches!(self, Tile::Empty)
    }

    /// The display name of a non-empty tile.
    pub fn name(&self) -> (r: &'static str)
        requires
            *self != Tile::Empty,
        ensures
            r@ == (match *self {
                Tile::Detector { .. } => "Detector"@,
                Tile::Emitter { .. } => "Emitter"@,
                Tile::Delay => "Delay"@,
                Tile::Mirror { .. } => "Mirror"@,
                Tile::Splitter { .. } => "Splitter"@,
                Tile::Galvo { .. } => "Galvo"@,
                _ => "Wall"@,
            }),
    {
        match self {
            Tile::Detector { .. } => "Detector",
            Tile::Emitter { .. } => "Emitter",
            Tile::Delay => "Delay",
            Tile::Mirror { .. } => "Mirror",
            Tile::Splitter { .. } => "Splitter",
            Tile::Galvo { .. } => "Galvo",
            _ => "Wall",
        }
    }

    pub fn price(&self) -> (r: u32)
        ensures
            r == price_spec(*self),
    {
        match self {
            Tile::Empty => 0,
            Tile::Detector { .. } => 5000,
            Tile::Emitter { .. } => 1000,
            Tile::Delay => 500,
            Tile::Mirror { .. } => 200,
            Tile::Splitter { .. } => 300,
            Tile::Galvo { .. } => 500,
            Tile::Wall => 100,
        }
    }

    /// The kind of a non-empty tile.
    pub fn as_type(&self) -> (r: TileType)
        requires
            *self != Tile::Empty,
        ensures
            r == as_type_spec(*self),
    {
        match self {
            Tile::Detector { .. } => TileType::Detector,
            Tile::Delay => TileType::Delay,
            Tile::Emitter { .. } => TileType::Emitter,
            Tile::Mirror { .. } => TileType::Mirror,
            Tile::Splitter { .. } => TileType::Splitter,
            Tile::Galvo { .. } => TileType::Galvo,
            _ => TileType::Wall,
        }
    }

    /// Returns the tile's dynamic id if it has one. Used for mapping physical
    /// tiles to level labels and checkers.
    pub fn id(&self) -> (r: Option<u32>)
        ensures
            r == id_spec(*self),
    {
        match self {
            Tile::Emitter { id, .. } => *id,
            Tile::Detector { id } => *id,
            _ => None,
        }
    }

    pub fn rotate(self) -> (r: Tile)
        ensures
            r == rotate_tile(self),
    {
        match self {
            Tile::Emitter { rotation, active, id } => Tile::Emitter {
                rotation: rotation.rotate(),
                active,
                id,
            },
            Tile::Mirror { rotation } => Tile::Mirror { rotation: !rotation },
            Tile::Splitter { rotation } => Tile::Splitter { rotation: !rotation },
            Tile::Galvo { rotation } => Tile::Galvo { rotation: rotation.rotate() },
            x => x,
        }
    }

    pub fn rotate_reverse(self) -> (r: Tile)
        ensures
            r == rotate_reverse_tile(self),
    {
        match self {
            Tile::Emitter { rotation, active, id } => Tile::Emitter {
                rotation: rotation.rotate_reverse(),
                active,
                id,
            },
            Tile::Galvo { rotation } => Tile::Galvo { rotation: rotation.rotate_reverse() },
            x => x.rotate(),
        }
    }

    pub fn flip_horizontal(self) -> (r: Tile)
        ensures
            r == flip_horizontal_tile(self),
    {
        match self {
            Tile::Emitter { rotation, active, id } => Tile::Emitter {
                rotation: rotation.flip_horizontal(),
                active,
                id,
            },
            Tile::Galvo { rotation } => Tile::Galvo { rotation: rotation.flip_horizontal() },
            Tile::Mirror { .. } => self.rotate(),
            Tile::Splitter { .. } => self.rotate(),
            x => x,
        }
    }

    pub fn flip_vertical(self) -> (r: Tile)
        ensures
            r == flip_vertical_tile(self),
    {
        match self {
            Tile::Emitter { rotation, active, id } => Tile::Emitter {
                rotation: rotation.flip_vertical(),
                active,
                id,
            },
            Tile::Galvo { rotation } => Tile::Galvo { rotation: rotation.flip_vertical() },
            Tile::Mirror { .. } => self.rotate(),
            Tile::Splitter { .. } => self.rotate(),
            x => x,
        }
    }

    /// Toggles an emitter on or off; other tiles are returned unchanged.
    pub fn activate(self) -> (r: Tile)
        ensures
            r == activate_tile(self),
    {
        match self {
            Tile::Emitter { rotation, active, id } => Tile::Emitter {
                rotation,
                active: !active,
                id,
            },
            x => x,
        }
    }
}

impl Default for Tile {
    fn default() -> (r: Tile)
        ensures
            r == Tile::Empty,
    {
        Tile::Empty
    }
}

/// Rotating a tile four times gives it back unchanged.
pub proof fn law_rotate_four_times(t: Tile)
    ensures
        rotate_tile(rotate_tile(rotate_tile(rotate_tile(t)))) == t,
{
}

/// Rotating a tile one way and then the other gives it back unchanged, in
/// either order.
pub proof fn law_rotate_inverse(t: Tile)
    ensures
        rotate_reverse_tile(rotate_tile(t)) == t,
        rotate_tile(rotate_reverse_tile(t)) == t,
{
}

/// Flipping a tile twice, horizontally or vertically, gives it back unchanged.
pub proof fn law_flip_involution(t: Tile)
    ensures
        flip_horizontal_tile(flip_horizontal_tile(t)) == t,
        flip_vertical_tile(flip_vertical_tile(t)) == t,
{
}

/// Toggling an emitter twice gives it back unchanged.
pub proof fn law_activate_involution(t: Tile)
    ensures
        activate_tile(activate_tile(t)) == t,
{
}

/// Rotating, flipping and toggling keep a tile's kind, id and price.
pub proof fn law_transform_keeps_identity(t: Tile)
    ensures
        id_spec(rotate_tile(t)) == id_spec(t),
        id_spec(rotate_reverse_tile(t)) == id_spec(t),
        id_spec(flip_horizontal_tile(t)) == id_spec(t),
        id_spec(flip_vertical_tile(t)) == id_spec(t),
        id_spec(activate_tile(t)) == id_spec(t),
        price_spec(rotate_tile(t)) == price_spec(t),
        price_spec(rotate_reverse_tile(t)) == price_spec(t),
        price_spec(flip_horizontal_tile(t)) == price_spec(t),
        price_spec(flip_vertical_tile(t)) == price_spec(t),
        price_spec(activate_tile(t)) == price_spec(t),
        as_type_spec(rotate_tile(t)) == as_type_spec(t),
        as_type_spec(rotate_reverse_tile(t)) == as_type_spec(t),
        as_type_spec(flip_horizontal_tile(t)) == as_type_spec(t),
        as_type_spec(flip_vertical_tile(t)) == as_type_spec(t),
        as_type_spec(activate_tile(t)) == as_type_spec(t),
{
}

/// The direction `d` seen in a mirror standing upright: left and right
/// swap, up and down stay.
pub open spec fn mirrored_left_right(d: Direction) -> Direction {
    match d {
        Direction::Left => Direction::Right,
        Direction::Right => Direction::Left,
        Direction::Up => Direction::Up,
        Direction::Down => Direction::Down,
    }
}

/// The direction `d` seen in a mirror lying flat: up and down swap, left
/// and right stay.
pub open spec fn mirrored_up_down(d: Direction) -> Direction {
    match d {
        Direction::Up => Direction::Down,
        Direction::Down => Direction::Up,
        Direction::Left => Direction::Left,
        Direction::Right => Direction::Right,
    }
}

/// Flipping a tile horizontally mirrors it left-right: an emitter or galvo
/// facing left faces right and the other way round, one facing up or down
/// keeps its facing. Flipping vertically mirrors it up-down. Either flip
/// turns a mirror or splitter into the other diagonal and leaves walls,
/// delays and detectors as they are.
pub proof fn law_flips_mirror_directions(t: Tile)
    ensures
        match t {
            Tile::Emitter { rotation, active, id } => {
                &&& flip_horizontal_tile(t) == (Tile::Emitter {
                    rotation: mirrored_left_right(rotation),
                    active,
                    id,
                })
                &&& flip_vertical_tile(t) == (Tile::Emitter {
                    rotation: mirrored_up_down(rotation),
                    active,
                    id,
                })
            },
            Tile::Galvo { rotation } => {
                &&& flip_horizontal_tile(t) == (Tile::Galvo { rotation: mirrored_left_right(rotation) })
                &&& flip_vertical_tile(t) == (Tile::Galvo { rotation: mirrored_up_down(rotation) })
            },
            Tile::Mirror { rotation } => {
                &&& flip_horizontal_tile(t) == (Tile::Mirror { rotation: !rotation })
                &&& flip_vertical_tile(t) == (Tile::Mirror { rotation: !rotation })
            },
            Tile::Splitter { rotation } => {
                &&& flip_horizontal_tile(t) == (Tile::Splitter { rotation: !rotation })
                &&& flip_vertical_tile(t) == (Tile::Splitter { rotation: !rotation })
            },
            _ => flip_horizontal_tile(t) == t && flip_vertical_tile(t) == t,
        },
{
}

} // verus!
