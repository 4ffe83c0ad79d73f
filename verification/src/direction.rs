use vstd::prelude::*;

verus! {

/// A cell of the (unbounded) grid. `y` grows upwards.
#[derive(Clone, Copy, Debug, PartialEq, Eq, Hash, Structural)]
pub struct Pos {
    pub x: i32,
    pub y: i32,
}

impl Pos {
    pub fn new(x: i32, y: i32) -> (r: Pos)
        ensures
            r == (Pos { x, y }),
    {
        Pos { x, y }
    }

    /// Strict lexicographic order on positions: first by `x`, then by `y`.
    pub open spec fn lt(self, other: Pos) -> bool {
        self.x < other.x || (self.x == other.x && self.y < other.y)
    }

    pub fn less_than(&self, other: &Pos) -> (r: bool)
        ensures
            r == self.lt(*other),
    {
        self.x < other.x || (self.x == other.x && self.y < other.y)
    }
}

/// Whether `pos` lies in the rectangle spanned by the corners `min` and `max`
/// (both corners included).
pub open spec fn in_bounds_spec(pos: Pos, min: Pos, max: Pos) -> bool {
    min.x <= pos.x <= max.x && min.y <= pos.y <= max.y
}

pub fn in_bounds(pos: Pos, bounds: (Pos, Pos)) -> (r: bool)
    ensures
        r == in_bounds_spec(pos, bounds.0, bounds.1),
{
    bounds.0.x <= pos.x && pos.x <= bounds.1.x && bounds.0.y <= pos.y && pos.y <= bounds.1.y
}

/// One of the four grid directions, listed clockwise starting from `Up`.
#[derive(Clone, Copy, Debug, PartialEq, Eq, Hash, Structural)]
pub enum Direction {
    Up,
    Right,
    Down,
    Left,
}

/// Spec of the clockwise index of a direction.
pub open spec fn dir_index(d: Direction) -> int {
    match d {
        Direction::Up => 0,
        Direction::Right => 1,
        Direction::Down => 2,
        Direction::Left => 3,
    }
}

/// Spec of the direction with a given clockwise index (taken modulo 4).
pub open spec fn dir_of_index(i: int) -> Direction {
    let j = i % 4;
    if j == 0 {
        Direction::Up
    } else if j == 1 {
        Direction::Right
    } else if j == 2 {
        Direction::Down
    } else {
        Direction::Left
    }
}

pub open spec fn opposite_spec(d: Direction) -> Direction {
    dir_of_index(dir_index(d) + 2)
}

pub open spec fn rotate_spec(d: Direction) -> Direction {
    dir_of_index(dir_index(d) + 1)
}

pub open spec fn rotate_reverse_spec(d: Direction) -> Direction {
    dir_of_index(dir_index(d) + 3)
}

pub open spec fn flip_horizontal_spec(d: Direction) -> Direction {
    match d {
        Direction::Left => Direction::Right,
        Direction::Right => Direction::Left,
        _ => d,
    }
}

pub open spec fn flip_vertical_spec(d: Direction) -> Direction {
    match d {
        Direction::Up => Direction::Down,
        Direction::Down => Direction::Up,
        _ => d,
    }
}

/// Whether the direction lies on the vertical axis.
pub open spec fn is_vertical(d: Direction) -> bool {
    d == Direction::Up || d == Direction::Down
}

pub open spec fn is_perpendicular_spec(a: Direction, b: Direction) -> bool {
    is_vertical(a) != is_vertical(b)
}

/// The neighbour of `pos` one step in direction `d`; coordinates wrap around
/// at the edge of the `i32` range.
pub open spec fn offset_spec(d: Direction, pos: Pos) -> Pos {
    match d {
        Direction::Up => Pos { x: pos.x, y: vstd::wrapping::i32_specs::wrapping_add(pos.y, 1i32) },
        Direction::Down => Pos { x: pos.x, y: vstd::wrapping::i32_specs::wrapping_add(pos.y, -1i32) },
        Direction::Right => Pos { x: vstd::wrapping::i32_specs::wrapping_add(pos.x, 1i32), y: pos.y },
        Direction::Left => Pos { x: vstd::wrapping::i32_specs::wrapping_add(pos.x, -1i32), y: pos.y },
    }
}

/// The reflection table of a mirror placed as `/`, indexed by the incoming
/// direction: the value is the opposite of the outgoing direction.
pub open spec fn mirror_reflection(d: Direction) -> Direction {
    match d {
        Direction::Up => Direction::Left,
        Direction::Right => Direction::Down,
        Direction::Down => Direction::Right,
        Direction::Left => Direction::Up,
    }
}

pub fn mirror_reflections(d: Direction) -> (r: Direction)
    ensures
        r == mirror_reflection(d),
{
    let table: [Direction; 4] = [Direction::Left, Direction::Down, Direction::Right, Direction::Up];
    let i = d.index();
    table[i]
}

impl Direction {
    pub fn index(self) -> (r: usize)
        ensures
            r == dir_index(self),
    {
        match self {
            Direction::Up => 0,
            Direction::Right => 1,
            Direction::Down => 2,
            Direction::Left => 3,
        }
    }

    /// All four directions in clockwise order.
    pub fn all() -> (r: [Direction; 4])
        ensures
            r@ == seq![Direction::Up, Direction::Right, Direction::Down, Direction::Left],
    {
        [Direction::Up, Direction::Right, Direction::Down, Direction::Left]
    }

    pub fn rotate(self) -> (r: Direction)
        ensures
            r == rotate_spec(self),
    {
        match self {
            Direction::Up => Direction::Right,
            Direction::Right => Direction::Down,
            Direction::Down => Direction::Left,
            Direction::Left => Direction::Up,
        }
    }

    pub fn rotate_reverse(self) -> (r: Direction)
        ensures
            r == rotate_reverse_spec(self),
    {
        match self {
            Direction::Up => Direction::Left,
            Direction::Right => Direction::Up,
            Direction::Down => Direction::Right,
            Direction::Left => Direction::Down,
        }
    }

    pub fn opposite(self) -> (r: Direction)
        ensures
            r == opposite_spec(self),
    {
        match self {
            Direction::Up => Direction::Down,
            Direction::Right => Direction::Left,
            Direction::Down => Direction::Up,
            Direction::Left => Direction::Right,
        }
    }

    /// The opposite direction when `cond` holds, the direction itself otherwise.
    pub fn opposite_if(self, cond: bool) -> (r: Direction)
        ensures
            r == (if cond { opposite_spec(self) } else { self }),
    {
        if cond {
            self.opposite()
        } else {
            self
        }
    }

    pub fn flip_horizontal(self) -> (r: Direction)
        ensures
            r == flip_horizontal_spec(self),
    {
        match self {
            Direction::Left => Direction::Right,
            Direction::Right => Direction::Left,
            _ => self,
        }
    }

    pub fn flip_vertical(self) -> (r: Direction)
        ensures
            r == flip_vertical_spec(self),
    {
        match self {
            Direction::Up => Direction::Down,
            Direction::Down => Direction::Up,
            _ => self,
        }
    }

    pub fn is_perpendicular(self, other: Direction) -> (r: bool)
        ensures
            r == is_perpendicular_spec(self, other),
    {
        let a = matches!(self, Direction::Up | Direction::Down);
        let b = matches!(other, Direction::Up | Direction::Down);
        a != b
    }

    pub fn offset(self, pos: Pos) -> (r: Pos)
        ensures
            r == offset_spec(self, pos),
    {
        match self {
            Direction::Up => Pos { x: pos.x, y: pos.y.wrapping_add(1) },
            Direction::Down => Pos { x: pos.x, y: pos.y.wrapping_add(-1) },
            Direction::Right => Pos { x: pos.x.wrapping_add(1), y: pos.y },
            Direction::Left => Pos { x: pos.x.wrapping_add(-1), y: pos.y },
        }
    }
}

/// A set of directions.
#[derive(Clone, Copy, Debug, PartialEq, Eq, Hash, Structural)]
pub struct Directions {
    pub up: bool,
    pub right: bool,
    pub down: bool,
    pub left: bool,
}

impl Directions {
    /// Membership of `d` in the set.
    pub open spec fn has(self, d: Direction) -> bool {
        match d {
            Direction::Up => self.up,
            Direction::Right => self.right,
            Direction::Down => self.down,
            Direction::Left => self.left,
        }
    }

    pub open spec fn any_spec(self) -> bool {
        self.up || self.right || self.down || self.left
    }

    /// Number of directions in the set.
    pub open spec fn count(self) -> int {
        (if self.up { 1int } else { 0 }) + (if self.right { 1int } else { 0 }) + (if self.down {
            1int
        } else {
            0
        }) + (if self.left { 1int } else { 0 })
    }

    /// The members, in clockwise order starting from `Up`.
    pub open spec fn members(self) -> Seq<Direction> {
        (if self.up { seq![Direction::Up] } else { Seq::empty() }) + (if self.right {
            seq![Direction::Right]
        } else {
            Seq::empty()
        }) + (if self.down { seq![Direction::Down] } else { Seq::empty() }) + (if self.left {
            seq![Direction::Left]
        } else {
            Seq::empty()
        })
    }

    /// The set with `d` included (when `v`) or excluded (otherwise).
    pub open spec fn with(self, d: Direction, v: bool) -> Directions {
        match d {
            Direction::Up => Directions { up: v, ..self },
            Direction::Right => Directions { right: v, ..self },
            Direction::Down => Directions { down: v, ..self },
            Direction::Left => Directions { left: v, ..self },
        }
    }

    pub open spec fn union_spec(self, other: Directions) -> Directions {
        Directions {
            up: self.up || other.up,
            right: self.right || other.right,
            down: self.down || other.down,
            left: self.left || other.left,
        }
    }

    pub open spec fn empty_spec() -> Directions {
        Directions { up: false, right: false, down: false, left: false }
    }

    pub fn empty() -> (r: Directions)
        ensures
            r == Directions::empty_spec(),
            forall|d: Direction| !r.has(d),
    {
        Directions { up: false, right: false, down: false, left: false }
    }

    /// The set holding exactly `d`.
    pub fn single(d: Direction) -> (r: Directions)
        ensures
            r == Directions::empty_spec().with(d, true),
            forall|x: Direction| r.has(x) == (x == d),
    {
        Directions::empty().with_dir(d, true)
    }

    pub fn any(&self) -> (r: bool)
        ensures
            r == self.any_spec(),
            r == (exists|d: Direction| self.has(d)),
    {
        proof {
            if self.up {
                assert(self.has(Direction::Up));
            }
            if self.right {
                assert(self.has(Direction::Right));
            }
            if self.down {
                assert(self.has(Direction::Down));
            }
            if self.left {
                assert(self.has(Direction::Left));
            }
        }
        self.up || self.right || self.down || self.left
    }

    pub fn contains(&self, d: Direction) -> (r: bool)
        ensures
            r == self.has(d),
    {
        match d {
            Direction::Up => self.up,
            Direction::Right => self.right,
            Direction::Down => self.down,
            Direction::Left => self.left,
        }
    }

    /// A copy of the set with `d` included (when `v`) or excluded (otherwise).
    pub fn with_dir(self, d: Direction, v: bool) -> (r: Directions)
        ensures
            r == self.with(d, v),
            forall|x: Direction| r.has(x) == (if x == d { v } else { self.has(x) }),
    {
        match d {
            Direction::Up => Directions { up: v, ..self },
            Direction::Right => Directions { right: v, ..self },
            Direction::Down => Directions { down: v, ..self },
            Direction::Left => Directions { left: v, ..self },
        }
    }

    /// Includes (when `v`) or excludes (otherwise) `d`.
    pub fn set(&mut self, d: Direction, v: bool)
        ensures
            *final(self) == old(self).with(d, v),
    {
        *self = self.with_dir(d, v);
    }

    pub fn union(self, other: Directions) -> (r: Directions)
        ensures
            r == self.union_spec(other),
            forall|x: Direction| r.has(x) == (self.has(x) || other.has(x)),
    {
        Directions {
            up: self.up || other.up,
            right: self.right || other.right,
            down: self.down || other.down,
            left: self.left || other.left,
        }
    }

    /// Whether some direction other than `d` is in the set.
    pub fn any_but(&self, d: Direction) -> (r: bool)
        ensures
            r == (exists|x: Direction| x != d && self.has(x)),
    {
        let r = self.with_dir(d, false).any();
        proof {
            if r {
                let x = choose|x: Direction| self.with(d, false).has(x);
                assert(x != d && self.has(x));
            }
        }
        r
    }

    /// Whether the set has an odd number of members.
    pub fn odd_count(&self) -> (r: bool)
        ensures
            r == (self.count() % 2 == 1),
    {
        let mut n: u8 = 0;
        if self.up {
            n = n + 1;
        }
        if self.right {
            n = n + 1;
        }
        if self.down {
            n = n + 1;
        }
        if self.left {
            n = n + 1;
        }
        n % 2 == 1
    }

    /// The members, in clockwise order starting from `Up`.
    pub fn iter(&self) -> (r: Vec<Direction>)
        ensures
            r@ == self.members(),
    {
        let mut v: Vec<Direction> = Vec::new();
        if self.up {
            v.push(Direction::Up);
        }
        if self.right {
            v.push(Direction::Right);
        }
        if self.down {
            v.push(Direction::Down);
        }
        if self.left {
            v.push(Direction::Left);
        }
        proof {
            assert(v@ =~= self.members());
        }
        v
    }

    /// The set as four bits, `Up` in the lowest one.
    pub open spec fn bits_spec(self) -> u8 {
        ((if self.up { 1u8 } else { 0u8 }) + (if self.right { 2u8 } else { 0u8 }) + (if self.down {
            4u8
        } else {
            0u8
        }) + (if self.left { 8u8 } else { 0u8 })) as u8
    }

    pub fn bits(&self) -> (r: u8)
        ensures
            r == self.bits_spec(),
    {
        let a: u8 = if self.up { 1 } else { 0 };
        let b: u8 = if self.right { 2 } else { 0 };
        let c: u8 = if self.down { 4 } else { 0 };
        let d: u8 = if self.left { 8 } else { 0 };
        a + b + c + d
    }
}

} // verus!
