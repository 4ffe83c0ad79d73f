use vstd::prelude::*;

use crate::direction::Pos;
use crate::tile::{
    activate_tile, flip_horizontal_tile, flip_vertical_tile, id_spec, rotate_reverse_tile,
    rotate_tile, Tile,
};

verus! {

/// What the player is holding on the cursor: nothing, one tile picked from
/// the palette, or a copied group of tiles with their offsets.
#[derive(Debug, Clone, PartialEq, Eq)]
pub enum Holding {
    Nothing,
    Tile(Tile),
    Paste(Vec<(Pos, Tile)>),
}

impl Default for Holding {
    fn default() -> (r: Holding)
        ensures
            r is Nothing,
    {
        Holding::Nothing
    }
}

/// The keys that change what is held.
#[derive(Clone, Copy, Debug, PartialEq, Eq, Structural)]
pub enum HeldKey {
    Rotate,
    RotateReverse,
    FlipVertical,
    FlipHorizontal,
    Toggle,
}

/// A held item at offset `p` after `key`: the offset is turned or mirrored
/// about the cursor, and the tile with it.
pub open spec fn moved_item(key: HeldKey, p: Pos, t: Tile) -> (Pos, Tile) {
    match key {
        HeldKey::Rotate => (Pos { x: p.y, y: (-p.x) as i32 }, rotate_tile(t)),
        HeldKey::RotateReverse => (Pos { x: (-p.y) as i32, y: p.x }, rotate_reverse_tile(t)),
        HeldKey::FlipVertical => (Pos { x: p.x, y: (-p.y) as i32 }, flip_vertical_tile(t)),
        HeldKey::FlipHorizontal => (Pos { x: (-p.x) as i32, y: p.y }, flip_horizontal_tile(t)),
        HeldKey::Toggle => (p, t),
    }
}

/// Whether every offset of `items` can be turned or mirrored by `key`
/// without leaving the grid.
pub open spec fn transform_fits(key: HeldKey, items: Seq<(Pos, Tile)>) -> bool {
    forall|i: int|
        0 <= i < items.len() ==> match key {
            HeldKey::Rotate | HeldKey::FlipHorizontal => (#[trigger] items[i]).0.x > i32::MIN,
            HeldKey::RotateReverse | HeldKey::FlipVertical => items[i].0.y > i32::MIN,
            HeldKey::Toggle => true,
        }
}

/// Whether some held tile carries the id `id`.
pub open spec fn holds_id(h: Holding, id: u32) -> bool {
    match h {
        Holding::Nothing => false,
        Holding::Tile(t) => id_spec(t) == Some(id),
        Holding::Paste(items) => exists|i: int|
            0 <= i < items@.len() && #[trigger] id_spec(items@[i].1) == Some(id),
    }
}

/// Whether some held tile carries an id.
pub open spec fn holds_dynamic(h: Holding) -> bool {
    match h {
        Holding::Nothing => false,
        Holding::Tile(t) => id_spec(t) is Some,
        Holding::Paste(items) => exists|i: int|
            0 <= i < items@.len() && (#[trigger] id_spec(items@[i].1)) is Some,
    }
}

/// Whether `s` is strictly increasing.
pub open spec fn strictly_increasing(s: Seq<u32>) -> bool {
    forall|i: int, j: int| 0 <= i < j < s.len() ==> s[i] < s[j]
}

/// Adds `x` to the ascending list `v`, keeping it ascending without
/// repetitions.
fn insert_sorted(v: &mut Vec<u32>, x: u32)
    requires
        strictly_increasing(old(v)@),
    ensures
        strictly_increasing(final(v)@),
        forall|y: u32| final(v)@.contains(y) <==> (old(v)@.contains(y) || y == x),
{
    let mut i: usize = 0;
    while i < v.len() && v[i] < x
        invariant
            i <= v@.len(),
            v@ == old(v)@,
            strictly_increasing(v@),
            forall|k: int| 0 <= k < i ==> v@[k] < x,
        decreases v@.len() - i,
    {
        i = i + 1;
    }
    if i < v.len() && v[i] == x {
        proof {
            assert forall|y: u32| v@.contains(y) <==> (old(v)@.contains(y) || y == x) by {
                if y == x {
                    assert(v@[i as int] == x);
                }
            }
        }
        return;
    }
    let ghost before = v@;
    assert(before == old(v)@);
    v.insert(i, x);
    proof {
        assert(v@ == before.insert(i as int, x));
        assert forall|a: int, b: int| 0 <= a < b < v@.len() implies v@[a] < v@[b] by {
            if b < i {
            } else if b == i {
            } else if a < i {
                assert(before[b - 1] >= x);
            } else if a == i {
                assert(before[b - 1] >= x);
                if i < before.len() {
                    assert(before[i as int] > x);
                    assert(before[i as int] <= before[b - 1]);
                }
            } else {
                assert(before[a - 1] < before[b - 1]);
            }
        }
        assert forall|y: u32| v@.contains(y) <==> (before.contains(y) || y == x) by {
            if v@.contains(y) {
                let k = choose|k: int| 0 <= k < v@.len() && v@[k] == y;
                if k < i {
                    assert(before[k] == y);
                } else if k > i {
                    assert(before[k - 1] == y);
                }
            }
            if before.contains(y) {
                let k = choose|k: int| 0 <= k < before.len() && before[k] == y;
                if k < i {
                    assert(v@[k] == y);
                } else {
                    assert(v@[k + 1] == y);
                }
            }
            if y == x {
                assert(v@[i as int] == x);
            }
        }
    }
}

impl Holding {
    /// Turns, mirrors or switches what is held: a single tile turns either
    /// way or switches on and off; a copied group turns or mirrors about the
    /// cursor, each tile with it. Every other key leaves the holding as it is.
    pub fn transform(&mut self, key: HeldKey)
        requires
            *old(self) matches Holding::Paste(v) ==> key == HeldKey::Toggle || transform_fits(
                key,
                v@,
            ),
        ensures
            match *old(self) {
                Holding::Nothing => *final(self) == Holding::Nothing,
                Holding::Tile(t) => *final(self) == Holding::Tile(
                    match key {
                        HeldKey::Rotate => rotate_tile(t),
                        HeldKey::RotateReverse => rotate_reverse_tile(t),
                        HeldKey::Toggle => activate_tile(t),
                        _ => t,
                    },
                ),
                Holding::Paste(v) => *final(self) matches Holding::Paste(w) && w@.len() == v@.len()
                    && forall|i: int|
                    0 <= i < v@.len() ==> #[trigger] w@[i] == moved_item(key, v@[i].0, v@[i].1),
            },
    {
        match self {
            Holding::Nothing => {},
            Holding::Tile(t) => {
                let next = match key {
                    HeldKey::Rotate => t.rotate(),
                    HeldKey::RotateReverse => t.rotate_reverse(),
                    HeldKey::Toggle => t.activate(),
                    _ => *t,
                };
                *t = next;
            },
            Holding::Paste(items) => {
                let ghost v = items@;
                let mut out: Vec<(Pos, Tile)> = Vec::new();
                let mut i: usize = 0;
                while i < items.len()
                    invariant
                        items@ == v,
                        key == HeldKey::Toggle || transform_fits(key, v),
                        i <= v.len(),
                        out@.len() == i,
                        forall|k: int| 0 <= k < i ==> #[trigger] out@[k] == moved_item(key, v[k].0, v[k].1),
                    decreases v.len() - i,
                {
                    let (p, t) = items[i];
                    assert(v[i as int] == (p, t));
                    let item = match key {
                        HeldKey::Rotate => (Pos { x: p.y, y: -p.x }, t.rotate()),
                        HeldKey::RotateReverse => (Pos { x: -p.y, y: p.x }, t.rotate_reverse()),
                        HeldKey::FlipVertical => (Pos { x: p.x, y: -p.y }, t.flip_vertical()),
                        HeldKey::FlipHorizontal => (Pos { x: -p.x, y: p.y }, t.flip_horizontal()),
                        HeldKey::Toggle => (p, t),
                    };
                    out.push(item);
                    i = i + 1;
                }
                *items = out;
            },
        }
    }

    pub fn is_none(&self) -> (r: bool)
        ensures
            r == (*self is Nothing),
    {
        match self {
            Holding::Nothing => true,
            _ => false,
        }
    }

    /// Whether some held tile carries an id (an emitter or detector tied to
    /// the level's tests).
    pub fn any_dynamic(&self) -> (r: bool)
        ensures
            r == holds_dynamic(*self),
    {
        match self {
            Holding::Nothing => false,
            Holding::Tile(tile) => tile.id().is_some(),
            Holding::Paste(items) => {
                let mut i: usize = 0;
                while i < items.len()
                    invariant
                        *self == Holding::Paste(*items),
                        i <= items@.len(),
                        forall|k: int| 0 <= k < i ==> (#[trigger] id_spec(items@[k].1)) is None,
                    decreases items@.len() - i,
                {
                    if items[i].1.id().is_some() {
                        assert(id_spec(items@[i as int].1) is Some);
                        return true;
                    }
                    i = i + 1;
                }
                false
            },
        }
    }

    /// The ids of the held tiles, ascending, each once.
    pub fn dynamic(&self) -> (r: Vec<u32>)
        ensures
            strictly_increasing(r@),
            forall|id: u32| r@.contains(id) <==> holds_id(*self, id),
    {
        let mut out: Vec<u32> = Vec::new();
        match self {
            Holding::Nothing => {},
            Holding::Tile(tile) => {
                if let Some(id) = tile.id() {
                    insert_sorted(&mut out, id);
                }
            },
            Holding::Paste(items) => {
                let mut i: usize = 0;
                while i < items.len()
                    invariant
                        *self == Holding::Paste(*items),
                        i <= items@.len(),
                        strictly_increasing(out@),
                        forall|id: u32|
                            out@.contains(id) <==> exists|k: int|
                                0 <= k < i && #[trigger] id_spec(items@[k].1) == Some(id),
                    decreases items@.len() - i,
                {
                    if let Some(id) = items[i].1.id() {
                        insert_sorted(&mut out, id);
                    }
                    proof {
                        assert forall|id: u32|
                            out@.contains(id) <==> exists|k: int|
                                0 <= k < i + 1 && #[trigger] id_spec(items@[k].1) == Some(id) by {
                            if exists|k: int| 0 <= k < i + 1 && #[trigger] id_spec(items@[k].1) == Some(id) {
                                let k = choose|k: int| 0 <= k < i + 1 && #[trigger] id_spec(items@[k].1) == Some(id);
                                if k < i {
                                    assert(exists|k: int| 0 <= k < i && #[trigger] id_spec(items@[k].1) == Some(id));
                                }
                            }
                        }
                    }
                    i = i + 1;
                }
            },
        }
        out
    }
}

} // verus!
