use vstd::prelude::*;

use crate::direction::Pos;
use crate::level::{is_dynamic_spec, Level};
use crate::map::TileMap;
use crate::tile::{id_spec, price_spec, Tile};

verus! {

/// Whether a tile counts towards a solution's cost: it is neither fixed by
/// the level nor one of the level's emitters or detectors.
pub open spec fn counts_towards_price(level: Level, pos: Pos, tile: Tile) -> bool {
    !level.permanent@.contains(pos) && !(match id_spec(tile) {
        Some(id) => is_dynamic_spec(level.tests, id),
        None => false,
    })
}

/// The summed price and the number of the first `n` entries that count
/// towards the cost.
pub open spec fn price_of(es: Seq<(Pos, Tile)>, level: Level, n: int) -> (int, int)
    decreases n,
{
    if n <= 0 {
        (0, 0)
    } else {
        let (p, c) = price_of(es, level, n - 1);
        if counts_towards_price(level, es[n - 1].0, es[n - 1].1) {
            (p + price_spec(es[n - 1].1), c + 1)
        } else {
            (p, c)
        }
    }
}

proof fn lemma_price_monotone(es: Seq<(Pos, Tile)>, level: Level, i: int, n: int)
    requires
        0 <= i <= n,
    ensures
        price_of(es, level, i).0 <= price_of(es, level, n).0,
        price_of(es, level, i).1 <= price_of(es, level, n).1,
        price_of(es, level, n).1 <= n,
        0 <= price_of(es, level, i).0,
    decreases n,
{
    if n > 0 {
        if i < n {
            lemma_price_monotone(es, level, i, n - 1);
        } else {
            lemma_price_monotone(es, level, n - 1, n - 1);
        }
    }
}

pub(crate) fn contains_pos(v: &Vec<Pos>, p: Pos) -> (r: bool)
    ensures
        r == v@.contains(p),
{
    let mut i: usize = 0;
    while i < v.len()
        invariant
            i <= v@.len(),
            forall|k: int| 0 <= k < i ==> v@[k] != p,
        decreases v@.len() - i,
    {
        if v[i] == p {
            assert(v@[i as int] == p);
            return true;
        }
        i = i + 1;
    }
    false
}

/// The cost of a solution and the number of tiles it is made of: the tiles
/// the level fixes and the level's emitters and detectors are free.
pub fn price(board: &TileMap<Tile>, level: &Level) -> (r: (u32, usize))
    requires
        price_of(board.entries(), *level, board.entries().len() as int).0 <= u32::MAX,
    ensures
        r.0 == price_of(board.entries(), *level, board.entries().len() as int).0,
        r.1 == price_of(board.entries(), *level, board.entries().len() as int).1,
{
    let ghost es = board.entries();
    let n = board.len();
    let mut price: u32 = 0;
    let mut count: usize = 0;
    let mut i: usize = 0;
    while i < n
        invariant
            es == board.entries(),
            n == es.len(),
            i <= n,
            price_of(es, *level, n as int).0 <= u32::MAX,
            price == price_of(es, *level, i as int).0,
            count == price_of(es, *level, i as int).1,
        decreases n - i,
    {
        let (pos, tile) = board.entry(i);
        proof {
            lemma_price_monotone(es, *level, i + 1, n as int);
        }
        let is_dynamic = match tile.id() {
            Some(id) => level.is_dynamic(id),
            None => false,
        };
        if !(contains_pos(&level.permanent, pos) || is_dynamic) {
            price = price + tile.price();
            count = count + 1;
        }
        i = i + 1;
    }
    (price, count)
}

} // verus!
