use vstd::prelude::*;

use crate::direction::{in_bounds, in_bounds_spec, Pos};
use crate::game::board::{valid_tile, valid_tile_spec};
use crate::game::editing::{generic_tile, level_of, tile_at_pos, tile_of};
use crate::level::Level;
use crate::map::TileMap;
use crate::simulation::acceleration::insert_pos;
use crate::tile::{price_spec, Tile};

verus! {

/// How a finished drag changes the selection.
#[derive(Clone, Copy, Debug, PartialEq, Eq, Structural)]
pub enum SelectMode {
    /// The dragged cells become the selection.
    Replace,
    /// The dragged cells are added to the selection.
    Add,
    /// The dragged cells are taken out of the selection.
    Remove,
}

/// The cells the player has selected, and the drag in progress.
pub struct SelectionState {
    selection: Vec<Pos>,
    selection_start: Option<Pos>,
    working_selection: Option<(Pos, Pos)>,
}

/// Whether `size` can be handed to `valid_tile`.
pub open spec fn size_ok(size: Option<(u32, u32)>) -> bool {
    size matches Some(s) ==> s.0 != 0x8000_0000 && s.1 != 0x8000_0000
}

/// The cells of the rectangle from `min` to `max` that the player may edit.
pub open spec fn rect_cells(min: Pos, max: Pos, level: Option<Level>, size: Option<(u32, u32)>) -> Set<
    Pos,
> {
    Set::new(|p: Pos| in_bounds_spec(p, min, max) && valid_tile_spec(p, level, size))
}

/// The rectangle spanned by two corners, as its smallest and largest corner.
pub open spec fn span(a: Pos, b: Pos) -> (Pos, Pos) {
    (
        Pos { x: if a.x <= b.x { a.x } else { b.x }, y: if a.y <= b.y { a.y } else { b.y } },
        Pos { x: if a.x <= b.x { b.x } else { a.x }, y: if a.y <= b.y { b.y } else { a.y } },
    )
}

/// Copying the first `n` of `cells`, relative to `origin`: the copied tiles,
/// the cells cut (with what they held), and the board after.
pub open spec fn copied(
    m: Map<Pos, Tile>,
    cells: Seq<Pos>,
    cut: bool,
    origin: Pos,
    n: int,
) -> (Seq<(Pos, Tile)>, Seq<(Pos, Tile)>, Map<Pos, Tile>)
    decreases n,
{
    if n <= 0 {
        (Seq::empty(), Seq::empty(), m)
    } else {
        let (list, old, m1) = copied(m, cells, cut, origin, n - 1);
        let p = cells[n - 1];
        let tile = tile_of(m1, p);
        let (old2, m2) = if cut {
            (old.push((p, tile)), m1.remove(p))
        } else {
            (old, m1)
        };
        let t = if cut {
            tile
        } else {
            generic_tile(tile)
        };
        let rel = Pos { x: (p.x - origin.x) as i32, y: (p.y - origin.y) as i32 };
        let list2 = if t is Empty {
            list
        } else {
            list.push((rel, t))
        };
        (list2, old2, m2)
    }
}

/// The summed price of the tiles in column `x` from row `y0` to row `y1`.
pub open spec fn column_price(m: Map<Pos, Tile>, x: i32, y0: int, y1: int) -> int
    decreases y1 - y0 + 1,
{
    if y1 < y0 {
        0
    } else {
        column_price(m, x, y0, y1 - 1) + price_spec(tile_of(m, Pos { x, y: y1 as i32 }))
    }
}

/// The summed price of the tiles of the rectangle with columns `x0..=x1` and
/// rows `y0..=y1`.
pub open spec fn rect_price(m: Map<Pos, Tile>, x0: int, x1: int, y0: int, y1: int) -> int
    decreases x1 - x0 + 1,
{
    if x1 < x0 {
        0
    } else {
        rect_price(m, x0, x1 - 1, y0, y1) + column_price(m, x1 as i32, y0, y1)
    }
}

proof fn lemma_column_monotone(m: Map<Pos, Tile>, x: i32, y0: int, a: int, b: int)
    requires
        y0 - 1 <= a <= b,
    ensures
        0 <= column_price(m, x, y0, a) <= column_price(m, x, y0, b),
    decreases b - a,
{
    if a < b {
        lemma_column_monotone(m, x, y0, a, b - 1);
    } else {
        lemma_column_nonneg(m, x, y0, a);
    }
}

proof fn lemma_column_nonneg(m: Map<Pos, Tile>, x: i32, y0: int, y1: int)
    ensures
        0 <= column_price(m, x, y0, y1),
    decreases y1 - y0 + 1,
{
    if y1 >= y0 {
        lemma_column_nonneg(m, x, y0, y1 - 1);
    }
}

proof fn lemma_rect_monotone(m: Map<Pos, Tile>, x0: int, a: int, b: int, y0: int, y1: int)
    requires
        x0 - 1 <= a <= b,
    ensures
        0 <= rect_price(m, x0, a, y0, y1) <= rect_price(m, x0, b, y0, y1),
    decreases b - a,
{
    if a < b {
        lemma_rect_monotone(m, x0, a, b - 1, y0, y1);
        lemma_column_nonneg(m, b as i32, y0, y1);
    } else {
        lemma_rect_nonneg(m, x0, a, y0, y1);
    }
}

proof fn lemma_rect_nonneg(m: Map<Pos, Tile>, x0: int, x1: int, y0: int, y1: int)
    ensures
        0 <= rect_price(m, x0, x1, y0, y1),
    decreases x1 - x0 + 1,
{
    if x1 >= x0 {
        lemma_rect_nonneg(m, x0, x1 - 1, y0, y1);
        lemma_column_nonneg(m, x1 as i32, y0, y1);
    }
}

/// The summed price of the tiles in the rectangle from `min` to `max`, shown
/// beside a drag.
pub fn selection_price(tiles: &TileMap<Tile>, min: Pos, max: Pos) -> (r: u32)
    requires
        tiles.wf(),
        rect_price(tiles@, min.x as int, max.x as int, min.y as int, max.y as int) <= u32::MAX,
    ensures
        r == rect_price(tiles@, min.x as int, max.x as int, min.y as int, max.y as int),
{
    let ghost m = tiles@;
    let ghost total = rect_price(m, min.x as int, max.x as int, min.y as int, max.y as int);
    let mut sum: u32 = 0;
    let mut x: i64 = min.x as i64;
    if min.x > max.x {
        return 0;
    }
    while x <= max.x as i64
        invariant
            tiles.wf(),
            tiles@ == m,
            min.x <= x <= max.x + 1,
            total == rect_price(m, min.x as int, max.x as int, min.y as int, max.y as int),
            total <= u32::MAX,
            sum == rect_price(m, min.x as int, x - 1, min.y as int, max.y as int),
        decreases max.x + 1 - x,
    {
        let xi: i32 = x as i32;
        let mut y: i64 = min.y as i64;
        let ghost before = sum;
        proof {
            lemma_rect_monotone(m, min.x as int, x as int, max.x as int, min.y as int, max.y as int);
        }
        while y <= max.y as i64
            invariant
                tiles.wf(),
                tiles@ == m,
                min.x <= x <= max.x,
                xi == x,
                min.y <= y <= max.y + 1 || (y == min.y && min.y > max.y),
                total == rect_price(m, min.x as int, max.x as int, min.y as int, max.y as int),
                total <= u32::MAX,
                before == rect_price(m, min.x as int, x - 1, min.y as int, max.y as int),
                before + column_price(m, xi, min.y as int, max.y as int) <= total,
                sum == before + column_price(m, xi, min.y as int, y - 1),
            decreases max.y + 1 - y,
        {
            proof {
                lemma_column_monotone(m, xi, min.y as int, y as int, max.y as int);
            }
            let t = tile_at_pos(tiles, Pos { x: xi, y: y as i32 });
            sum = sum + t.price();
            y = y + 1;
        }
        proof {
            if min.y > max.y {
                assert(column_price(m, xi, min.y as int, y - 1) == column_price(m, xi, min.y as int, max.y as int));
            }
        }
        x = x + 1;
    }
    sum
}

fn remove_cells(v: &Vec<Pos>, gone: &Vec<Pos>) -> (r: Vec<Pos>)
    requires
        v@.no_duplicates(),
    ensures
        r@.no_duplicates(),
        r@.to_set() == v@.to_set().difference(gone@.to_set()),
{
    let mut r: Vec<Pos> = Vec::new();
    let mut i: usize = 0;
    while i < v.len()
        invariant
            v@.no_duplicates(),
            i <= v@.len(),
            r@.no_duplicates(),
            r@.to_set() == v@.subrange(0, i as int).to_set().difference(gone@.to_set()),
        decreases v@.len() - i,
    {
        let p = v[i];
        let ghost pre = v@.subrange(0, i as int);
        let ghost prev = r@;
        proof {
            assert(v@.subrange(0, i + 1) =~= pre.push(p));
            pre.lemma_push_to_set_commute(p);
            assert(!pre.contains(p)) by {
                if pre.contains(p) {
                    let k = choose|k: int| 0 <= k < pre.len() && pre[k] == p;
                    assert(v@[k] == v@[i as int]);
                }
            }
        }
        if !crate::misc::contains_pos(gone, p) {
            proof {
                assert(!prev.to_set().contains(p));
            }
            r.push(p);
            proof {
                prev.lemma_push_to_set_commute(p);
                assert(r@.to_set() =~= v@.subrange(0, i + 1).to_set().difference(gone@.to_set()));
            }
        } else {
            proof {
                assert(gone@.to_set().contains(p));
                assert(r@.to_set() =~= v@.subrange(0, i + 1).to_set().difference(gone@.to_set()));
            }
        }
        i = i + 1;
    }
    proof {
        assert(v@.subrange(0, v@.len() as int) =~= v@);
    }
    r
}

/// The cells of the rectangle from `min` to `max` that the player may edit,
/// each once.
fn collect_rect(min: Pos, max: Pos, level: Option<&Level>, size: Option<(u32, u32)>) -> (r: Vec<Pos>)
    requires
        size_ok(size),
    ensures
        r@.no_duplicates(),
        forall|p: Pos| r@.contains(p) <==> rect_cells(min, max, level_of(level), size).contains(p),
{
    let ghost cells = rect_cells(min, max, level_of(level), size);
    let mut out: Vec<Pos> = Vec::new();
    let mut x: i64 = min.x as i64;
    if min.x > max.x {
        return out;
    }
    while x <= max.x as i64
        invariant
            size_ok(size),
            min.x <= x <= max.x + 1,
            cells == rect_cells(min, max, level_of(level), size),
            out@.no_duplicates(),
            forall|p: Pos| #[trigger] out@.contains(p) <==> (cells.contains(p) && p.x < x),
        decreases max.x + 1 - x,
    {
        let mut y: i64 = min.y as i64;
        while y <= max.y as i64
            invariant
                size_ok(size),
                min.x <= x <= max.x,
                min.y <= y,
                y <= max.y + 1 || y == min.y,
                cells == rect_cells(min, max, level_of(level), size),
                out@.no_duplicates(),
                forall|p: Pos| #[trigger] out@.contains(p) <==> (cells.contains(p) && (p.x < x || (p.x == x && p.y < y))),
            decreases max.y + 1 - y,
        {
            let p = Pos { x: x as i32, y: y as i32 };
            let ghost prev = out@;
            let valid = valid_tile(p, level, size);
            if valid {
                insert_pos(&mut out, p);
            }
            proof {
                assert(in_bounds_spec(p, min, max));
                assert(cells.contains(p) == valid);
                assert forall|q: Pos| out@.contains(q) <==> (cells.contains(q) && (q.x < x || (q.x == x && q.y < y + 1))) by {
                    assert(out@.to_set().contains(q) == out@.contains(q));
                    assert(prev.to_set().contains(q) == prev.contains(q));
                    assert(prev.contains(q) <==> (cells.contains(q) && (q.x < x || (q.x == x && q.y
                        < y))));
                    if valid {
                        assert(out@.contains(q) <==> (prev.contains(q) || q == p));
                    } else {
                        assert(out@ == prev);
                    }
                    if q.x == x && q.y == y {
                        assert(q == p);
                    }
                }
            }
            y = y + 1;
        }
        proof {
            assert forall|q: Pos| out@.contains(q) <==> (cells.contains(q) && q.x < x + 1) by {
                if cells.contains(q) && q.x == x {
                    assert(q.y <= max.y);
                }
            }
        }
        x = x + 1;
    }
    out
}

impl SelectionState {
    /// The selected cells.
    pub closed spec fn cells(&self) -> Set<Pos> {
        self.selection@.to_set()
    }

    /// The selected cells, in the order they are handled.
    pub closed spec fn cell_list(&self) -> Seq<Pos> {
        self.selection@
    }

    pub closed spec fn wf(&self) -> bool {
        self.selection@.no_duplicates()
    }

    /// Where the drag in progress started.
    pub closed spec fn start(&self) -> Option<Pos> {
        self.selection_start
    }

    /// The rectangle being dragged, as its smallest and largest corner.
    pub closed spec fn working(&self) -> Option<(Pos, Pos)> {
        self.working_selection
    }

    /// Where the drag in progress started.
    pub fn selection_start(&self) -> (r: Option<Pos>)
        ensures
            r == self.start(),
    {
        self.selection_start
    }

    /// The rectangle being dragged.
    pub fn working_selection(&self) -> (r: Option<(Pos, Pos)>)
        ensures
            r == self.working(),
    {
        self.working_selection
    }

    /// Starts a drag at `pos`, unless one is in progress.
    pub fn begin(&mut self, pos: Pos)
        ensures
            final(self).cells() == old(self).cells(),
            final(self).cell_list() == old(self).cell_list(),
            final(self).wf() == old(self).wf(),
            final(self).working() == old(self).working(),
            final(self).start() == (if old(self).start() is None {
                Some(pos)
            } else {
                old(self).start()
            }),
    {
        if self.selection_start.is_none() {
            self.selection_start = Some(pos);
        }
    }

    pub fn new() -> (r: SelectionState)
        ensures
            r.wf(),
            r.cells() == Set::<Pos>::empty(),
            r.start() is None,
            r.working() is None,
    {
        let r = SelectionState { selection: Vec::new(), selection_start: None, working_selection: None };
        proof {
            assert(r.selection@.to_set() =~= Set::<Pos>::empty());
        }
        r
    }

    /// The selected cells, each once.
    pub fn selected(&self) -> (r: Vec<Pos>)
        requires
            self.wf(),
        ensures
            r@ == self.cell_list(),
    {
        self.selection.clone()
    }

    /// Whether `p` is selected.
    pub fn contains(&self, p: Pos) -> (r: bool)
        ensures
            r == self.cells().contains(p),
    {
        let r = crate::misc::contains_pos(&self.selection, p);
        proof {
            assert(self.selection@.to_set().contains(p) == self.selection@.contains(p));
        }
        r
    }

    /// The rectangle being dragged, from where the drag started to the cell
    /// `cursor` under the mouse.
    pub fn update_working(&mut self, cursor: Pos)
        ensures
            final(self).cells() == old(self).cells(),
            final(self).cell_list() == old(self).cell_list(),
            final(self).wf() == old(self).wf(),
            final(self).start() == old(self).start(),
            final(self).working() == match old(self).start() {
                Some(start) => Some(span(start, cursor)),
                None => None,
            },
    {
        self.working_selection = match self.selection_start {
            Some(start) => {
                let min = Pos {
                    x: if start.x <= cursor.x { start.x } else { cursor.x },
                    y: if start.y <= cursor.y { start.y } else { cursor.y },
                };
                let max = Pos {
                    x: if start.x <= cursor.x { cursor.x } else { start.x },
                    y: if start.y <= cursor.y { cursor.y } else { start.y },
                };
                Some((min, max))
            },
            None => None,
        };
    }

    /// The mouse was let go over a drag: the drag ends, and the editable
    /// cells of the dragged rectangle replace, join or leave the selection.
    pub fn release(&mut self, level: Option<&Level>, size: Option<(u32, u32)>, mode: SelectMode)
        requires
            old(self).wf(),
            size_ok(size),
        ensures
            final(self).wf(),
            final(self).working() == old(self).working(),
            match old(self).working() {
                Some(rect) => {
                    let new = rect_cells(rect.0, rect.1, level_of(level), size);
                    &&& final(self).start() is None
                    &&& final(self).cells() == match mode {
                        SelectMode::Replace => new,
                        SelectMode::Add => old(self).cells().union(new),
                        SelectMode::Remove => old(self).cells().difference(new),
                    }
                },
                None => {
                    &&& final(self).start() == old(self).start()
                    &&& final(self).cells() == old(self).cells()
                },
            },
    {
        if let Some(rect) = self.working_selection {
            self.selection_start = None;
            let fresh = collect_rect(rect.0, rect.1, level, size);
            let ghost new = rect_cells(rect.0, rect.1, level_of(level), size);
            match mode {
                SelectMode::Add => {
                    let ghost before = self.selection@.to_set();
                    let mut i: usize = 0;
                    while i < fresh.len()
                        invariant
                            self.working_selection == old(self).working_selection,
                            self.selection_start is None,
                            i <= fresh@.len(),
                            self.selection@.no_duplicates(),
                            self.selection@.to_set() == before.union(fresh@.subrange(0, i as int).to_set()),
                        decreases fresh@.len() - i,
                    {
                        let ghost pre = fresh@.subrange(0, i as int);
                        insert_pos(&mut self.selection, fresh[i]);
                        proof {
                            assert(fresh@.subrange(0, i + 1) =~= pre.push(fresh@[i as int]));
                            pre.lemma_push_to_set_commute(fresh@[i as int]);
                            assert(self.selection@.to_set() =~= before.union(fresh@.subrange(0, i + 1).to_set()));
                        }
                        i = i + 1;
                    }
                    proof {
                        assert(fresh@.subrange(0, fresh@.len() as int) =~= fresh@);
                        assert(fresh@.to_set() =~= new);
                        assert(self.selection@.to_set() =~= before.union(new));
                    }
                },
                SelectMode::Remove => {
                    let kept = remove_cells(&self.selection, &fresh);
                    let ghost before = self.selection@.to_set();
                    self.selection = kept;
                    proof {
                        assert(fresh@.to_set() =~= new);
                        assert(self.selection@.to_set() =~= before.difference(new));
                    }
                },
                SelectMode::Replace => {
                    self.selection = fresh;
                    proof {
                        assert(self.selection@.to_set() =~= new);
                    }
                },
            }
        }
    }

    /// Drops the selection and any drag in progress.
    pub fn deselect(&mut self)
        ensures
            final(self).wf(),
            final(self).cells() == Set::<Pos>::empty(),
            final(self).start() is None,
            final(self).working() == old(self).working(),
    {
        self.selection_start = None;
        self.selection = Vec::new();
        proof {
            assert(self.selection@.to_set() =~= Set::<Pos>::empty());
        }
    }

    /// Removes the selected tiles from the board and drops the selection.
    /// Returns each selected cell with what it held.
    pub fn delete(&mut self, tiles: &mut TileMap<Tile>) -> (r: Vec<(Pos, Tile)>)
        requires
            old(self).wf(),
            old(tiles).wf(),
        ensures
            final(self).wf(),
            final(self).cells() == Set::<Pos>::empty(),
            final(self).start() == old(self).start(),
            final(self).working() == old(self).working(),
            final(tiles).wf(),
            r@.len() == old(self).cell_list().len(),
            forall|i: int|
                0 <= i < r@.len() ==> #[trigger] r@[i] == (
                    old(self).cell_list()[i],
                    tile_of(old(tiles)@, old(self).cell_list()[i]),
                ),
            forall|p: Pos|
                #[trigger] final(tiles)@.contains_key(p) <==> (old(tiles)@.contains_key(p)
                    && !old(self).cells().contains(p)),
            forall|p: Pos|
                #[trigger] final(tiles)@.contains_key(p) ==> final(tiles)@[p] == old(tiles)@[p],
    {
        let mut old_cells: Vec<(Pos, Tile)> = Vec::new();
        let ghost m0 = tiles@;
        let n = self.selection.len();
        let mut i: usize = 0;
        while i < n
            invariant
                n == self.selection@.len(),
                self.selection@.no_duplicates(),
                self.selection@ == old(self).selection@,
                tiles.wf(),
                i <= n,
                old_cells@.len() == i,
                forall|k: int|
                    0 <= k < i ==> #[trigger] old_cells@[k] == (self.selection@[k], tile_of(m0, self.selection@[k])),
                forall|p: Pos|
                    #[trigger] tiles@.contains_key(p) <==> (m0.contains_key(p) && !(exists|k: int|
                        0 <= k < i && self.selection@[k] == p)),
                forall|p: Pos| #[trigger] tiles@.contains_key(p) ==> tiles@[p] == m0[p],
            decreases n - i,
        {
            let p = self.selection[i];
            let t = tile_at_pos(tiles, p);
            proof {
                assert(!(exists|k: int| 0 <= k < i && self.selection@[k] == p)) by {
                    if exists|k: int| 0 <= k < i && self.selection@[k] == p {
                        let k = choose|k: int| 0 <= k < i && self.selection@[k] == p;
                        assert(self.selection@[k] == self.selection@[i as int]);
                    }
                }
                assert(t == tile_of(m0, p));
            }
            old_cells.push((p, t));
            tiles.remove(p);
            proof {
                assert forall|q: Pos| #[trigger] tiles@.contains_key(q) <==> (m0.contains_key(q) && !(exists|k: int|
                    0 <= k < i + 1 && self.selection@[k] == q)) by {
                    if exists|k: int| 0 <= k < i + 1 && self.selection@[k] == q {
                        let k = choose|k: int| 0 <= k < i + 1 && self.selection@[k] == q;
                        if k < i {
                            assert(exists|k: int| 0 <= k < i && self.selection@[k] == q);
                        }
                    }
                    if exists|k: int| 0 <= k < i && self.selection@[k] == q {
                        let k = choose|k: int| 0 <= k < i && self.selection@[k] == q;
                        assert(0 <= k < i + 1 && self.selection@[k] == q);
                    }
                    if q == p {
                        assert(0 <= i < i + 1 && self.selection@[i as int] == q);
                    }
                }
            }
            i = i + 1;
        }
        proof {
            assert forall|p: Pos| #[trigger] tiles@.contains_key(p) <==> (m0.contains_key(p) && !old(self).cells().contains(p)) by {
                if old(self).selection@.contains(p) {
                    let k = choose|k: int| 0 <= k < n && old(self).selection@[k] == p;
                    assert(exists|k: int| 0 <= k < n && self.selection@[k] == p);
                }
            }
        }
        self.selection = Vec::new();
        proof {
            assert(self.selection@.to_set() =~= Set::<Pos>::empty());
        }
        old_cells
    }

    /// Copies (or, when `cut`, cuts) the selected tiles, placed relative to
    /// `origin`, and drops the selection. Copies are not tied to the level's
    /// tests; empty cells are left out. Returns the copied tiles and the cells
    /// cut, with what they held.
    pub fn copy(&mut self, tiles: &mut TileMap<Tile>, cut: bool, origin: Pos) -> (r: (
        Vec<(Pos, Tile)>,
        Vec<(Pos, Tile)>,
    ))
        requires
            old(self).wf(),
            old(tiles).wf(),
            forall|p: Pos|
                #[trigger] old(self).cells().contains(p) ==> i32::MIN <= p.x - origin.x <= i32::MAX
                    && i32::MIN <= p.y - origin.y <= i32::MAX,
        ensures
            final(self).wf(),
            final(self).cells() == Set::<Pos>::empty(),
            final(self).start() == old(self).start(),
            final(self).working() == old(self).working(),
            final(tiles).wf(),
            ({
                let (list, old_cells, m) = copied(
                    old(tiles)@,
                    old(self).cell_list(),
                    cut,
                    origin,
                    old(self).cell_list().len() as int,
                );
                r.0@ == list && r.1@ == old_cells && final(tiles)@ == m
            }),
    {
        let mut list: Vec<(Pos, Tile)> = Vec::new();
        let mut old_cells: Vec<(Pos, Tile)> = Vec::new();
        let ghost m0 = tiles@;
        proof {
            assert forall|p: Pos| #[trigger] self.selection@.contains(p) implies i32::MIN <= p.x
                - origin.x <= i32::MAX && i32::MIN <= p.y - origin.y <= i32::MAX by {
                assert(old(self).cells().contains(p));
            }
        }
        let n = self.selection.len();
        let mut i: usize = 0;
        while i < n
            invariant
                n == self.selection@.len(),
                self.selection@ == old(self).selection@,
                forall|p: Pos|
                    #[trigger] self.selection@.contains(p) ==> i32::MIN <= p.x - origin.x <= i32::MAX
                        && i32::MIN <= p.y - origin.y <= i32::MAX,
                tiles.wf(),
                i <= n,
                ({
                    let (l, o, m) = copied(m0, self.selection@, cut, origin, i as int);
                    list@ == l && old_cells@ == o && tiles@ == m
                }),
            decreases n - i,
        {
            let p = self.selection[i];
            proof {
                assert(self.selection@.contains(p));
            }
            let tile = tile_at_pos(tiles, p);
            if cut {
                old_cells.push((p, tile));
                tiles.remove(p);
            }
            let t = if cut {
                tile
            } else {
                tile.generic()
            };
            if !t.is_empty() {
                list.push((Pos { x: p.x - origin.x, y: p.y - origin.y }, t));
            }
            i = i + 1;
        }
        proof {
            assert forall|p: Pos| #[trigger] old(self).cells().contains(p) ==> self.selection@.contains(p) by {
            }
        }
        self.selection = Vec::new();
        proof {
            assert(self.selection@.to_set() =~= Set::<Pos>::empty());
        }
        (list, old_cells)
    }

    /// Whether the cell `pos` is drawn as selected while the player holds
    /// the add (`ctrl`), take out (`alt`) or select (`shift`) key.
    pub fn in_selection(
        &self,
        pos: Pos,
        level: Option<&Level>,
        size: Option<(u32, u32)>,
        ctrl: bool,
        alt: bool,
        shift: bool,
    ) -> (r: bool)
        requires
            size_ok(size),
        ensures
            r == (valid_tile_spec(pos, level_of(level), size) && {
                let selected = self.cells().contains(pos);
                let working = self.working() matches Some(b) && in_bounds_spec(pos, b.0, b.1);
                if ctrl {
                    working || selected
                } else if alt {
                    selected && !working
                } else if shift && self.working() is Some {
                    working
                } else {
                    selected
                }
            }),
    {
        if !valid_tile(pos, level, size) {
            return false;
        }
        let selected = self.contains(pos);
        let working = match self.working_selection {
            Some(b) => in_bounds(pos, b),
            None => false,
        };
        if ctrl {
            working || selected
        } else if alt {
            selected && !working
        } else if shift && self.working_selection.is_some() {
            working
        } else {
            selected
        }
    }
}

} // verus!
