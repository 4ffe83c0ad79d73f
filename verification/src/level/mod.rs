use vstd::prelude::*;

use crate::direction::Pos;
use crate::map::TileMap;
use crate::tile::{id_spec, Tile, TileType};

pub mod case;
pub mod tree;

use case::TestCase;

verus! {

broadcast use vstd::std_specs::hash::group_hash_axioms;

/// A campaign level: the fixed tiles it starts with and the tests a solution
/// must pass.
pub struct Level {
    /// The ID is stored in the save file, meaning you can share your campaign
    /// levels and other can view correctly them in sandbox mode.
    pub id: u128,
    pub name: String,
    pub description: String,
    pub parents: Vec<u128>,
    /// Width and height of the playing field, when it is bounded.
    pub size: Option<(u32, u32)>,
    /// Positions the player may not change.
    pub permanent: Vec<Pos>,
    pub labels: Vec<(ElementLocation, String)>,
    pub disabled: Option<Vec<TileType>>,
    pub tiles: TileMap<Tile>,
    pub tests: Tests,
}

pub struct Tests {
    /// Ids of the emitters a case drives, in the order of a case's lasers.
    pub lasers: Vec<u32>,
    /// Ids of the detectors a case reads, in the order of a case's outputs.
    pub detectors: Vec<u32>,
    pub display: Option<DisplayConfig>,
    /// Indices of the cases that are not shown to the player.
    pub hidden: std::collections::HashSet<u32>,
    pub cases: Vec<TestCase>,
}

pub struct DisplayConfig {
    pub emitter_breaks: std::collections::HashSet<u32>,
    pub emitter_spaces: std::collections::HashSet<u32>,
    pub detector_breaks: std::collections::HashSet<u32>,
    pub detector_spaces: std::collections::HashSet<u32>,
    pub descriptions: std::collections::HashMap<u32, String>,
}

#[derive(Debug, Clone, Copy, PartialEq, Eq, Hash, Structural)]
pub enum ElementLocation {
    Static(Pos),
    Dynamic(u32),
}

/// Where each dynamic (id carrying) tile of a board stands.
pub struct DynamicElementMap {
    inner: std::collections::HashMap<u32, Pos>,
}

#[derive(Clone, Copy, Debug, PartialEq, Eq, Structural)]
pub enum LevelIo {
    Emitter,
    Detector,
}

/// Number of indices `k < n` whose case is shown (not in `hidden`).
pub open spec fn visible_before(hidden: Set<u32>, n: int) -> int
    decreases n,
{
    if n <= 0 {
        0
    } else {
        visible_before(hidden, n - 1) + if hidden.contains((n - 1) as u32) {
            0int
        } else {
            1int
        }
    }
}

/// Whether `id` is the id of one of the level's emitters or detectors.
pub open spec fn is_dynamic_spec(tests: Tests, id: u32) -> bool {
    tests.detectors@.contains(id) || tests.lasers@.contains(id)
}

/// The positions recorded for the ids of the first `n` entries of `es`; a
/// later entry with the same id replaces an earlier one.
pub open spec fn dynamic_positions(es: Seq<(Pos, Tile)>, n: int) -> Map<u32, Pos>
    decreases n,
{
    if n <= 0 {
        Map::empty()
    } else {
        let m = dynamic_positions(es, n - 1);
        match id_spec(es[n - 1].1) {
            Some(id) => m.insert(id, es[n - 1].0),
            None => m,
        }
    }
}

fn vec_contains_u32(v: &Vec<u32>, x: u32) -> (r: bool)
    ensures
        r == v@.contains(x),
{
    let mut i: usize = 0;
    while i < v.len()
        invariant
            i <= v@.len(),
            forall|k: int| 0 <= k < i ==> v@[k] != x,
        decreases v@.len() - i,
    {
        if v[i] == x {
            assert(v@[i as int] == x);
            return true;
        }
        i = i + 1;
    }
    false
}

/// What `unindent::unindent` makes of a text.
pub uninterp spec fn unindented(s: Seq<char>) -> Seq<char>;

/// Calls `unindent::unindent`, which drops a leading line break and the
/// indentation (spaces and tabs) shared by the lines after the first. The
/// contract names its result as a function of the text alone, and states
/// that a text of a single line comes back unchanged, and that a line break
/// followed by one line that starts with neither a space nor a tab comes
/// back as that line; what it does to other text of several lines is left
/// unsaid.
#[verifier::external_body]
fn unindent_text(s: &str) -> (r: String)
    ensures
        r@ == unindented(s@),
        !s@.contains('\n') ==> r@ == s@,
        s@.len() > 0 && s@[0] == '\n' && !s@.drop_first().contains('\n') && (s@.len() == 1 || (
        s@[1] != ' ' && s@[1] != '\t')) ==> r@ == s@.drop_first(),
{
    unindent::unindent(s)
}

impl Level {
    /// Removes from the description the indentation that the layout of the
    /// level file gives it.
    pub fn unindent_description(&mut self)
        ensures
            final(self).description@ == unindented(old(self).description@),
            !old(self).description@.contains('\n') ==> final(self).description@ == old(
                self,
            ).description@,
            ({
                let d = old(self).description@;
                d.len() > 0 && d[0] == '\n' && !d.drop_first().contains('\n') && (d.len() == 1 || (
                d[1] != ' ' && d[1] != '\t')) ==> final(self).description@ == d.drop_first()
            }),
            final(self).id == old(self).id,
            final(self).name == old(self).name,
            final(self).parents == old(self).parents,
            final(self).size == old(self).size,
            final(self).permanent == old(self).permanent,
            final(self).labels == old(self).labels,
            final(self).disabled == old(self).disabled,
            final(self).tiles == old(self).tiles,
            final(self).tests == old(self).tests,
    {
        self.description = unindent_text(self.description.as_str());
    }

    /// Whether `id` belongs to one of the emitters or detectors the tests
    /// drive or read.
    pub fn is_dynamic(&self, id: u32) -> (r: bool)
        ensures
            r == is_dynamic_spec(self.tests, id),
    {
        vec_contains_u32(&self.tests.detectors, id) || vec_contains_u32(&self.tests.lasers, id)
    }
}

impl ElementLocation {
    /// The position of a static element.
    pub fn into_pos(self) -> (r: Pos)
        requires
            self is Static,
        ensures
            self == ElementLocation::Static(r),
    {
        match self {
            ElementLocation::Static(pos) => pos,
            ElementLocation::Dynamic(_) => vstd::pervasive::unreached(),
        }
    }
}

impl DynamicElementMap {
    pub closed spec fn view(&self) -> Map<u32, Pos> {
        self.inner@
    }

    pub fn new() -> (r: DynamicElementMap)
        ensures
            r@ == Map::<u32, Pos>::empty(),
    {
        DynamicElementMap { inner: std::collections::HashMap::new() }
    }

    pub fn position(&self, id: u32) -> (r: Option<Pos>)
        ensures
            r == (if self@.contains_key(id) {
                Some(self@[id])
            } else {
                None::<Pos>
            }),
    {
        match self.inner.get(&id) {
            Some(p) => Some(*p),
            None => None,
        }
    }

    /// Records where every tile that has an id stands.
    pub fn from_map(map: &TileMap<Tile>) -> (r: DynamicElementMap)
        ensures
            r@ == dynamic_positions(map.entries(), map.entries().len() as int),
    {
        let mut inner: std::collections::HashMap<u32, Pos> = std::collections::HashMap::new();
        let n = map.len();
        let mut i: usize = 0;
        while i < n
            invariant
                n == map.entries().len(),
                i <= n,
                inner@ == dynamic_positions(map.entries(), i as int),
            decreases n - i,
        {
            let (pos, tile) = map.entry(i);
            if let Some(id) = tile.id() {
                inner.insert(id, pos);
            }
            i = i + 1;
        }
        DynamicElementMap { inner }
    }
}

impl Tests {
    /// Number of cases shown to the player.
    pub fn visible_count(&self) -> (r: usize)
        requires
            self.hidden@.len() <= self.cases@.len(),
        ensures
            r == self.cases@.len() - self.hidden@.len(),
    {
        self.cases.len() - self.hidden.len()
    }

    /// The `idx`-th shown case.
    pub fn get_visible(&self, idx: usize) -> (r: &TestCase)
        requires
            idx < visible_before(self.hidden@, self.cases@.len() as int),
        ensures
            exists|i: int|
                0 <= i < self.cases@.len() && !self.hidden@.contains(i as u32) && visible_before(
                    self.hidden@,
                    i,
                ) == idx && *r == self.cases@[i],
    {
        let mut active: usize = 0;
        let mut i: usize = 0;
        while i < self.cases.len()
            invariant
                i <= self.cases@.len(),
                active == visible_before(self.hidden@, i as int),
                active <= idx,
                idx < visible_before(self.hidden@, self.cases@.len() as int),
            decreases self.cases@.len() - i,
        {
            if !self.hidden.contains(&(i as u32)) {
                if active == idx {
                    return &self.cases[i];
                }
                active = active + 1;
            }
            i = i + 1;
        }
        vstd::pervasive::unreached()
    }
}

impl DisplayConfig {
    pub fn do_break(&self, io: LevelIo, idx: usize) -> (r: bool)
        ensures
            r == (match io {
                LevelIo::Emitter => self.emitter_breaks@.contains(idx as u32),
                LevelIo::Detector => self.detector_breaks@.contains(idx as u32),
            }),
    {
        let idx = idx as u32;
        match io {
            LevelIo::Emitter => self.emitter_breaks.contains(&idx),
            LevelIo::Detector => self.detector_breaks.contains(&idx),
        }
    }

    pub fn do_space(&self, io: LevelIo, idx: usize) -> (r: bool)
        ensures
            r == (match io {
                LevelIo::Emitter => self.emitter_spaces@.contains(idx as u32),
                LevelIo::Detector => self.detector_spaces@.contains(idx as u32),
            }),
    {
        let idx = idx as u32;
        match io {
            LevelIo::Emitter => self.emitter_spaces.contains(&idx),
            LevelIo::Detector => self.detector_spaces.contains(&idx),
        }
    }
}

} // verus!
