use vstd::prelude::*;

use crate::direction::Pos;
use crate::tile::TileType;

verus! {

/// Stores the locations of different component classes to avoid looping through
/// each tile to just update on class.
///
/// The classes:
/// - Delay
/// - Mirror, Splitter
/// - Beam, Cross Beam
/// - Galvo, Emitter, Detector, Wall
///
/// Each class is a set of positions, kept as a list in which no position
/// occurs twice.
pub struct Acceleration {
    pub delay: Vec<Pos>,
    pub beam_modifier: Vec<Pos>,
    pub beam: Vec<Pos>,
    pub post: Vec<Pos>,
}

/// Adds `p` to the set that `v` holds, keeping every position once.
pub(crate) fn insert_pos(v: &mut Vec<Pos>, p: Pos)
    requires
        old(v)@.no_duplicates(),
    ensures
        final(v)@.no_duplicates(),
        final(v)@.to_set() == old(v)@.to_set().insert(p),
{
    let mut i: usize = 0;
    while i < v.len()
        invariant
            v@ == old(v)@,
            v@.no_duplicates(),
            i <= v@.len(),
            forall|k: int| 0 <= k < i ==> v@[k] != p,
        decreases v@.len() - i,
    {
        if v[i] == p {
            proof {
                assert(v@.to_set().contains(p)) by {
                    assert(v@[i as int] == p);
                }
                assert(v@.to_set().insert(p) =~= v@.to_set());
            }
            return;
        }
        i = i + 1;
    }
    let ghost before = v@;
    v.push(p);
    proof {
        assert(!before.contains(p));
        assert(v@.to_set() =~= before.to_set().insert(p)) by {
            assert forall|q: Pos| v@.contains(q) <==> (before.contains(q) || q == p) by {
                if v@.contains(q) {
                    let k = choose|k: int| 0 <= k < v@.len() && v@[k] == q;
                    if k < before.len() {
                        assert(before[k] == q);
                    }
                }
                if before.contains(q) {
                    let k = choose|k: int| 0 <= k < before.len() && before[k] == q;
                    assert(v@[k] == q);
                }
                if q == p {
                    assert(v@[before.len() as int] == p);
                }
            }
        }
    }
}

impl Acceleration {
    /// Whether every class lists each of its positions once.
    pub open spec fn wf(&self) -> bool {
        &&& self.delay@.no_duplicates()
        &&& self.beam_modifier@.no_duplicates()
        &&& self.beam@.no_duplicates()
        &&& self.post@.no_duplicates()
    }

    pub fn new() -> (r: Acceleration)
        ensures
            r.wf(),
            r.delay@.to_set() == Set::<Pos>::empty(),
            r.beam_modifier@.to_set() == Set::<Pos>::empty(),
            r.beam@.to_set() == Set::<Pos>::empty(),
            r.post@.to_set() == Set::<Pos>::empty(),
    {
        let r = Acceleration {
            delay: Vec::new(),
            beam_modifier: Vec::new(),
            beam: Vec::new(),
            post: Vec::new(),
        };
        proof {
            assert(r.delay@.to_set() =~= Set::<Pos>::empty());
            assert(r.beam_modifier@.to_set() =~= Set::<Pos>::empty());
            assert(r.beam@.to_set() =~= Set::<Pos>::empty());
            assert(r.post@.to_set() =~= Set::<Pos>::empty());
        }
        r
    }

    /// Records a component of type `tile_type` at `position` in its class:
    /// delays are delays, mirrors and splitters modify beams, and galvos,
    /// emitters, detectors and walls are posts.
    pub fn track(&mut self, tile_type: TileType, position: Pos)
        requires
            old(self).wf(),
        ensures
            final(self).wf(),
            final(self).delay@.to_set() == (if tile_type == TileType::Delay {
                old(self).delay@.to_set().insert(position)
            } else {
                old(self).delay@.to_set()
            }),
            final(self).beam_modifier@.to_set() == (if tile_type == TileType::Mirror || tile_type
                == TileType::Splitter {
                old(self).beam_modifier@.to_set().insert(position)
            } else {
                old(self).beam_modifier@.to_set()
            }),
            final(self).beam@ == old(self).beam@,
            final(self).post@.to_set() == (if tile_type == TileType::Delay || tile_type
                == TileType::Mirror || tile_type == TileType::Splitter {
                old(self).post@.to_set()
            } else {
                old(self).post@.to_set().insert(position)
            }),
    {
        match tile_type {
            TileType::Delay => {
                insert_pos(&mut self.delay, position);
            },
            TileType::Mirror | TileType::Splitter => {
                insert_pos(&mut self.beam_modifier, position);
            },
            TileType::Galvo | TileType::Emitter | TileType::Detector | TileType::Wall => {
                insert_pos(&mut self.post, position);
            },
        }
    }
}

} // verus!
