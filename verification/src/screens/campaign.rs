use vstd::prelude::*;

use crate::level::tree::{parents_of, LevelTree};
use crate::level::Level;

verus! {

broadcast use vstd::std_specs::hash::group_hash_axioms;

/// Whether level `id` may be played: no level unlocks it, or one of the
/// levels that unlock it has been solved.
pub open spec fn available(levels: Seq<Level>, solved: Set<u128>, id: u128) -> bool {
    let parents = parents_of(levels, id, levels.len() as int);
    parents.len() == 0 || exists|i: int| 0 <= i < parents.len() && solved.contains(parents[i])
}

/// Whether level `id` of the campaign `tree` may be played, where `solved`
/// holds the levels that have a solved solution.
pub fn is_available(
    tree: &LevelTree,
    solved: &std::collections::HashSet<u128>,
    id: u128,
) -> (r: bool)
    requires
        tree.wf(),
    ensures
        r == available(tree.levels(), solved@, id),
{
    let parents = match tree.parents(id) {
        Some(p) => p,
        None => {
            return true;
        },
    };
    let mut i: usize = 0;
    while i < parents.len()
        invariant
            i <= parents@.len(),
            parents@ == parents_of(tree.levels(), id, tree.levels().len() as int),
            forall|k: int| 0 <= k < i ==> !solved@.contains(parents@[k]),
        decreases parents@.len() - i,
    {
        if solved.contains(&parents[i]) {
            return true;
        }
        i = i + 1;
    }
    parents.len() == 0
}

/// Whether every level of the campaign has a solved solution.
pub fn all_solved(levels: &[Level], solved: &std::collections::HashSet<u128>) -> (r: bool)
    ensures
        r == forall|k: int| 0 <= k < levels@.len() ==> solved@.contains(#[trigger] levels@[k].id),
{
    let mut i: usize = 0;
    while i < levels.len()
        invariant
            i <= levels@.len(),
            forall|k: int| 0 <= k < i ==> solved@.contains(#[trigger] levels@[k].id),
        decreases levels@.len() - i,
    {
        if !solved.contains(&levels[i].id) {
            return false;
        }
        i = i + 1;
    }
    true
}

} // verus!
