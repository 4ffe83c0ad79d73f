use vstd::prelude::*;

use super::Level;

verus! {

broadcast use vstd::std_specs::hash::group_hash_axioms;

/// The index of the last of the first `n` levels with id `id`, or -1.
pub open spec fn last_with_id(levels: Seq<Level>, id: u128, n: int) -> int
    decreases n,
{
    if n <= 0 {
        -1
    } else if levels[n - 1].id == id {
        n - 1
    } else {
        last_with_id(levels, id, n - 1)
    }
}

/// The parents listed by the first `n` levels with id `id`, in order.
pub open spec fn parents_of(levels: Seq<Level>, id: u128, n: int) -> Seq<u128>
    decreases n,
{
    if n <= 0 {
        Seq::empty()
    } else {
        parents_of(levels, id, n - 1) + if levels[n - 1].id == id {
            levels[n - 1].parents@
        } else {
            Seq::empty()
        }
    }
}

/// The ids of the levels.
pub open spec fn level_ids(levels: Seq<Level>) -> Set<u128> {
    Set::new(|id: u128| exists|k: int| 0 <= k < levels.len() && levels[k].id == id)
}

/// Whether `id` is a level that no other level must be solved before.
pub open spec fn is_root(levels: Seq<Level>, id: u128) -> bool {
    level_ids(levels).contains(id) && parents_of(levels, id, levels.len() as int).len() == 0
}

proof fn lemma_last_with_id(levels: Seq<Level>, id: u128, n: int)
    requires
        0 <= n <= levels.len(),
    ensures
        -1 <= last_with_id(levels, id, n) < n,
        last_with_id(levels, id, n) >= 0 ==> levels[last_with_id(levels, id, n)].id == id,
        last_with_id(levels, id, n) >= 0 <==> exists|k: int| 0 <= k < n && levels[k].id == id,
    decreases n,
{
    if n > 0 {
        lemma_last_with_id(levels, id, n - 1);
        if levels[n - 1].id != id {
            if exists|k: int| 0 <= k < n && levels[k].id == id {
                let k = choose|k: int| 0 <= k < n && levels[k].id == id;
                assert(k < n - 1);
            }
        }
    }
}

/// The campaign's levels, arranged by which levels unlock which.
pub struct LevelTree<'a> {
    levels: &'a [Level],
    map: std::collections::HashMap<u128, usize>,
    reverse: std::collections::HashMap<u128, Vec<u128>>,
    root: Vec<u128>,
}

impl<'a> LevelTree<'a> {
    /// The levels the tree was built from.
    pub closed spec fn levels(&self) -> Seq<Level> {
        self.levels@
    }

    pub closed spec fn wf(&self) -> bool {
        let levels = self.levels@;
        let n = levels.len() as int;
        &&& forall|id: u128|
            #[trigger] self.map@.contains_key(id) <==> last_with_id(levels, id, n) >= 0
        &&& forall|id: u128|
            #[trigger] self.map@.contains_key(id) ==> self.map@[id] == last_with_id(levels, id, n)
        &&& forall|id: u128|
            #[trigger] self.reverse@.contains_key(id) <==> parents_of(levels, id, n).len() > 0
        &&& forall|id: u128|
            #[trigger] self.reverse@.contains_key(id) ==> self.reverse@[id]@ == parents_of(
                levels,
                id,
                n,
            )
        &&& self.root@.no_duplicates()
        &&& forall|id: u128| #[trigger] self.root@.contains(id) <==> is_root(levels, id)
    }

    pub fn new(levels: &'a [Level]) -> (r: LevelTree<'a>)
        ensures
            r.wf(),
            r.levels() == levels@,
    {
        let n = levels.len();
        let mut map: std::collections::HashMap<u128, usize> = std::collections::HashMap::new();
        let mut reverse: std::collections::HashMap<u128, Vec<u128>> =
            std::collections::HashMap::new();
        let mut i: usize = 0;
        while i < n
            invariant
                n == levels@.len(),
                i <= n,
                forall|id: u128|
                    #[trigger] map@.contains_key(id) <==> last_with_id(levels@, id, i as int) >= 0,
                forall|id: u128|
                    #[trigger] map@.contains_key(id) ==> map@[id] == last_with_id(
                        levels@,
                        id,
                        i as int,
                    ),
                forall|id: u128|
                    #[trigger] reverse@.contains_key(id) <==> parents_of(levels@, id, i as int).len()
                        > 0,
                forall|id: u128|
                    #[trigger] reverse@.contains_key(id) ==> reverse@[id]@ == parents_of(
                        levels@,
                        id,
                        i as int,
                    ),
            decreases n - i,
        {
            let level = &levels[i];
            let id = level.id;
            map.insert(id, i);
            if level.parents.len() > 0 {
                let mut list = match reverse.remove(&id) {
                    Some(v) => v,
                    None => Vec::new(),
                };
                let ghost before = list@;
                let mut j: usize = 0;
                while j < level.parents.len()
                    invariant
                        j <= level.parents@.len(),
                        list@ == before + level.parents@.subrange(0, j as int),
                    decreases level.parents@.len() - j,
                {
                    list.push(level.parents[j]);
                    proof {
                        assert(before + level.parents@.subrange(0, j + 1) =~= (before
                            + level.parents@.subrange(0, j as int)).push(level.parents@[j as int]));
                    }
                    j = j + 1;
                }
                proof {
                    assert(level.parents@.subrange(0, level.parents@.len() as int)
                        =~= level.parents@);
                    assert(before =~= parents_of(levels@, id, i as int));
                }
                reverse.insert(id, list);
            }
            proof {
                assert forall|k: u128| #[trigger] reverse@.contains_key(k) ==> reverse@[k]@
                    == parents_of(levels@, k, i + 1) by {
                    if k != id {
                        assert(parents_of(levels@, k, i + 1) =~= parents_of(levels@, k, i as int));
                    }
                }
                assert forall|k: u128| #[trigger] reverse@.contains_key(k) <==> parents_of(
                    levels@,
                    k,
                    i + 1,
                ).len() > 0 by {
                    if k != id {
                        assert(parents_of(levels@, k, i + 1) =~= parents_of(levels@, k, i as int));
                    }
                }
            }
            i = i + 1;
        }
        let mut root: Vec<u128> = Vec::new();
        let mut k: usize = 0;
        while k < n
            invariant
                n == levels@.len(),
                k <= n,
                forall|id: u128|
                    #[trigger] reverse@.contains_key(id) <==> parents_of(levels@, id, n as int).len()
                        > 0,
                root@.no_duplicates(),
                forall|id: u128|
                    #[trigger] root@.contains(id) <==> (exists|j: int|
                        0 <= j < k && levels@[j].id == id) && parents_of(
                        levels@,
                        id,
                        n as int,
                    ).len() == 0,
            decreases n - k,
        {
            let id = levels[k].id;
            let ghost before = root@;
            let fresh = !reverse.contains_key(&id) && !contains_id(&root, id);
            if fresh {
                root.push(id);
            }
            proof {
                assert forall|q: u128| root@.contains(q) <==> (before.contains(q) || (fresh && q
                    == id)) by {
                    if fresh {
                        if root@.contains(q) {
                            let j = choose|j: int| 0 <= j < root@.len() && root@[j] == q;
                            if j < before.len() {
                                assert(before[j] == q);
                            }
                        }
                        if before.contains(q) {
                            let j = choose|j: int| 0 <= j < before.len() && before[j] == q;
                            assert(root@[j] == q);
                        }
                        assert(root@[before.len() as int] == id);
                    }
                }
                assert forall|q: u128| #[trigger] root@.contains(q) <==> (exists|j: int|
                    0 <= j < k + 1 && levels@[j].id == q) && parents_of(levels@, q, n as int).len()
                    == 0 by {
                    assert(before.contains(q) == ((exists|j: int|
                        0 <= j < k && levels@[j].id == q) && parents_of(levels@, q, n as int).len()
                        == 0));
                    assert(before.contains(id) == ((exists|j: int|
                        0 <= j < k && levels@[j].id == id) && parents_of(levels@, id, n as int).len()
                        == 0));
                    assert(reverse@.contains_key(id) <==> parents_of(levels@, id, n as int).len() > 0);
                    if exists|j: int| 0 <= j < k + 1 && levels@[j].id == q {
                        let j = choose|j: int| 0 <= j < k + 1 && levels@[j].id == q;
                        if j < k {
                            assert(exists|j: int| 0 <= j < k && levels@[j].id == q);
                        }
                    }
                    if exists|j: int| 0 <= j < k && levels@[j].id == q {
                        let j = choose|j: int| 0 <= j < k && levels@[j].id == q;
                        assert(0 <= j < k + 1 && levels@[j].id == q);
                    }
                    if q == id {
                        assert(levels@[k as int].id == q);
                    }
                }
            }
            k = k + 1;
        }
        let r = LevelTree { levels, map, reverse, root };
        proof {
            assert forall|id: u128| #[trigger] r.root@.contains(id) <==> is_root(levels@, id) by {
                assert(level_ids(levels@).contains(id) <==> exists|j: int|
                    0 <= j < n && levels@[j].id == id);
            }
        }
        r
    }

    /// The level with id `id`; the last one where several share it.
    pub fn get(&self, id: u128) -> (r: Option<&'a Level>)
        requires
            self.wf(),
        ensures
            ({
                let k = last_with_id(self.levels(), id, self.levels().len() as int);
                match r {
                    Some(level) => 0 <= k < self.levels().len() && *level == self.levels()[k],
                    None => k < 0,
                }
            }),
            r is None <==> !level_ids(self.levels()).contains(id),
    {
        proof {
            lemma_last_with_id(self.levels@, id, self.levels@.len() as int);
        }
        match self.map.get(&id) {
            Some(i) => Some(&self.levels[*i]),
            None => None,
        }
    }

    /// The ids of the levels that no other level must be solved before, each
    /// once.
    pub fn root(&self) -> (r: Vec<u128>)
        requires
            self.wf(),
        ensures
            r@.no_duplicates(),
            forall|id: u128| #[trigger] r@.contains(id) <==> is_root(self.levels(), id),
    {
        let mut r: Vec<u128> = Vec::new();
        let mut i: usize = 0;
        while i < self.root.len()
            invariant
                i <= self.root@.len(),
                self.root@.no_duplicates(),
                r@ == self.root@.subrange(0, i as int),
            decreases self.root@.len() - i,
        {
            r.push(self.root[i]);
            proof {
                assert(self.root@.subrange(0, i + 1) =~= self.root@.subrange(0, i as int).push(
                    self.root@[i as int],
                ));
            }
            i = i + 1;
        }
        proof {
            assert(self.root@.subrange(0, self.root@.len() as int) =~= self.root@);
        }
        r
    }

    /// The levels that unlock `child`: `None` where no level lists a parent
    /// for it.
    pub fn parents(&self, child: u128) -> (r: Option<&Vec<u128>>)
        requires
            self.wf(),
        ensures
            match r {
                Some(v) => v@ == parents_of(self.levels(), child, self.levels().len() as int)
                    && v@.len() > 0,
                None => parents_of(self.levels(), child, self.levels().len() as int).len() == 0,
            },
    {
        self.reverse.get(&child)
    }

    /// The number of distinct level ids.
    pub fn count(&self) -> (r: usize)
        requires
            self.wf(),
        ensures
            r == level_ids(self.levels()).len(),
    {
        proof {
            assert(self.map@.dom() =~= level_ids(self.levels@)) by {
                assert forall|id: u128| self.map@.dom().contains(id) <==> level_ids(
                    self.levels@,
                ).contains(id) by {
                    lemma_last_with_id(self.levels@, id, self.levels@.len() as int);
                }
            }
        }
        self.map.len()
    }
}

fn contains_id(v: &Vec<u128>, x: u128) -> (r: bool)
    ensures
        r == v@.contains(x),
{
    let mut i: usize = 0;
    while i < v.len()
        invariant
            i <= v@.len(),
            forall|k: int| 0 <= k < i ==> v@[k] != x,
        decreases v@.len() - i,
    {
        if v[i] == x {
            assert(v@[i as int] == x);
            return true;
        }
        i = i + 1;
    }
    false
}

} // verus!
