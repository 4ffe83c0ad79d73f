use vstd::prelude::*;

use crate::direction::Pos;

verus! {

/// Whether the positions of `s` are strictly increasing (so each occurs once).
pub open spec fn sorted_positions<T>(s: Seq<(Pos, T)>) -> bool {
    forall|i: int, j: int| 0 <= i < j < s.len() ==> (#[trigger] s[i]).0.lt((#[trigger] s[j]).0)
}

/// Whether position `p` occurs in `s`.
pub open spec fn has_pos<T>(s: Seq<(Pos, T)>, p: Pos) -> bool {
    exists|i: int| 0 <= i < s.len() && (#[trigger] s[i]).0 == p
}

/// The finite map that an association list stands for.
pub open spec fn seq_to_map<T>(s: Seq<(Pos, T)>) -> Map<Pos, T> {
    Map::new(
        |p: Pos| has_pos(s, p),
        |p: Pos| s[choose|i: int| 0 <= i < s.len() && (#[trigger] s[i]).0 == p].1,
    )
}

/// The value stored at `p`, or `default` where nothing is stored.
pub open spec fn get_or<T>(m: Map<Pos, T>, p: Pos, default: T) -> T {
    if m.contains_key(p) {
        m[p]
    } else {
        default
    }
}

/// The entries of `m` sorted by position (meaningful for maps that some
/// sorted association list stands for, such as the view of a `TileMap`).
pub open spec fn sorted_entries<T>(m: Map<Pos, T>) -> Seq<(Pos, T)> {
    choose|s: Seq<(Pos, T)>| sorted_positions(s) && seq_to_map(s) == m
}

/// Dropping the first entry of a sorted list drops its position from the map.
pub proof fn lemma_drop_first<T>(s: Seq<(Pos, T)>)
    requires
        sorted_positions(s),
        s.len() > 0,
    ensures
        sorted_positions(s.drop_first()),
        seq_to_map(s.drop_first()) == seq_to_map(s).remove(s[0].0),
{
    let t = s.drop_first();
    assert(sorted_positions(t)) by {
        assert forall|i: int, j: int| 0 <= i < j < t.len() implies (#[trigger] t[i]).0.lt((#[trigger] t[j]).0) by {
            assert(s[i + 1].0.lt(s[j + 1].0));
        }
    }
    assert(seq_to_map(t) =~= seq_to_map(s).remove(s[0].0)) by {
        assert forall|q: Pos| has_pos(t, q) == (has_pos(s, q) && q != s[0].0) by {
            if has_pos(t, q) {
                let k = choose|k: int| 0 <= k < t.len() && (#[trigger] t[k]).0 == q;
                assert(s[k + 1].0 == q);
                assert(s[0].0.lt(s[k + 1].0));
            }
            if has_pos(s, q) && q != s[0].0 {
                let k = choose|k: int| 0 <= k < s.len() && (#[trigger] s[k]).0 == q;
                assert(k != 0);
                assert(t[k - 1].0 == q);
            }
        }
        assert forall|q: Pos| has_pos(t, q) implies seq_to_map(t)[q] == seq_to_map(s)[q] by {
            let k = choose|k: int| 0 <= k < t.len() && (#[trigger] t[k]).0 == q;
            lemma_sorted_lookup(t, k);
            lemma_sorted_lookup(s, k + 1);
        }
    }
}

/// A map stands for at most one sorted association list.
pub proof fn lemma_sorted_unique<T>(s1: Seq<(Pos, T)>, s2: Seq<(Pos, T)>)
    requires
        sorted_positions(s1),
        sorted_positions(s2),
        seq_to_map(s1) == seq_to_map(s2),
    ensures
        s1 == s2,
    decreases s1.len(),
{
    let m = seq_to_map(s1);
    if s1.len() == 0 {
        if s2.len() > 0 {
            lemma_sorted_lookup(s2, 0);
            assert(has_pos(s1, s2[0].0));
        }
        assert(s1 =~= s2);
    } else {
        lemma_sorted_lookup(s1, 0);
        if s2.len() == 0 {
            assert(has_pos(s2, s1[0].0));
        }
        lemma_sorted_lookup(s2, 0);
        let a = s1[0].0;
        let b = s2[0].0;
        if a != b {
            assert(has_pos(s2, a));
            let k = choose|k: int| 0 <= k < s2.len() && (#[trigger] s2[k]).0 == a;
            assert(has_pos(s1, b));
            let l = choose|l: int| 0 <= l < s1.len() && (#[trigger] s1[l]).0 == b;
            assert(k != 0 && l != 0);
            assert(b.lt(a));
            assert(a.lt(b));
        }
        lemma_drop_first(s1);
        lemma_drop_first(s2);
        lemma_sorted_unique(s1.drop_first(), s2.drop_first());
        assert(s1 =~= s2) by {
            assert forall|i: int| 0 <= i < s1.len() implies s1[i] == s2[i] by {
                if i > 0 {
                    assert(s1[i] == s1.drop_first()[i - 1]);
                    assert(s2[i] == s2.drop_first()[i - 1]);
                }
            }
        }
    }
}

/// A sparse grid: a finite map from positions to values, kept as a list of
/// entries sorted by position.
pub struct TileMap<T> {
    entries: Vec<(Pos, T)>,
}

pub proof fn lemma_sorted_lookup<T>(s: Seq<(Pos, T)>, i: int)
    requires
        sorted_positions(s),
        0 <= i < s.len(),
    ensures
        seq_to_map(s).contains_key(s[i].0),
        seq_to_map(s)[s[i].0] == s[i].1,
{
    let p = s[i].0;
    assert(has_pos(s, p));
    let j = choose|j: int| 0 <= j < s.len() && (#[trigger] s[j]).0 == p;
    if j < i {
        assert(s[j].0.lt(s[i].0));
    } else if i < j {
        assert(s[i].0.lt(s[j].0));
    }
}

impl<T: Copy> TileMap<T> {
    /// The entries, sorted by position.
    pub closed spec fn entries(&self) -> Seq<(Pos, T)> {
        self.entries@
    }

    pub closed spec fn wf(&self) -> bool {
        sorted_positions(self.entries@)
    }

    pub closed spec fn view(&self) -> Map<Pos, T> {
        seq_to_map(self.entries@)
    }

    /// The entries of a well-formed map are sorted by position and list
    /// exactly the map's contents.
    pub proof fn lemma_entries(&self)
        requires
            self.wf(),
        ensures
            sorted_positions(self.entries()),
            self@ == seq_to_map(self.entries()),
            forall|i: int|
                0 <= i < self.entries().len() ==> self@.contains_key(
                    (#[trigger] self.entries()[i]).0,
                ) && self@[self.entries()[i].0] == self.entries()[i].1,
            forall|p: Pos| self@.contains_key(p) <==> has_pos(self.entries(), p),
            self@.dom().finite(),
    {
        assert forall|i: int| 0 <= i < self.entries().len() implies self@.contains_key(
            (#[trigger] self.entries()[i]).0,
        ) && self@[self.entries()[i].0] == self.entries()[i].1 by {
            lemma_sorted_lookup(self.entries@, i);
        }
        lemma_dom_finite(self.entries@);
    }

    /// The entries of a well-formed map are determined by its contents.
    pub proof fn lemma_entries_sorted(&self)
        requires
            self.wf(),
        ensures
            self.entries() == sorted_entries(self@),
    {
        assert(sorted_positions(self.entries@) && seq_to_map(self.entries@) == self@);
        let s = sorted_entries(self@);
        lemma_sorted_unique(s, self.entries@);
    }

    pub fn new() -> (r: TileMap<T>)
        ensures
            r.wf(),
            r@ == Map::<Pos, T>::empty(),
            r.entries() == Seq::<(Pos, T)>::empty(),
    {
        let r = TileMap { entries: Vec::new() };
        assert(r@ =~= Map::<Pos, T>::empty());
        r
    }

    pub fn len(&self) -> (r: usize)
        ensures
            r == self.entries().len(),
    {
        self.entries.len()
    }

    /// The `i`-th entry in position order.
    pub fn entry(&self, i: usize) -> (r: (Pos, T))
        requires
            i < self.entries().len(),
        ensures
            r == self.entries()[i as int],
    {
        self.entries[i]
    }

    /// The index of the first entry whose position is not below `p`.
    fn find(&self, p: Pos) -> (r: usize)
        requires
            self.wf(),
        ensures
            r <= self.entries().len(),
            forall|i: int| 0 <= i < r ==> (#[trigger] self.entries()[i]).0.lt(p),
            r < self.entries().len() ==> !self.entries()[r as int].0.lt(p),
    {
        let mut i: usize = 0;
        while i < self.entries.len()
            invariant
                i <= self.entries@.len(),
                forall|k: int| 0 <= k < i ==> (#[trigger] self.entries@[k]).0.lt(p),
            decreases self.entries@.len() - i,
        {
            if !self.entries[i].0.less_than(&p) {
                return i;
            }
            i = i + 1;
        }
        i
    }

    pub fn get(&self, p: Pos) -> (r: Option<T>)
        requires
            self.wf(),
        ensures
            r == (if self@.contains_key(p) {
                Some(self@[p])
            } else {
                None::<T>
            }),
    {
        let i = self.find(p);
        proof {
            self.lemma_entries();
        }
        if i < self.entries.len() && self.entries[i].0 == p {
            Some(self.entries[i].1)
        } else {
            proof {
                if has_pos(self.entries@, p) {
                    let j = choose|j: int| 0 <= j < self.entries@.len() && (#[trigger] self.entries@[j]).0 == p;
                    if j < i {
                        assert(self.entries@[j].0.lt(p));
                    } else if j > i {
                        assert(self.entries@[i as int].0.lt(self.entries@[j].0));
                    }
                }
            }
            None
        }
    }

    /// Stores `v` at `p`, replacing what was there.
    pub fn set(&mut self, p: Pos, v: T)
        requires
            old(self).wf(),
        ensures
            final(self).wf(),
            final(self)@ == old(self)@.insert(p, v),
    {
        let i = self.find(p);
        let ghost s0 = self.entries@;
        proof {
            self.lemma_entries();
        }
        if i < self.entries.len() && self.entries[i].0 == p {
            self.entries.set(i, (p, v));
            let ghost s1 = self.entries@;
            assert(s1 == s0.update(i as int, (p, v)));
            assert(sorted_positions(s1)) by {
                assert forall|a: int, b: int| 0 <= a < b < s1.len() implies (#[trigger] s1[a]).0.lt(
                    (#[trigger] s1[b]).0,
                ) by {
                    assert(s0[a].0.lt(s0[b].0));
                }
            }
            assert(seq_to_map(s1) =~= seq_to_map(s0).insert(p, v)) by {
                assert forall|q: Pos| has_pos(s1, q) == (has_pos(s0, q) || q == p) by {
                    if has_pos(s0, q) {
                        let k = choose|k: int| 0 <= k < s0.len() && (#[trigger] s0[k]).0 == q;
                        assert(s1[k].0 == q);
                    }
                    if has_pos(s1, q) {
                        let k = choose|k: int| 0 <= k < s1.len() && (#[trigger] s1[k]).0 == q;
                        assert(s0[k].0 == q);
                    }
                    if q == p {
                        assert(s1[i as int].0 == q);
                    }
                }
                assert forall|q: Pos| has_pos(s1, q) implies seq_to_map(s1)[q] == seq_to_map(
                    s0,
                ).insert(p, v)[q] by {
                    let k = choose|k: int| 0 <= k < s1.len() && (#[trigger] s1[k]).0 == q;
                    lemma_sorted_lookup(s1, k);
                    if k != i {
                        lemma_sorted_lookup(s0, k);
                    }
                }
            }
        } else {
            self.entries.insert(i, (p, v));
            let ghost s1 = self.entries@;
            assert(s1 == s0.insert(i as int, (p, v)));
            assert(sorted_positions(s1)) by {
                assert forall|a: int, b: int| 0 <= a < b < s1.len() implies (#[trigger] s1[a]).0.lt(
                    (#[trigger] s1[b]).0,
                ) by {
                    if b < i {
                        assert(s0[a].0.lt(s0[b].0));
                    } else if b == i {
                        assert(s0[a].0.lt(p));
                    } else if a < i {
                        assert(s0[a].0.lt(p));
                        assert(!s0[i as int].0.lt(p));
                        assert(s0[i as int] == s1[i + 1]);
                        if b > i + 1 {
                            assert(s0[i as int].0.lt(s0[b - 1].0));
                        }
                    } else if a == i {
                        assert(!s0[i as int].0.lt(p));
                        assert(s0[i as int].0 != p);
                        if b > i + 1 {
                            assert(s0[i as int].0.lt(s0[b - 1].0));
                        }
                    } else {
                        assert(s0[a - 1].0.lt(s0[b - 1].0));
                    }
                }
            }
            assert(seq_to_map(s1) =~= seq_to_map(s0).insert(p, v)) by {
                assert forall|q: Pos| has_pos(s1, q) == (has_pos(s0, q) || q == p) by {
                    if has_pos(s0, q) {
                        let k = choose|k: int| 0 <= k < s0.len() && (#[trigger] s0[k]).0 == q;
                        if k < i {
                            assert(s1[k].0 == q);
                        } else {
                            assert(s1[k + 1].0 == q);
                        }
                    }
                    if has_pos(s1, q) {
                        let k = choose|k: int| 0 <= k < s1.len() && (#[trigger] s1[k]).0 == q;
                        if k < i {
                            assert(s0[k].0 == q);
                        } else if k > i {
                            assert(s0[k - 1].0 == q);
                        }
                    }
                    if q == p {
                        assert(s1[i as int].0 == q);
                    }
                }
                assert forall|q: Pos| has_pos(s1, q) implies seq_to_map(s1)[q] == seq_to_map(
                    s0,
                ).insert(p, v)[q] by {
                    let k = choose|k: int| 0 <= k < s1.len() && (#[trigger] s1[k]).0 == q;
                    lemma_sorted_lookup(s1, k);
                    if k < i {
                        lemma_sorted_lookup(s0, k);
                    } else if k > i {
                        lemma_sorted_lookup(s0, k - 1);
                    }
                }
            }
        }
    }

    /// Removes whatever is stored at `p`.
    pub fn remove(&mut self, p: Pos)
        requires
            old(self).wf(),
        ensures
            final(self).wf(),
            final(self)@ == old(self)@.remove(p),
    {
        let i = self.find(p);
        let ghost s0 = self.entries@;
        proof {
            self.lemma_entries();
        }
        if i < self.entries.len() && self.entries[i].0 == p {
            self.entries.remove(i);
            let ghost s1 = self.entries@;
            assert(s1 == s0.remove(i as int));
            assert(sorted_positions(s1)) by {
                assert forall|a: int, b: int| 0 <= a < b < s1.len() implies (#[trigger] s1[a]).0.lt(
                    (#[trigger] s1[b]).0,
                ) by {
                    if b < i {
                        assert(s0[a].0.lt(s0[b].0));
                    } else if a < i {
                        assert(s0[a].0.lt(s0[b + 1].0));
                    } else {
                        assert(s0[a + 1].0.lt(s0[b + 1].0));
                    }
                }
            }
            assert(seq_to_map(s1) =~= seq_to_map(s0).remove(p)) by {
                assert forall|q: Pos| has_pos(s1, q) == (has_pos(s0, q) && q != p) by {
                    if has_pos(s0, q) && q != p {
                        let k = choose|k: int| 0 <= k < s0.len() && (#[trigger] s0[k]).0 == q;
                        if k < i {
                            assert(s1[k].0 == q);
                        } else {
                            assert(k != i);
                            assert(s1[k - 1].0 == q);
                        }
                    }
                    if has_pos(s1, q) {
                        let k = choose|k: int| 0 <= k < s1.len() && (#[trigger] s1[k]).0 == q;
                        if k < i {
                            assert(s0[k].0 == q);
                            assert(s0[k].0.lt(s0[i as int].0));
                        } else {
                            assert(s0[k + 1].0 == q);
                            assert(s0[i as int].0.lt(s0[k + 1].0));
                        }
                    }
                }
                assert forall|q: Pos| has_pos(s1, q) implies seq_to_map(s1)[q] == seq_to_map(
                    s0,
                ).remove(p)[q] by {
                    let k = choose|k: int| 0 <= k < s1.len() && (#[trigger] s1[k]).0 == q;
                    lemma_sorted_lookup(s1, k);
                    if k < i {
                        lemma_sorted_lookup(s0, k);
                    } else {
                        lemma_sorted_lookup(s0, k + 1);
                    }
                }
            }
        } else {
            proof {
                assert(seq_to_map(s0) =~= seq_to_map(s0).remove(p)) by {
                    if has_pos(s0, p) {
                        let j = choose|j: int| 0 <= j < s0.len() && (#[trigger] s0[j]).0 == p;
                        if j < i {
                            assert(s0[j].0.lt(p));
                        } else if j > i {
                            assert(s0[i as int].0.lt(s0[j].0));
                        }
                    }
                }
            }
        }
    }

    /// A copy of the map.
    pub fn copy(&self) -> (r: TileMap<T>)
        requires
            self.wf(),
        ensures
            r.wf(),
            r@ == self@,
            r.entries() == self.entries(),
    {
        let mut v: Vec<(Pos, T)> = Vec::new();
        let mut i: usize = 0;
        while i < self.entries.len()
            invariant
                i <= self.entries@.len(),
                v@ == self.entries@.subrange(0, i as int),
            decreases self.entries@.len() - i,
        {
            v.push(self.entries[i]);
            i = i + 1;
            assert(v@ =~= self.entries@.subrange(0, i as int));
        }
        assert(v@ =~= self.entries@);
        TileMap { entries: v }
    }
}

proof fn lemma_dom_finite<T>(s: Seq<(Pos, T)>)
    ensures
        seq_to_map(s).dom().finite(),
{
    let d = seq_to_map(s).dom();
    let ps = s.map_values(|e: (Pos, T)| e.0);
    let img = ps.to_set();
    assert(d =~= img) by {
        assert forall|p: Pos| d.contains(p) implies img.contains(p) by {
            let i = choose|i: int| 0 <= i < s.len() && (#[trigger] s[i]).0 == p;
            assert(ps[i] == p);
        }
        assert forall|p: Pos| img.contains(p) implies d.contains(p) by {
            let i = choose|i: int| 0 <= i < ps.len() && #[trigger] ps[i] == p;
            assert(s[i].0 == p);
        }
    }
    vstd::seq_lib::seq_to_set_is_finite(ps);
}

} // verus!
