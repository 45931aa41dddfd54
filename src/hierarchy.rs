use vstd::prelude::*;
use crate::scene::SceneStore;

verus! {

/// A sequence of distinct values below `n` has at most `n` elements.
proof fn lemma_distinct_bounded(s: Seq<usize>, n: nat)
    requires
        s.no_duplicates(),
        forall|i: int| 0 <= i < s.len() ==> s[i] < n,
    ensures
        s.len() <= n,
    decreases n,
{
    if n == 0 {
        if s.len() > 0 {
            assert(s[0] < 0);
        }
    } else {
        let top = (n - 1) as usize;
        if s.contains(top) {
            let k = choose|k: int| 0 <= k < s.len() && s[k] == top;
            let t = s.remove(k);
            assert forall|i: int| 0 <= i < t.len() implies t[i] < (n - 1) as nat by {
                let i2 = if i < k { i } else { i + 1 };
                assert(t[i] == s[i2]);
                assert(i2 != k);
            }
            assert forall|a: int, b: int| 0 <= a < b < t.len() implies t[a] != t[b] by {
                let a2 = if a < k { a } else { a + 1 };
                let b2 = if b < k { b } else { b + 1 };
                assert(t[a] == s[a2] && t[b] == s[b2]);
            }
            lemma_distinct_bounded(t, (n - 1) as nat);
        } else {
            assert forall|i: int| 0 <= i < s.len() implies s[i] < (n - 1) as nat by {
                assert(s[i] != top);
            }
            lemma_distinct_bounded(s, (n - 1) as nat);
        }
    }
}

impl<M: Copy> SceneStore<M> {
    /// `e` reaches `a` by following exactly `k` parent links.
    pub open spec fn descends_in(&self, e: int, a: int, k: nat) -> bool
        decreases k,
    {
        if k == 0 {
            e == a
        } else {
            &&& 0 <= e < self.len()
            &&& self.parent_of(e) is Some
            &&& self.descends_in(self.parent_of(e)->0 as int, a, (k - 1) as nat)
        }
    }

    /// `e` is a proper descendant of `a`: one or more parent links lead from `e` to `a`.
    pub open spec fn descends(&self, e: int, a: int) -> bool {
        exists|k: nat| k > 0 && #[trigger] self.descends_in(e, a, k)
    }

    /// `e` takes part in the scene: it descends from the scene root.
    pub open spec fn reachable(&self, e: int) -> bool {
        self.descends(e, self.root_id() as int)
    }

    /// Each entity of `order` comes after its parent, or has `start` as its parent.
    pub open spec fn parents_first(&self, order: Seq<usize>, start: usize) -> bool {
        forall|j: int| #![trigger order[j]]
            0 <= j < order.len() ==> {
                ||| self.parent_of(order[j] as int) == Some(start)
                ||| exists|j2: int| 0 <= j2 < j && self.parent_of(order[j] as int) == Some(order[j2])
            }
    }

    /// Every entity in an order where parents come first descends from `start`.
    pub proof fn lemma_parents_first_descend(&self, order: Seq<usize>, start: usize, j: int)
        requires
            self.wf(),
            self.parents_first(order, start),
            forall|i: int| 0 <= i < order.len() ==> order[i] < self.len(),
            0 <= j < order.len(),
        ensures
            self.descends(order[j] as int, start as int),
        decreases j,
    {
        let e = order[j] as int;
        if self.parent_of(e) == Some(start) {
            assert(self.descends_in(start as int, start as int, 0));
            assert(self.descends_in(e, start as int, 1));
        } else {
            let j2 = choose|j2: int| 0 <= j2 < j && self.parent_of(e) == Some(order[j2]);
            self.lemma_parents_first_descend(order, start, j2);
            let k = choose|k: nat| k > 0 && #[trigger] self.descends_in(order[j2] as int, start as int, k);
            assert(self.descends_in(e, start as int, k + 1));
        }
    }

    /// Appends to `order` each child of `p` not yet visited, in the order of
    /// the children index, marking it visited.
    fn visit_children(&self, p: usize, start: usize, visited: &mut Vec<bool>, order: &mut Vec<usize>)
        requires
            self.wf(),
            p < self.len(),
            start < self.len(),
            p == start || old(order)@.contains(p),
            old(visited)@.len() == self.len(),
            old(order)@.no_duplicates(),
            forall|i: int| 0 <= i < old(order)@.len() ==> old(order)@[i] < self.len() && old(order)@[i] != start,
            forall|x: int| 0 <= x < self.len() ==> (old(visited)@[x] <==> (x == start || old(order)@.contains(x as usize))),
            self.parents_first(old(order)@, start),
        ensures
            final(visited)@.len() == self.len(),
            final(order)@.no_duplicates(),
            forall|i: int| 0 <= i < final(order)@.len() ==> final(order)@[i] < self.len() && final(order)@[i] != start,
            forall|x: int| 0 <= x < self.len() ==> (final(visited)@[x] <==> (x == start || final(order)@.contains(x as usize))),
            self.parents_first(final(order)@, start),
            final(order)@.len() <= self.len(),
            old(order)@.is_prefix_of(final(order)@),
            forall|x: int| 0 <= x < self.len() && old(visited)@[x] ==> final(visited)@[x],
            forall|i: int| 0 <= i < self.kids()[p as int].len() ==> final(visited)@[#[trigger] self.kids()[p as int][i] as int],
    {
        let kids = self.children_of(p);
        let mut i: usize = 0;
        while i < kids.len()
            invariant
                self.wf(),
                p < self.len(),
                start < self.len(),
                p == start || order@.contains(p),
                kids@ == self.kids()[p as int],
                i <= kids@.len(),
                visited@.len() == self.len(),
                order@.no_duplicates(),
                forall|k: int| 0 <= k < order@.len() ==> order@[k] < self.len() && order@[k] != start,
                forall|x: int| 0 <= x < self.len() ==> (visited@[x] <==> (x == start || order@.contains(x as usize))),
                self.parents_first(order@, start),
                old(order)@.is_prefix_of(order@),
                forall|x: int| 0 <= x < self.len() && old(visited)@[x] ==> visited@[x],
                forall|k: int| 0 <= k < i ==> visited@[#[trigger] kids@[k] as int],
            decreases kids@.len() - i,
        {
            let c = kids[i];
            assert(self.kids()[p as int][i as int] == c);
            if !visited[c] {
                let ghost before = order@;
                proof {
                    lemma_distinct_bounded(order@.push(c), self.len());
                }
                visited.set(c, true);
                order.push(c);
                assert(order@ == before.push(c));
                assert forall|x: int| 0 <= x < self.len() implies (visited@[x] <==> (x == start || order@.contains(x as usize))) by {
                    if x != c {
                        if before.contains(x as usize) {
                            let k = choose|k: int| 0 <= k < before.len() && before[k] == x as usize;
                            assert(order@[k] == x as usize);
                        }
                        if order@.contains(x as usize) {
                            let k = choose|k: int| 0 <= k < order@.len() && order@[k] == x as usize;
                            assert(k < before.len());
                            assert(before[k] == x as usize);
                        }
                    } else {
                        assert(order@[before.len() as int] == c);
                    }
                }
                assert(self.parents_first(order@, start)) by {
                    assert forall|j: int| #![trigger order@[j]] 0 <= j < order@.len() implies {
                        ||| self.parent_of(order@[j] as int) == Some(start)
                        ||| exists|j2: int| 0 <= j2 < j && self.parent_of(order@[j] as int) == Some(order@[j2])
                    } by {
                        if j < before.len() {
                            assert(order@[j] == before[j]);
                            if self.parent_of(before[j] as int) != Some(start) {
                                let j2 = choose|j2: int| 0 <= j2 < j && self.parent_of(before[j] as int) == Some(before[j2]);
                                assert(order@[j2] == before[j2]);
                            }
                        } else {
                            assert(self.parent_of(c as int) == Some(p));
                            if p != start {
                                let j2 = choose|j2: int| 0 <= j2 < before.len() && before[j2] == p;
                                assert(order@[j2] == p);
                            }
                        }
                    }
                }
                assert(order@.contains(p) || p == start) by {
                    if p != start {
                        let j2 = choose|j2: int| 0 <= j2 < before.len() && before[j2] == p;
                        assert(order@[j2] == p);
                    }
                }
            }
            i = i + 1;
        }
        proof {
            lemma_distinct_bounded(order@, self.len());
        }
    }

    /// The proper descendants of `start`, each after its parent.
    ///
    /// Parent links that form a cycle away from `start` are never entered.
    #[verifier::rlimit(40)]
    pub fn descendants_of(&self, start: usize) -> (order: Vec<usize>)
        requires
            self.wf(),
            start < self.len(),
        ensures
            order@.no_duplicates(),
            forall|i: int| 0 <= i < order@.len() ==> order@[i] < self.len() && order@[i] != start,
            self.parents_first(order@, start),
            forall|x: int| 0 <= x < self.len() ==> (
                (x != start && self.descends(x, start as int)) <==> order@.contains(x as usize)),
    {
        let n = self.entity_count();
        let mut visited: Vec<bool> = Vec::new();
        let mut j: usize = 0;
        while j < n
            invariant
                visited@.len() == j,
                j <= n,
                forall|x: int| 0 <= x < j ==> visited@[x] == (x == start),
            decreases n - j,
        {
            visited.push(j == start);
            j = j + 1;
        }
        let mut order: Vec<usize> = Vec::new();
        self.visit_children(start, start, &mut visited, &mut order);
        let mut i: usize = 0;
        while i < order.len()
            invariant
                self.wf(),
                start < self.len(),
                n == self.len(),
                i <= order@.len(),
                order@.len() <= self.len(),
                visited@.len() == self.len(),
                order@.no_duplicates(),
                forall|k: int| 0 <= k < order@.len() ==> order@[k] < self.len() && order@[k] != start,
                forall|x: int| 0 <= x < self.len() ==> (visited@[x] <==> (x == start || order@.contains(x as usize))),
                self.parents_first(order@, start),
                forall|k: int| 0 <= k < self.kids()[start as int].len() ==> visited@[#[trigger] self.kids()[start as int][k] as int],
                forall|q: int, k: int| 0 <= q < i && 0 <= k < self.kids()[order@[q] as int].len()
                    ==> visited@[#[trigger] self.kids()[order@[q] as int][k] as int],
            decreases n - i,
        {
            let p = order[i];
            let ghost before = order@;
            let ghost vis_before = visited@;
            assert(order@.contains(p)) by {
                assert(order@[i as int] == p);
            }
            self.visit_children(p, start, &mut visited, &mut order);
            assert forall|q: int, k: int| 0 <= q < i + 1 && 0 <= k < self.kids()[order@[q] as int].len()
                implies visited@[#[trigger] self.kids()[order@[q] as int][k] as int] by {
                assert(order@[q] == before[q]);
                if q < i {
                    assert(vis_before[self.kids()[before[q] as int][k] as int]);
                }
            }
            i = i + 1;
        }
        proof {
            assert forall|x: int| 0 <= x < self.len() implies (
                (x != start && self.descends(x, start as int)) <==> order@.contains(x as usize)) by {
                if order@.contains(x as usize) {
                    let j = choose|j: int| 0 <= j < order@.len() && order@[j] == x as usize;
                    self.lemma_parents_first_descend(order@, start, j);
                }
                if x != start && self.descends(x, start as int) {
                    let k = choose|k: nat| k > 0 && #[trigger] self.descends_in(x, start as int, k);
                    self.lemma_closed_under_children(order@, visited@, start, x, k);
                }
            }
        }
        order
    }

    /// When `start` and every entity of `order` have all their children
    /// visited, every descendant of `start` is visited.
    proof fn lemma_closed_under_children(&self, order: Seq<usize>, visited: Seq<bool>, start: usize, x: int, k: nat)
        requires
            self.wf(),
            start < self.len(),
            visited.len() == self.len(),
            forall|y: int| 0 <= y < self.len() ==> (visited[y] <==> (y == start || order.contains(y as usize))),
            forall|i: int| 0 <= i < self.kids()[start as int].len() ==> visited[#[trigger] self.kids()[start as int][i] as int],
            forall|q: int, i: int| 0 <= q < order.len() && 0 <= i < self.kids()[order[q] as int].len()
                ==> visited[#[trigger] self.kids()[order[q] as int][i] as int],
            self.descends_in(x, start as int, k),
        ensures
            0 <= x < self.len() ==> visited[x],
        decreases k,
    {
        if k > 0 {
            let p = self.parent_of(x)->0 as int;
            assert(self.kids()[p].contains(x as usize));
            let i = choose|i: int| 0 <= i < self.kids()[p].len() && self.kids()[p][i] == x as usize;
            if k == 1 {
                assert(self.descends_in(p, start as int, 0));
                assert(visited[self.kids()[start as int][i] as int]);
            } else {
                self.lemma_closed_under_children(order, visited, start, p, (k - 1) as nat);
                if p == start {
                    assert(visited[self.kids()[start as int][i] as int]);
                } else {
                    let q = choose|q: int| 0 <= q < order.len() && order[q] == p as usize;
                    assert(visited[self.kids()[order[q] as int][i] as int]);
                }
            }
        }
    }
}

} // verus!
