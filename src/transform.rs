use vstd::prelude::*;
use crate::scene::{ModelRef, Node, SceneStore};

verus! {

/// One row of the per-frame render data: a drawable entity, its world
/// transform and its model.
#[derive(Clone, Copy, Debug)]
pub struct RenderRow<M> {
    pub entity: usize,
    pub transform: M,
    pub model: ModelRef,
}

/// The world transform of the last of a chain of relative transforms
/// `ts` (the root side first): `f(Tk, ... f(T2, f(T1, identity)))`.
pub open spec fn chain_product<M>(ts: Seq<M>, f: spec_fn(M, M) -> M, identity: M) -> M
    decreases ts.len(),
{
    if ts.len() == 0 {
        identity
    } else {
        f(ts.last(), chain_product(ts.drop_last(), f, identity))
    }
}

/// The relative transforms of the entities of `chain`.
pub open spec fn relatives_of<M: Copy>(s: &SceneStore<M>, chain: Seq<usize>) -> Seq<M> {
    chain.map_values(|e: usize| s.nodes()[e as int].relative->0)
}

/// `chain` is a path of parent links that starts at a child of the scene root
/// and in which every entity has a relative transform.
pub open spec fn is_root_chain<M: Copy>(s: &SceneStore<M>, chain: Seq<usize>) -> bool {
    &&& chain.len() > 0
    &&& forall|i: int| #![trigger chain[i]] 0 <= i < chain.len() ==> {
        &&& chain[i] < s.len()
        &&& s.nodes()[chain[i] as int].relative is Some
    }
    &&& s.parent_of(chain[0] as int) == Some(s.root_id())
    &&& forall|i: int| #![trigger chain[i]] 1 <= i < chain.len() ==> s.parent_of(chain[i] as int) == Some(chain[i - 1])
}

/// After propagation with a `compose` that computes `f`, the absolute
/// transform of an entity at the end of a chain of parent links from the
/// scene root is the product of the chain's relative transforms, the root
/// side innermost.
pub proof fn lemma_absolute_is_chain_product<M: Copy, F: Fn(&M, &M) -> M>(
    s: &SceneStore<M>,
    compose: F,
    f: spec_fn(M, M) -> M,
    identity: M,
    chain: Seq<usize>,
)
    requires
        s.wf(),
        s.propagated(compose, identity),
        forall|a: M, b: M, r: M| #[trigger] compose.ensures((&a, &b), r) ==> r == f(a, b),
        is_root_chain(s, chain),
    ensures
        s.nodes()[chain.last() as int].absolute == Some(chain_product(relatives_of(s, chain), f, identity)),
    decreases chain.len(),
{
    let e = chain.last() as int;
    let k = (chain.len() - 1) as int;
    assert(chain[k] == e);
    lemma_chain_reachable(s, chain, k);
    let ts = relatives_of(s, chain);
    assert(ts.drop_last() == relatives_of(s, chain.drop_last()));
    assert(ts.last() == s.nodes()[e].relative->0);
    assert(s.nodes()[e].absolute is Some);
    if chain.len() == 1 {
        assert(s.nodes()[s.root_id() as int].absolute is None);
        assert(s.base_of(e, identity) == identity);
    } else {
        let prefix = chain.drop_last();
        assert(prefix[prefix.len() - 1] == chain[k - 1]);
        assert forall|i: int| #![trigger prefix[i]] 1 <= i < prefix.len() implies s.parent_of(prefix[i] as int) == Some(prefix[i - 1]) by {
            assert(prefix[i] == chain[i] && prefix[i - 1] == chain[i - 1]);
        }
        assert forall|i: int| #![trigger prefix[i]] 0 <= i < prefix.len() implies {
            &&& prefix[i] < s.len()
            &&& s.nodes()[prefix[i] as int].relative is Some
        } by {
            assert(prefix[i] == chain[i]);
        }
        lemma_absolute_is_chain_product(s, compose, f, identity, prefix);
        assert(s.parent_of(e) == Some(chain[k - 1]));
    }
    let rel = s.nodes()[e].relative->0;
    let abs = s.nodes()[e].absolute->0;
    assert(compose.ensures((&rel, &s.base_of(e, identity)), abs));
    assert(abs == f(rel, s.base_of(e, identity)));
    assert(chain_product(ts, f, identity) == f(rel, chain_product(ts.drop_last(), f, identity)));
}

/// The `i`-th entity of a chain from the root descends from the root.
proof fn lemma_chain_reachable<M: Copy>(s: &SceneStore<M>, chain: Seq<usize>, i: int)
    requires
        s.wf(),
        is_root_chain(s, chain),
        0 <= i < chain.len(),
    ensures
        s.descends_in(chain[i] as int, s.root_id() as int, (i + 1) as nat),
        s.reachable(chain[i] as int),
    decreases i,
{
    if i == 0 {
        assert(s.descends_in(s.root_id() as int, s.root_id() as int, 0));
    } else {
        lemma_chain_reachable(s, chain, i - 1);
    }
    assert(s.descends_in(chain[i] as int, s.root_id() as int, (i + 1) as nat));
}

impl<M: Copy> SceneStore<M> {
    /// What the absolute transform of `e` is computed from: the parent's
    /// absolute transform, or `identity` where the parent has none.
    pub open spec fn base_of(&self, e: int, identity: M) -> M {
        match self.parent_of(e) {
            Some(p) => match self.nodes()[p as int].absolute {
                Some(a) => a,
                None => identity,
            },
            None => identity,
        }
    }

    /// The absolute transforms of the reachable entities agree with the
    /// relative ones: a reachable entity has one exactly when it has a
    /// relative transform, and it is what `compose` gives for the relative
    /// transform and the base.
    pub open spec fn propagated<F: Fn(&M, &M) -> M>(&self, compose: F, identity: M) -> bool {
        forall|e: int| #![trigger self.nodes()[e]]
            0 <= e < self.len() && self.reachable(e) ==> {
                &&& (self.nodes()[e].absolute is Some <==> self.nodes()[e].relative is Some)
                &&& self.nodes()[e].absolute is Some ==> compose.ensures(
                    (&self.nodes()[e].relative->0, &self.base_of(e, identity)),
                    self.nodes()[e].absolute->0,
                )
            }
    }

    /// Only the absolute transforms of `t` may differ from those of `self`.
    pub open spec fn same_but_absolute(&self, t: &SceneStore<M>) -> bool {
        &&& t.len() == self.len()
        &&& t.kids() == self.kids()
        &&& t.root_id() == self.root_id()
        &&& forall|e: int| #![trigger t.nodes()[e]]
            0 <= e < self.len() ==> t.nodes()[e] == Node { absolute: t.nodes()[e].absolute, ..self.nodes()[e] }
    }

    /// The scene root is never reachable from itself.
    pub proof fn lemma_root_unreachable(&self)
        requires
            self.wf(),
        ensures
            !self.reachable(self.root_id() as int),
    {
        assert forall|k: nat| k > 0 implies !#[trigger] self.descends_in(self.root_id() as int, self.root_id() as int, k) by {
        }
    }

    /// Recomputes the absolute transforms of the entities that the scene root
    /// reaches, parents first: `absolute = compose(relative, parent's
    /// absolute)`, with `identity` where the parent has no absolute transform;
    /// a reached entity without a relative transform is left without one.
    /// Entities that the root does not reach are not visited.
    pub fn propagate_transforms<F: Fn(&M, &M) -> M>(&mut self, identity: &M, compose: F)
        requires
            old(self).wf(),
            forall|a: &M, b: &M| #[trigger] compose.requires((a, b)),
        ensures
            final(self).wf(),
            old(self).same_but_absolute(final(self)),
            final(self).propagated(compose, *identity),
            forall|e: int| #![trigger final(self).nodes()[e]]
                0 <= e < final(self).len() && !final(self).reachable(e)
                    ==> final(self).nodes()[e].absolute == old(self).nodes()[e].absolute,
    {
        let ghost start = *self;
        let root = self.root();
        let order = self.descendants_of(root);
        let mut j: usize = 0;
        while j < order.len()
            invariant
                self.wf(),
                root == self.root_id(),
                j <= order@.len(),
                start.same_but_absolute(self),
                order@.no_duplicates(),
                forall|i: int| 0 <= i < order@.len() ==> order@[i] < self.len() && order@[i] != root,
                start.parents_first(order@, root),
                forall|x: int| 0 <= x < self.len() ==> #[trigger] self.parent_of(x) == start.parent_of(x),
                forall|x: int| #![trigger self.nodes()[x]] 0 <= x < self.len() && !order@.subrange(0, j as int).contains(x as usize)
                    ==> self.nodes()[x].absolute == start.nodes()[x].absolute,
                forall|x: int| #![trigger self.nodes()[x]] 0 <= x < self.len() && order@.subrange(0, j as int).contains(x as usize) ==> {
                    &&& (self.nodes()[x].absolute is Some <==> self.nodes()[x].relative is Some)
                    &&& self.nodes()[x].absolute is Some ==> compose.ensures(
                        (&self.nodes()[x].relative->0, &self.base_of(x, *identity)),
                        self.nodes()[x].absolute->0,
                    )
                },
                forall|a: &M, b: &M| #[trigger] compose.requires((a, b)),
            decreases order@.len() - j,
        {
            let x = order[j];
            let node = self.node(x);
            let ghost before = *self;
            let ghost pre = order@.subrange(0, j as int);
            let ghost post = order@.subrange(0, j + 1);
            assert(post == pre.push(x));
            // The parent of `x` is the root or an earlier entity of `order`,
            // and no earlier entity has `x` as its parent.
            assert(forall|i: int| 0 <= i < j ==> #[trigger] self.parent_of(order@[i] as int) != Some(x)) by {
                assert forall|i: int| 0 <= i < j implies #[trigger] self.parent_of(order@[i] as int) != Some(x) by {
                    if start.parent_of(order@[i] as int) != Some(root) {
                        let i2 = choose|i2: int| 0 <= i2 < i && start.parent_of(order@[i] as int) == Some(order@[i2]);
                        assert(order@[i2] != order@[j as int]);
                    }
                }
            };
            assert(self.parent_of(x as int) != Some(x)) by {
                if start.parent_of(x as int) != Some(root) {
                    let i2 = choose|i2: int| 0 <= i2 < j && start.parent_of(order@[j as int] as int) == Some(order@[i2]);
                    assert(order@[i2] != order@[j as int]);
                }
            };
            let absolute = match node.relative {
                Some(rel) => {
                    let base = match node.parent {
                        Some(p) => match self.node(p).absolute {
                            Some(a) => a,
                            None => *identity,
                        },
                        None => *identity,
                    };
                    Some(compose(&rel, &base))
                },
                None => None,
            };
            self.put_absolute(x, absolute);
            assert forall|y: int| #![trigger self.nodes()[y]] 0 <= y < self.len() && !post.contains(y as usize)
                implies self.nodes()[y].absolute == start.nodes()[y].absolute by {
                assert(post[j as int] == x);
                if pre.contains(y as usize) {
                    let k = choose|k: int| 0 <= k < pre.len() && pre[k] == y as usize;
                    assert(post[k] == y as usize);
                }
                assert(before.nodes()[y] == self.nodes()[y]);
            }
            assert forall|y: int| #![trigger self.nodes()[y]] 0 <= y < self.len() && post.contains(y as usize) implies {
                &&& (self.nodes()[y].absolute is Some <==> self.nodes()[y].relative is Some)
                &&& self.nodes()[y].absolute is Some ==> compose.ensures(
                    (&self.nodes()[y].relative->0, &self.base_of(y, *identity)),
                    self.nodes()[y].absolute->0,
                )
            } by {
                if y != x {
                    let k = choose|k: int| 0 <= k < post.len() && post[k] == y as usize;
                    assert(k != j);
                    assert(pre[k] == y as usize);
                    assert(order@[k] == y as usize);
                    assert(before.nodes()[y] == self.nodes()[y]);
                    assert(self.parent_of(y) != Some(x));
                    match self.parent_of(y) {
                        Some(p) => {
                            assert(before.nodes()[p as int] == self.nodes()[p as int]);
                        },
                        None => {},
                    }
                } else {
                    if node.parent is Some {
                        let p = node.parent->0;
                        assert(before.nodes()[p as int] == self.nodes()[p as int]);
                    }
                }
            }
            j = j + 1;
        }
        assert(order@.subrange(0, order@.len() as int) == order@);
        proof {
            start.lemma_root_unreachable();
        }
        assert forall|e: int| #![trigger self.nodes()[e]]
            0 <= e < self.len() implies (self.reachable(e) <==> order@.contains(e as usize)) by {
            self.lemma_descends_same(&start, e, root as int);
        }
    }

    /// The render data of this frame: one row for every reachable entity that
    /// has both an absolute transform and a model, in traversal order.
    pub fn extract_render_data(&self) -> (rows: Vec<RenderRow<M>>)
        requires
            self.wf(),
        ensures
            forall|i: int| #![trigger rows@[i]] 0 <= i < rows@.len() ==> {
                &&& rows@[i].entity < self.len()
                &&& self.reachable(rows@[i].entity as int)
                &&& self.nodes()[rows@[i].entity as int].absolute == Some(rows@[i].transform)
                &&& self.nodes()[rows@[i].entity as int].model == Some(rows@[i].model)
            },
            forall|i: int, j: int| 0 <= i < j < rows@.len() ==> rows@[i].entity != rows@[j].entity,
            forall|e: int| #![trigger self.nodes()[e]]
                0 <= e < self.len() && self.reachable(e) && self.nodes()[e].absolute is Some
                    && self.nodes()[e].model is Some ==> exists|i: int| 0 <= i < rows@.len() && rows@[i].entity == e,
    {
        let root = self.root();
        let order = self.descendants_of(root);
        let mut rows: Vec<RenderRow<M>> = Vec::new();
        let mut j: usize = 0;
        while j < order.len()
            invariant
                self.wf(),
                root == self.root_id(),
                j <= order@.len(),
                order@.no_duplicates(),
                forall|i: int| 0 <= i < order@.len() ==> order@[i] < self.len() && order@[i] != root,
                forall|x: int| 0 <= x < self.len() ==> (
                    (x != root && self.descends(x, root as int)) <==> order@.contains(x as usize)),
                forall|i: int| #![trigger rows@[i]] 0 <= i < rows@.len() ==> {
                    &&& rows@[i].entity < self.len()
                    &&& self.reachable(rows@[i].entity as int)
                    &&& self.nodes()[rows@[i].entity as int].absolute == Some(rows@[i].transform)
                    &&& self.nodes()[rows@[i].entity as int].model == Some(rows@[i].model)
                    &&& exists|k: int| 0 <= k < j && order@[k] == rows@[i].entity
                },
                forall|a: int, b: int| 0 <= a < b < rows@.len() ==> rows@[a].entity != rows@[b].entity,
                forall|k: int| 0 <= k < j && self.nodes()[order@[k] as int].absolute is Some
                    && self.nodes()[order@[k] as int].model is Some
                    ==> exists|i: int| 0 <= i < rows@.len() && rows@[i].entity == #[trigger] order@[k],
            decreases order@.len() - j,
        {
            let e = order[j];
            let node = self.node(e);
            assert(order@.contains(e));
            match (node.absolute, node.model) {
                (Some(transform), Some(model)) => {
                    let ghost before = rows@;
                    rows.push(RenderRow { entity: e, transform, model });
                    assert forall|a: int, b: int| 0 <= a < b < rows@.len() implies rows@[a].entity != rows@[b].entity by {
                        if b == before.len() {
                            assert(rows@[a] == before[a]);
                            let k = choose|k: int| 0 <= k < j && order@[k] == before[a].entity;
                            assert(order@[k] != order@[j as int]);
                        } else {
                            assert(rows@[a] == before[a] && rows@[b] == before[b]);
                        }
                    }
                    assert forall|k: int| 0 <= k < j + 1 && self.nodes()[order@[k] as int].absolute is Some
                        && self.nodes()[order@[k] as int].model is Some
                        implies exists|i: int| 0 <= i < rows@.len() && rows@[i].entity == #[trigger] order@[k] by {
                        if k == j {
                            assert(rows@[before.len() as int].entity == order@[k]);
                        } else {
                            let i = choose|i: int| 0 <= i < before.len() && before[i].entity == order@[k];
                            assert(rows@[i] == before[i]);
                        }
                    }
                    assert forall|i: int| #![trigger rows@[i]] 0 <= i < rows@.len() implies
                        exists|k: int| 0 <= k < j + 1 && order@[k] == rows@[i].entity by {
                        if i == before.len() {
                            assert(order@[j as int] == rows@[i].entity);
                        } else {
                            assert(rows@[i] == before[i]);
                        }
                    }
                },
                _ => {},
            }
            j = j + 1;
        }
        proof {
            assert forall|e: int| #![trigger self.nodes()[e]]
                0 <= e < self.len() && self.reachable(e) && self.nodes()[e].absolute is Some
                    && self.nodes()[e].model is Some implies exists|i: int| 0 <= i < rows@.len() && rows@[i].entity == e by {
                self.lemma_root_unreachable();
                assert(order@.contains(e as usize));
                let k = choose|k: int| 0 <= k < order@.len() && order@[k] == e as usize;
                assert(self.nodes()[order@[k] as int] == self.nodes()[e]);
            }
        }
        rows
    }

    /// Descent is the same in stores whose parent links agree.
    pub proof fn lemma_descends_same(&self, other: &SceneStore<M>, x: int, a: int)
        requires
            self.len() == other.len(),
            forall|y: int| 0 <= y < self.len() ==> #[trigger] self.parent_of(y) == other.parent_of(y),
        ensures
            self.descends(x, a) == other.descends(x, a),
    {
        if self.descends(x, a) {
            let k = choose|k: nat| k > 0 && #[trigger] self.descends_in(x, a, k);
            self.lemma_descends_in_same(other, x, a, k);
        }
        if other.descends(x, a) {
            let k = choose|k: nat| k > 0 && #[trigger] other.descends_in(x, a, k);
            self.lemma_descends_in_same(other, x, a, k);
        }
    }

    /// Parent chains are the same in stores whose parent links agree.
    pub proof fn lemma_descends_in_same(&self, other: &SceneStore<M>, x: int, a: int, k: nat)
        requires
            self.len() == other.len(),
            forall|y: int| 0 <= y < self.len() ==> #[trigger] self.parent_of(y) == other.parent_of(y),
        ensures
            self.descends_in(x, a, k) == other.descends_in(x, a, k),
        decreases k,
    {
        if k > 0 && 0 <= x < self.len() && self.parent_of(x) is Some {
            assert(self.parent_of(x) == other.parent_of(x));
            self.lemma_descends_in_same(other, self.parent_of(x)->0 as int, a, (k - 1) as nat);
        }
    }
}

} // verus!
