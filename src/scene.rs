use vstd::prelude::*;

verus! {

/// A reference to a model in the model table of one guest container.
#[derive(Clone, Copy, Debug, PartialEq, Eq, Structural)]
pub struct ModelRef {
    /// The container that owns the model table.
    pub owner: usize,
    /// The position of the model in that table.
    pub index: usize,
}

/// The components of one entity.
#[derive(Clone, Copy, Debug)]
pub struct Node<M> {
    /// The parent link, if any.
    pub parent: Option<usize>,
    /// The pose relative to the parent.
    pub relative: Option<M>,
    /// The derived world pose; recomputed by transform propagation.
    pub absolute: Option<M>,
    /// The model drawn at this entity.
    pub model: Option<ModelRef>,
    /// Whether the entity still exists; destroyed ids are never reused.
    pub alive: bool,
}

impl<M> Node<M> {
    /// A new entity with no components.
    pub open spec fn bare() -> Node<M> {
        Node { parent: None, relative: None, absolute: None, model: None, alive: true }
    }

    /// What a destroyed entity is left as.
    pub open spec fn dead() -> Node<M> {
        Node { parent: None, relative: None, absolute: None, model: None, alive: false }
    }
}

/// The authoritative store of entities and their components.
///
/// An entity is an index into the store; the scene root is created with the
/// store, never gets a parent and never gets an absolute transform.
pub struct SceneStore<M> {
    nodes: Vec<Node<M>>,
    children: Vec<Vec<usize>>,
    root: usize,
    doomed: Vec<usize>,
}

impl<M: Copy> SceneStore<M> {
    /// The components of every entity, by entity id.
    pub closed spec fn nodes(&self) -> Seq<Node<M>> {
        self.nodes@
    }

    /// The children index: the children of each entity, in order of attachment.
    pub closed spec fn kids(&self) -> Seq<Seq<usize>> {
        Seq::new(self.children@.len(), |p: int| self.children@[p]@)
    }

    /// The scene root.
    pub closed spec fn root_id(&self) -> usize {
        self.root
    }

    /// The entities whose destruction was requested since the last maintenance.
    pub closed spec fn pending_destroy(&self) -> Seq<usize> {
        self.doomed@
    }

    /// `e` names an entity that has not been destroyed.
    pub open spec fn is_live(&self, e: int) -> bool {
        0 <= e < self.len() && self.nodes()[e].alive
    }

    pub open spec fn len(&self) -> nat {
        self.nodes().len()
    }

    pub open spec fn parent_of(&self, e: int) -> Option<usize> {
        self.nodes()[e].parent
    }

    /// The store's invariant: the children index agrees with the parent links.
    pub open spec fn wf(&self) -> bool {
        &&& self.kids().len() == self.len()
        &&& self.len() <= usize::MAX
        &&& self.root_id() < self.len()
        &&& self.parent_of(self.root_id() as int) is None
        &&& self.nodes()[self.root_id() as int].alive
        &&& self.nodes()[self.root_id() as int].absolute is None
        &&& forall|i: int| #![trigger self.pending_destroy()[i]]
            0 <= i < self.pending_destroy().len() ==> self.pending_destroy()[i] < self.len()
                && self.pending_destroy()[i] != self.root_id()
        &&& forall|c: int| #![trigger self.parent_of(c)]
            0 <= c < self.len() && self.parent_of(c) is Some ==> {
                &&& self.parent_of(c)->0 < self.len()
                &&& self.kids()[self.parent_of(c)->0 as int].contains(c as usize)
            }
        &&& forall|p: int, i: int| #![trigger self.kids()[p][i]]
            0 <= p < self.len() && 0 <= i < self.kids()[p].len() ==> {
                &&& self.kids()[p][i] < self.len()
                &&& self.parent_of(self.kids()[p][i] as int) == Some(p as usize)
            }
        &&& forall|p: int| #![trigger self.kids()[p]]
            0 <= p < self.len() ==> self.kids()[p].no_duplicates()
    }

    /// A store that holds only the scene root.
    pub fn new() -> (s: Self)
        ensures
            s.wf(),
            s.len() == 1,
            s.root_id() == 0,
            s.nodes()[0] == Node::<M>::bare(),
            s.pending_destroy().len() == 0,
    {
        let mut nodes: Vec<Node<M>> = Vec::new();
        nodes.push(Node { parent: None, relative: None, absolute: None, model: None, alive: true });
        let mut children: Vec<Vec<usize>> = Vec::new();
        children.push(Vec::new());
        let s = SceneStore { nodes, children, root: 0, doomed: Vec::new() };
        assert(s.kids()[0] =~= Seq::<usize>::empty());
        s
    }

    /// The scene root.
    pub fn root(&self) -> (r: usize)
        ensures
            r == self.root_id(),
    {
        self.root
    }

    /// The number of entities.
    pub fn entity_count(&self) -> (r: usize)
        ensures
            r == self.len(),
    {
        self.nodes.len()
    }

    /// Whether `e` names an entity of this store that has not been destroyed.
    pub fn is_alive(&self, e: usize) -> (r: bool)
        ensures
            r == self.is_live(e as int),
    {
        e < self.nodes.len() && self.nodes[e].alive
    }

    /// The components of entity `e`.
    pub fn node(&self, e: usize) -> (r: Node<M>)
        requires
            e < self.len(),
        ensures
            r == self.nodes()[e as int],
    {
        self.nodes[e]
    }

    /// The children of entity `e`, in order of attachment.
    pub fn children_of(&self, e: usize) -> (r: &Vec<usize>)
        requires
            self.wf(),
            e < self.len(),
        ensures
            r@ == self.kids()[e as int],
    {
        &self.children[e]
    }

    /// Allocates a bare entity with no components.
    pub fn create_entity(&mut self) -> (e: usize)
        requires
            old(self).wf(),
            old(self).len() < usize::MAX,
        ensures
            final(self).wf(),
            e == old(self).len(),
            final(self).nodes() == old(self).nodes().push(Node::<M>::bare()),
            final(self).kids() == old(self).kids().push(Seq::<usize>::empty()),
            final(self).root_id() == old(self).root_id(),
            final(self).pending_destroy() == old(self).pending_destroy(),
    {
        let e = self.nodes.len();
        self.nodes.push(Node { parent: None, relative: None, absolute: None, model: None, alive: true });
        self.children.push(Vec::new());
        assert(self.kids() =~= old(self).kids().push(Seq::<usize>::empty()));
        assert forall|p: int, i: int| #![trigger self.kids()[p][i]]
            0 <= p < self.len() && 0 <= i < self.kids()[p].len() implies {
                &&& self.kids()[p][i] < self.len()
                &&& self.parent_of(self.kids()[p][i] as int) == Some(p as usize)
            } by {
            assert(p < e);
            assert(old(self).kids()[p][i] == self.kids()[p][i]);
        }
        assert forall|c: int| #![trigger self.parent_of(c)]
            0 <= c < self.len() && self.parent_of(c) is Some implies {
                &&& self.parent_of(c)->0 < self.len()
                &&& self.kids()[self.parent_of(c)->0 as int].contains(c as usize)
            } by {
            assert(c < e);
            assert(old(self).parent_of(c) == self.parent_of(c));
        }
        assert forall|p: int| #![trigger self.kids()[p]]
            0 <= p < self.len() implies self.kids()[p].no_duplicates() by {
            if p < e {
                assert(old(self).kids()[p] == self.kids()[p]);
            }
        }
        assert forall|i: int| #![trigger self.pending_destroy()[i]]
            0 <= i < self.pending_destroy().len() implies self.pending_destroy()[i] < self.len() by {
            assert(old(self).pending_destroy()[i] < old(self).len());
        }
        e
    }

    /// Sets the parent link of `e` (detaching it when `parent` is `None`) and
    /// returns the previous parent. The children index follows.
    pub fn set_parent(&mut self, e: usize, parent: Option<usize>) -> (prev: Option<usize>)
        requires
            old(self).wf(),
            e < old(self).len(),
            e != old(self).root_id(),
            parent matches Some(p) ==> p < old(self).len(),
        ensures
            final(self).wf(),
            prev == old(self).parent_of(e as int),
            final(self).nodes() == old(self).nodes().update(
                e as int,
                Node { parent, ..old(self).nodes()[e as int] },
            ),
            final(self).root_id() == old(self).root_id(),
            final(self).pending_destroy() == old(self).pending_destroy(),
    {
        let prev = self.nodes[e].parent;
        if let Some(q) = prev {
            self.detach_from(q, e);
        }
        let ghost mid = *self;
        assert(forall|p: int| #![trigger mid.kids()[p]]
            0 <= p < mid.len() ==> mid.kids()[p].no_duplicates() && !mid.kids()[p].contains(e)) by {
            if prev is None {
                assert forall|p: int| #![trigger mid.kids()[p]] 0 <= p < mid.len()
                    implies !mid.kids()[p].contains(e) by {
                    if mid.kids()[p].contains(e) {
                        let k = choose|k: int| 0 <= k < mid.kids()[p].len() && mid.kids()[p][k] == e;
                        assert(old(self).parent_of(old(self).kids()[p][k] as int) == Some(p as usize));
                    }
                }
            }
        }
        assert(forall|c: int| #![trigger mid.parent_of(c)]
            0 <= c < mid.len() && c != e && mid.parent_of(c) is Some
                ==> mid.kids()[mid.parent_of(c)->0 as int].contains(c as usize)) by {
            assert forall|c: int| #![trigger mid.parent_of(c)]
                0 <= c < mid.len() && c != e && mid.parent_of(c) is Some
                    implies mid.kids()[mid.parent_of(c)->0 as int].contains(c as usize) by {
                assert(old(self).parent_of(c) == mid.parent_of(c));
            }
        }
        assert(forall|p: int, i: int| #![trigger mid.kids()[p][i]]
            0 <= p < mid.len() && 0 <= i < mid.kids()[p].len() ==> {
                &&& mid.kids()[p][i] < mid.len()
                &&& mid.parent_of(mid.kids()[p][i] as int) == Some(p as usize)
                &&& mid.kids()[p][i] != e
            }) by {
            assert forall|p: int, i: int| #![trigger mid.kids()[p][i]]
                0 <= p < mid.len() && 0 <= i < mid.kids()[p].len() implies {
                    &&& mid.kids()[p][i] < mid.len()
                    &&& mid.parent_of(mid.kids()[p][i] as int) == Some(p as usize)
                    &&& mid.kids()[p][i] != e
                } by {
                assert(mid.kids()[p].contains(mid.kids()[p][i]));
            }
        }
        if let Some(p) = parent {
            self.children[p].push(e);
            assert(self.kids()[p as int] =~= mid.kids()[p as int].push(e));
            assert(forall|q: int| 0 <= q < self.len() && q != p ==> #[trigger] self.kids()[q] == mid.kids()[q]);
        }
        self.nodes[e].parent = parent;
        assert(self.pending_destroy() == old(self).pending_destroy());
        assert(self.nodes()[self.root_id() as int].alive);
        assert(self.nodes()[self.root_id() as int].absolute is None);
        assert(self.nodes() == old(self).nodes().update(
            e as int,
            Node { parent, ..old(self).nodes()[e as int] },
        ));
        assert forall|c: int| #![trigger self.parent_of(c)]
            0 <= c < self.len() && self.parent_of(c) is Some implies {
                &&& self.parent_of(c)->0 < self.len()
                &&& self.kids()[self.parent_of(c)->0 as int].contains(c as usize)
            } by {
            if c != e {
                let q = self.parent_of(c)->0 as int;
                assert(mid.parent_of(c) == self.parent_of(c));
                assert(mid.kids()[q].contains(c as usize));
                if parent == Some(q as usize) {
                    let k = choose|k: int| 0 <= k < mid.kids()[q].len() && mid.kids()[q][k] == c as usize;
                    assert(self.kids()[q][k] == c as usize);
                }
            } else {
                assert(self.kids()[parent->0 as int].last() == e);
            }
        }
        assert forall|p: int, i: int| #![trigger self.kids()[p][i]]
            0 <= p < self.len() && 0 <= i < self.kids()[p].len() implies {
                &&& self.kids()[p][i] < self.len()
                &&& self.parent_of(self.kids()[p][i] as int) == Some(p as usize)
            } by {
            if parent == Some(p as usize) && i == self.kids()[p].len() - 1 {
            } else {
                assert(self.kids()[p][i] == mid.kids()[p][i]);
            }
        }
        assert forall|p: int| #![trigger self.kids()[p]]
            0 <= p < self.len() implies self.kids()[p].no_duplicates() by {
            if parent == Some(p as usize) {
                assert(self.kids()[p] =~= mid.kids()[p].push(e));
                assert(mid.kids()[p].no_duplicates());
                assert(!mid.kids()[p].contains(e));
            } else {
                assert(self.kids()[p] == mid.kids()[p]);
            }
        }
        prev
    }

    /// Sets (or, with `None`, removes) the relative transform of `e` and
    /// returns the previous one.
    pub fn set_relative(&mut self, e: usize, relative: Option<M>) -> (prev: Option<M>)
        requires
            old(self).wf(),
            e < old(self).len(),
        ensures
            final(self).wf(),
            prev == old(self).nodes()[e as int].relative,
            final(self).nodes() == old(self).nodes().update(
                e as int,
                Node { relative, ..old(self).nodes()[e as int] },
            ),
            final(self).kids() == old(self).kids(),
            final(self).root_id() == old(self).root_id(),
            final(self).pending_destroy() == old(self).pending_destroy(),
    {
        let prev = self.nodes[e].relative;
        self.nodes[e].relative = relative;
        assert(self.kids() =~= old(self).kids());
        assert(self.pending_destroy() == old(self).pending_destroy());
        assert(self.nodes()[self.root_id() as int].alive);
        assert(self.nodes()[self.root_id() as int].absolute is None);
        assert(forall|c: int| 0 <= c < self.len() ==> #[trigger] self.parent_of(c) == old(self).parent_of(c));
        prev
    }

    /// Sets (or, with `None`, removes) the model of `e` and returns the
    /// previous one.
    pub fn set_model(&mut self, e: usize, model: Option<ModelRef>) -> (prev: Option<ModelRef>)
        requires
            old(self).wf(),
            e < old(self).len(),
        ensures
            final(self).wf(),
            prev == old(self).nodes()[e as int].model,
            final(self).nodes() == old(self).nodes().update(
                e as int,
                Node { model, ..old(self).nodes()[e as int] },
            ),
            final(self).kids() == old(self).kids(),
            final(self).root_id() == old(self).root_id(),
            final(self).pending_destroy() == old(self).pending_destroy(),
    {
        let prev = self.nodes[e].model;
        self.nodes[e].model = model;
        assert(self.kids() =~= old(self).kids());
        assert(self.pending_destroy() == old(self).pending_destroy());
        assert(self.nodes()[self.root_id() as int].alive);
        assert(self.nodes()[self.root_id() as int].absolute is None);
        assert(forall|c: int| 0 <= c < self.len() ==> #[trigger] self.parent_of(c) == old(self).parent_of(c));
        prev
    }

    /// Asks for `e` to be destroyed at the next [`SceneStore::maintain`];
    /// until then it stays as it is.
    pub fn request_destroy(&mut self, e: usize)
        requires
            old(self).wf(),
            e < old(self).len(),
            e != old(self).root_id(),
        ensures
            final(self).wf(),
            final(self).nodes() == old(self).nodes(),
            final(self).kids() == old(self).kids(),
            final(self).root_id() == old(self).root_id(),
            final(self).pending_destroy() == old(self).pending_destroy().push(e),
    {
        self.doomed.push(e);
        assert(self.kids() == old(self).kids());
        assert(forall|c: int| 0 <= c < self.len() ==> #[trigger] self.parent_of(c) == old(self).parent_of(c));
        assert forall|i: int| #![trigger self.pending_destroy()[i]]
            0 <= i < self.pending_destroy().len() implies self.pending_destroy()[i] < self.len()
                && self.pending_destroy()[i] != self.root_id() by {
            if i < old(self).pending_destroy().len() {
                assert(self.pending_destroy()[i] == old(self).pending_destroy()[i]);
            }
        }
    }

    /// Destroys every entity whose destruction was requested: it loses its
    /// parent link and all its components and no longer counts as alive.
    /// Its children keep their link to it and so drop out of the scene.
    pub fn maintain(&mut self)
        requires
            old(self).wf(),
        ensures
            final(self).wf(),
            final(self).root_id() == old(self).root_id(),
            final(self).pending_destroy().len() == 0,
            final(self).len() == old(self).len(),
            forall|e: int| #![trigger final(self).nodes()[e]] 0 <= e < old(self).len() ==> final(self).nodes()[e] == if old(
                self,
            ).pending_destroy().contains(e as usize) {
                Node::<M>::dead()
            } else {
                old(self).nodes()[e]
            },
    {
        let mut doomed: Vec<usize> = Vec::new();
        std::mem::swap(&mut doomed, &mut self.doomed);
        assert(self.kids() == old(self).kids());
        assert(forall|c: int| 0 <= c < self.len() ==> #[trigger] self.parent_of(c) == old(self).parent_of(c));
        assert forall|k: int| 0 <= k < doomed@.len() implies doomed@[k] < self.len() && doomed@[k] != self.root_id() by {
            assert(old(self).pending_destroy()[k] == doomed@[k]);
        }
        let mut i: usize = 0;
        while i < doomed.len()
            invariant
                self.wf(),
                self.len() == old(self).len(),
                self.root_id() == old(self).root_id(),
                self.pending_destroy().len() == 0,
                doomed@ == old(self).pending_destroy(),
                i <= doomed@.len(),
                forall|k: int| 0 <= k < doomed@.len() ==> doomed@[k] < self.len() && doomed@[k] != self.root_id(),
                forall|e: int| #![trigger self.nodes()[e]] 0 <= e < self.len() ==> self.nodes()[e] == if doomed@.subrange(0, i as int).contains(e as usize) {
                    Node::<M>::dead()
                } else {
                    old(self).nodes()[e]
                },
            decreases doomed@.len() - i,
        {
            let e = doomed[i];
            let ghost pre = doomed@.subrange(0, i as int);
            let ghost post = doomed@.subrange(0, i + 1);
            assert(post == pre.push(e));
            self.set_parent(e, None);
            self.set_relative(e, None);
            self.set_model(e, None);
            self.put_absolute(e, None);
            let ghost cleared = *self;
            self.nodes[e].alive = false;
            assert(self.kids() =~= cleared.kids());
            assert(forall|c: int| 0 <= c < self.len() ==> #[trigger] self.parent_of(c) == cleared.parent_of(c));
            assert(self.pending_destroy() == cleared.pending_destroy());
            assert(self.nodes()[self.root_id() as int] == cleared.nodes()[self.root_id() as int]);
            assert forall|x: int| #![trigger self.nodes()[x]] 0 <= x < self.len() implies self.nodes()[x] == if post.contains(x as usize) {
                Node::<M>::dead()
            } else {
                old(self).nodes()[x]
            } by {
                if x != e {
                    if post.contains(x as usize) {
                        let k = choose|k: int| 0 <= k < post.len() && post[k] == x as usize;
                        assert(pre[k] == x as usize);
                    }
                    if pre.contains(x as usize) {
                        let k = choose|k: int| 0 <= k < pre.len() && pre[k] == x as usize;
                        assert(post[k] == x as usize);
                    }
                } else {
                    assert(post[i as int] == e);
                }
            }
            i = i + 1;
        }
        assert(doomed@.subrange(0, doomed@.len() as int) == doomed@);
    }

    /// Replaces the derived absolute transform of `e`.
    pub(crate) fn put_absolute(&mut self, e: usize, absolute: Option<M>)
        requires
            old(self).wf(),
            e < old(self).len(),
            e != old(self).root_id(),
        ensures
            final(self).wf(),
            final(self).nodes() == old(self).nodes().update(
                e as int,
                Node { absolute, ..old(self).nodes()[e as int] },
            ),
            final(self).kids() == old(self).kids(),
            final(self).root_id() == old(self).root_id(),
            final(self).pending_destroy() == old(self).pending_destroy(),
    {
        self.nodes[e].absolute = absolute;
        assert(self.kids() =~= old(self).kids());
        assert(self.pending_destroy() == old(self).pending_destroy());
        assert(self.nodes()[self.root_id() as int].alive);
        assert(self.nodes()[self.root_id() as int].absolute is None);
        assert(forall|c: int| 0 <= c < self.len() ==> #[trigger] self.parent_of(c) == old(self).parent_of(c));
    }

    /// Removes `e` from the children of `q`, where `q` is the parent of `e`.
    /// Afterwards `e` is listed as nobody's child; all else is kept.
    fn detach_from(&mut self, q: usize, e: usize)
        requires
            old(self).wf(),
            e < old(self).len(),
            old(self).parent_of(e as int) == Some(q),
        ensures
            final(self).nodes() == old(self).nodes(),
            final(self).root_id() == old(self).root_id(),
            final(self).pending_destroy() == old(self).pending_destroy(),
            final(self).kids().len() == old(self).kids().len(),
            forall|p: int| #![trigger final(self).kids()[p]]
                0 <= p < old(self).len() && p != q ==> final(self).kids()[p] == old(self).kids()[p],
            forall|p: int| 0 <= p < old(self).len() ==> !(#[trigger] final(self).kids()[p]).contains(e),
            forall|p: int| #![trigger final(self).kids()[p]]
                0 <= p < old(self).len() ==> final(self).kids()[p].no_duplicates(),
            forall|p: int, i: int| #![trigger final(self).kids()[p][i]]
                0 <= p < old(self).len() && 0 <= i < final(self).kids()[p].len() ==> {
                    &&& final(self).kids()[p][i] < old(self).len()
                    &&& old(self).parent_of(final(self).kids()[p][i] as int) == Some(p as usize)
                    &&& final(self).kids()[p][i] != e
                },
            forall|c: int| #![trigger old(self).parent_of(c)]
                0 <= c < old(self).len() && c != e && old(self).parent_of(c) is Some
                    ==> final(self).kids()[old(self).parent_of(c)->0 as int].contains(c as usize),
    {
        assert(self.kids()[q as int].contains(e));
        let pos = position_of(&self.children[q], e);
        let i = pos.unwrap();
        let ghost before = self.kids()[q as int];
        self.children[q].remove(i);
        assert(self.kids()[q as int] =~= before.remove(i as int));
        assert(forall|p: int| 0 <= p < self.len() && p != q ==> #[trigger] self.kids()[p] == old(self).kids()[p]);
        assert(before == old(self).kids()[q as int]);
        assert(before.no_duplicates());
        assert(before[i as int] == e);
        assert forall|p: int| 0 <= p < old(self).len() implies !(#[trigger] self.kids()[p]).contains(e) by {
            if p == q {
                if self.kids()[p].contains(e) {
                    let k = choose|k: int| 0 <= k < self.kids()[p].len() && self.kids()[p][k] == e;
                    if k < i {
                        assert(before[k] == e);
                    } else {
                        assert(before[k + 1] == e);
                    }
                }
            } else {
                if self.kids()[p].contains(e) {
                    let k = choose|k: int| 0 <= k < self.kids()[p].len() && self.kids()[p][k] == e;
                    assert(old(self).kids()[p][k] == e);
                }
            }
        }
        assert forall|p: int, j: int| #![trigger self.kids()[p][j]]
            0 <= p < old(self).len() && 0 <= j < self.kids()[p].len() implies {
                &&& self.kids()[p][j] < old(self).len()
                &&& old(self).parent_of(self.kids()[p][j] as int) == Some(p as usize)
                &&& self.kids()[p][j] != e
            } by {
            if p == q {
                if j < i {
                    assert(self.kids()[p][j] == old(self).kids()[p][j]);
                    assert(j != i);
                } else {
                    assert(self.kids()[p][j] == old(self).kids()[p][j + 1]);
                }
            } else {
                assert(self.kids()[p][j] == old(self).kids()[p][j]);
                assert(old(self).kids()[p].contains(e) == false) by {
                    if old(self).kids()[p].contains(e) {
                        let k = choose|k: int| 0 <= k < old(self).kids()[p].len() && old(self).kids()[p][k] == e;
                        assert(old(self).parent_of(old(self).kids()[p][k] as int) == Some(p as usize));
                    }
                }
                assert(old(self).kids()[p].contains(old(self).kids()[p][j]));
            }
        }
        assert forall|p: int| #![trigger self.kids()[p]]
            0 <= p < old(self).len() implies self.kids()[p].no_duplicates() by {
            if p == q {
                assert forall|a: int, b: int| 0 <= a < b < self.kids()[p].len()
                    implies self.kids()[p][a] != self.kids()[p][b] by {
                    let a2 = if a < i { a } else { a + 1 };
                    let b2 = if b < i { b } else { b + 1 };
                    assert(self.kids()[p][a] == before[a2]);
                    assert(self.kids()[p][b] == before[b2]);
                }
            }
        }
        assert forall|c: int| #![trigger old(self).parent_of(c)]
            0 <= c < old(self).len() && c != e && old(self).parent_of(c) is Some
                implies self.kids()[old(self).parent_of(c)->0 as int].contains(c as usize) by {
            let p = old(self).parent_of(c)->0 as int;
            assert(old(self).kids()[p].contains(c as usize));
            let k = choose|k: int| 0 <= k < old(self).kids()[p].len() && old(self).kids()[p][k] == c as usize;
            if p == q {
                if k < i {
                    assert(self.kids()[p][k] == c as usize);
                } else {
                    assert(k != i);
                    assert(self.kids()[p][k - 1] == c as usize);
                }
            } else {
                assert(self.kids()[p][k] == c as usize);
            }
        }
    }
}

/// The first position of `x` in `v`.
fn position_of(v: &Vec<usize>, x: usize) -> (r: Option<usize>)
    ensures
        match r {
            Some(i) => i < v@.len() && v@[i as int] == x,
            None => !v@.contains(x),
        },
{
    let mut i: usize = 0;
    while i < v.len()
        invariant
            i <= v@.len(),
            forall|j: int| 0 <= j < i ==> v@[j] != x,
        decreases v@.len() - i,
    {
        if v[i] == x {
            return Some(i);
        }
        i = i + 1;
    }
    None
}

} // verus!
