use vstd::prelude::*;
use crate::scene::{ModelRef, Node, SceneStore};

verus! {

/// A request from a guest application.
///
/// `M` is the transform type; `H` is a handle to a model that the renderer
/// has already loaded from the guest's asset bytes.
pub enum Command<M, H> {
    /// Appends a model to the guest's model table.
    ModelCreate { model: H },
    /// Asks for the guest's container root entity.
    EntityRootGet,
    /// Allocates a bare entity.
    EntityCreate,
    /// Sets or removes the parent link of an entity.
    EntityParentSet { entity: usize, parent_entity: Option<usize> },
    /// Sets or removes the model of an entity, by index in the guest's table.
    EntityModelSet { entity: usize, model: Option<usize> },
    /// Sets or removes the relative transform of an entity.
    EntityTransformSet { entity: usize, transform: Option<M> },
}

/// The answer to a [`Command`] that was applied.
#[derive(Debug)]
pub enum CommandResponse<M> {
    ModelCreate { model: usize },
    EntityRootGet { root_entity: usize },
    EntityCreate { entity: usize },
    EntityParentSet { previous_parent_entity: Option<usize> },
    EntityModelSet { previous_model: Option<usize> },
    EntityTransformSet { previous_transform: Option<M> },
}

/// Why a [`Command`] was refused; a refused command changes nothing.
#[derive(Clone, Copy, Debug, PartialEq, Eq, Structural)]
pub enum CommandError {
    /// The id names no live entity of the scene.
    NoSuchEntity { entity: usize },
    /// The index names no model of the guest's table.
    NoSuchModel { model: usize },
    /// The scene root's parent link cannot be changed.
    SceneRoot,
    /// The scene holds as many entities as ids can name.
    SceneFull,
}

/// The host-side state of one guest application: its id, its container root
/// entity and its private model table.
pub struct MappContainer<H> {
    id: usize,
    root_entity: usize,
    models: Vec<H>,
}

impl<H> MappContainer<H> {
    pub closed spec fn id_spec(&self) -> usize {
        self.id
    }

    pub closed spec fn root_spec(&self) -> usize {
        self.root_entity
    }

    pub closed spec fn models_spec(&self) -> Seq<H> {
        self.models@
    }

    /// The container's id, which its models are tagged with in the scene.
    pub fn id(&self) -> (r: usize)
        ensures
            r == self.id_spec(),
    {
        self.id
    }

    /// The container root entity.
    pub fn root_entity(&self) -> (r: usize)
        ensures
            r == self.root_spec(),
    {
        self.root_entity
    }

    /// The model table.
    pub fn models(&self) -> (r: &Vec<H>)
        ensures
            r@ == self.models_spec(),
    {
        &self.models
    }

    /// The node that a new container root starts as.
    pub open spec fn root_node<M>(scene_root: usize, identity: M) -> Node<M> {
        Node { parent: Some(scene_root), relative: Some(identity), absolute: None, model: None, alive: true }
    }

    /// `self` is what [`MappContainer::new`] made from `before`, leaving `after`.
    pub open spec fn created_on<M: Copy>(&self, before: &SceneStore<M>, after: &SceneStore<M>, identity: M) -> bool {
        &&& self.root_spec() == before.len()
        &&& after.nodes() == before.nodes().push(Self::root_node(before.root_id(), identity))
        &&& after.root_id() == before.root_id()
        &&& self.models_spec().len() == 0
    }

    /// A container with an empty model table and a new root entity, parented
    /// to the scene root, with `identity` as its relative transform.
    pub fn new<M: Copy>(id: usize, scene: &mut SceneStore<M>, identity: M) -> (c: Self)
        requires
            old(scene).wf(),
            old(scene).len() < usize::MAX,
        ensures
            final(scene).wf(),
            c.id_spec() == id,
            c.created_on(old(scene), final(scene), identity),
    {
        let root_entity = scene.create_entity();
        let scene_root = scene.root();
        scene.set_parent(root_entity, Some(scene_root));
        scene.set_relative(root_entity, Some(identity));
        assert(scene.nodes() =~= old(scene).nodes().push(Self::root_node(scene_root, identity)));
        MappContainer { id, root_entity, models: Vec::new() }
    }
    /// The index in this container's table of the model that `m` refers to,
    /// if it refers to one of them.
    pub open spec fn model_index_of(&self, m: Option<ModelRef>) -> Option<usize> {
        match m {
            Some(r) => if r.owner == self.id_spec() && r.index < self.models_spec().len() {
                Some(r.index)
            } else {
                None
            },
            None => None,
        }
    }

    /// The scene's reference to model `m` of this container.
    pub open spec fn model_ref_of(&self, m: Option<usize>) -> Option<ModelRef> {
        match m {
            Some(index) => Some(ModelRef { owner: self.id_spec(), index }),
            None => None,
        }
    }

    /// The answer to `command` against `scene`.
    pub open spec fn command_result<M: Copy>(&self, scene: &SceneStore<M>, command: Command<M, H>) -> Result<
        CommandResponse<M>,
        CommandError,
    > {
        match command {
            Command::ModelCreate { .. } => Ok(
                CommandResponse::ModelCreate { model: self.models_spec().len() as usize },
            ),
            Command::EntityRootGet => Ok(CommandResponse::EntityRootGet { root_entity: self.root_spec() }),
            Command::EntityCreate => if scene.len() < usize::MAX {
                Ok(CommandResponse::EntityCreate { entity: scene.len() as usize })
            } else {
                Err(CommandError::SceneFull)
            },
            Command::EntityParentSet { entity, parent_entity } => if !scene.is_live(entity as int) {
                Err(CommandError::NoSuchEntity { entity })
            } else if parent_entity is Some && !scene.is_live(parent_entity->0 as int) {
                Err(CommandError::NoSuchEntity { entity: parent_entity->0 })
            } else if entity == scene.root_id() {
                Err(CommandError::SceneRoot)
            } else {
                Ok(CommandResponse::EntityParentSet { previous_parent_entity: scene.parent_of(entity as int) })
            },
            Command::EntityModelSet { entity, model } => if !scene.is_live(entity as int) {
                Err(CommandError::NoSuchEntity { entity })
            } else if model is Some && model->0 >= self.models_spec().len() {
                Err(CommandError::NoSuchModel { model: model->0 })
            } else {
                Ok(CommandResponse::EntityModelSet {
                    previous_model: self.model_index_of(scene.nodes()[entity as int].model),
                })
            },
            Command::EntityTransformSet { entity, transform } => if !scene.is_live(entity as int) {
                Err(CommandError::NoSuchEntity { entity })
            } else {
                Ok(CommandResponse::EntityTransformSet {
                    previous_transform: scene.nodes()[entity as int].relative,
                })
            },
        }
    }

    /// The entities of `scene` once `command` is applied.
    pub open spec fn scene_after<M: Copy>(&self, scene: &SceneStore<M>, command: Command<M, H>) -> Seq<Node<M>> {
        if self.command_result(scene, command) is Err {
            scene.nodes()
        } else {
            match command {
                Command::EntityCreate => scene.nodes().push(Node::<M>::bare()),
                Command::EntityParentSet { entity, parent_entity } => scene.nodes().update(
                    entity as int,
                    Node { parent: parent_entity, ..scene.nodes()[entity as int] },
                ),
                Command::EntityModelSet { entity, model } => scene.nodes().update(
                    entity as int,
                    Node { model: self.model_ref_of(model), ..scene.nodes()[entity as int] },
                ),
                Command::EntityTransformSet { entity, transform } => scene.nodes().update(
                    entity as int,
                    Node { relative: transform, ..scene.nodes()[entity as int] },
                ),
                _ => scene.nodes(),
            }
        }
    }

    /// The model table once `command` is applied.
    pub open spec fn models_after<M>(&self, command: Command<M, H>) -> Seq<H> {
        match command {
            Command::ModelCreate { model } => self.models_spec().push(model),
            _ => self.models_spec(),
        }
    }

    /// Applies one guest command to the scene and answers it.
    pub fn process_command<M: Copy>(&mut self, scene: &mut SceneStore<M>, command: Command<M, H>) -> (r: Result<
        CommandResponse<M>,
        CommandError,
    >)
        requires
            old(scene).wf(),
        ensures
            final(scene).wf(),
            final(scene).root_id() == old(scene).root_id(),
            r == old(self).command_result(old(scene), command),
            final(scene).nodes() == old(self).scene_after(old(scene), command),
            final(self).models_spec() == old(self).models_after(command),
            final(self).id_spec() == old(self).id_spec(),
            final(self).root_spec() == old(self).root_spec(),
    {
        match command {
            Command::ModelCreate { model } => {
                let index = self.models.len();
                self.models.push(model);
                Ok(CommandResponse::ModelCreate { model: index })
            },
            Command::EntityRootGet => Ok(CommandResponse::EntityRootGet { root_entity: self.root_entity }),
            Command::EntityCreate => {
                if scene.entity_count() == usize::MAX {
                    return Err(CommandError::SceneFull);
                }
                let entity = scene.create_entity();
                Ok(CommandResponse::EntityCreate { entity })
            },
            Command::EntityParentSet { entity, parent_entity } => {
                if !scene.is_alive(entity) {
                    return Err(CommandError::NoSuchEntity { entity });
                }
                if let Some(p) = parent_entity {
                    if !scene.is_alive(p) {
                        return Err(CommandError::NoSuchEntity { entity: p });
                    }
                }
                if entity == scene.root() {
                    return Err(CommandError::SceneRoot);
                }
                let previous_parent_entity = scene.set_parent(entity, parent_entity);
                Ok(CommandResponse::EntityParentSet { previous_parent_entity })
            },
            Command::EntityModelSet { entity, model } => {
                if !scene.is_alive(entity) {
                    return Err(CommandError::NoSuchEntity { entity });
                }
                let model_ref = match model {
                    Some(index) => {
                        if index >= self.models.len() {
                            return Err(CommandError::NoSuchModel { model: index });
                        }
                        Some(ModelRef { owner: self.id, index })
                    },
                    None => None,
                };
                let previous = scene.set_model(entity, model_ref);
                let previous_model = match previous {
                    Some(r) => if r.owner == self.id && r.index < self.models.len() {
                        Some(r.index)
                    } else {
                        None
                    },
                    None => None,
                };
                Ok(CommandResponse::EntityModelSet { previous_model })
            },
            Command::EntityTransformSet { entity, transform } => {
                if !scene.is_alive(entity) {
                    return Err(CommandError::NoSuchEntity { entity });
                }
                let previous_transform = scene.set_relative(entity, transform);
                Ok(CommandResponse::EntityTransformSet { previous_transform })
            },
        }
    }
    /// Setting the relative transform of an entity to `t` and then removing
    /// it leaves the entity without one, and the removal reports `t` as the
    /// previous transform.
    pub proof fn lemma_transform_set_then_removed<M: Copy>(
        &self,
        s0: &SceneStore<M>,
        s1: &SceneStore<M>,
        entity: usize,
        t: M,
    )
        requires
            s0.wf(),
            s0.is_live(entity as int),
            s1.len() == s0.len(),
            s1.nodes() == self.scene_after(s0, Command::EntityTransformSet { entity, transform: Some(t) }),
        ensures
            self.command_result(s1, Command::EntityTransformSet { entity, transform: None }) == Ok::<
                CommandResponse<M>,
                CommandError,
            >(CommandResponse::EntityTransformSet { previous_transform: Some(t) }),
            self.scene_after(s1, Command::EntityTransformSet { entity, transform: None }) == s0.nodes().update(
                entity as int,
                Node { relative: None, ..s0.nodes()[entity as int] },
            ),
    {
        assert(self.scene_after(s1, Command::EntityTransformSet { entity, transform: None }) =~= s0.nodes().update(
            entity as int,
            Node { relative: None, ..s0.nodes()[entity as int] },
        ));
    }

    /// Model ids count up from 0 in the order of creation: the model created
    /// after the one with id `i` gets id `i + 1`, so no id is handed out twice.
    pub proof fn lemma_model_ids_sequential<M: Copy>(c0: &Self, c1: &Self, scene: &SceneStore<M>, h1: H, h2: H)
        requires
            c0.models_spec().len() < usize::MAX,
            c1.models_spec() == c0.models_after::<M>(Command::ModelCreate { model: h1 }),
        ensures
            c0.models_spec().len() == 0 ==> c0.command_result(scene, Command::ModelCreate { model: h1 }) == Ok::<
                CommandResponse<M>,
                CommandError,
            >(CommandResponse::ModelCreate { model: 0 }),
            c0.command_result(scene, Command::ModelCreate { model: h1 }) matches Ok(
                CommandResponse::ModelCreate { model: i },
            ) && c1.command_result(scene, Command::ModelCreate { model: h2 }) matches Ok(
                CommandResponse::ModelCreate { model: j },
            ) ==> j == i + 1,
    {
    }

    /// Two containers made one after the other on the same scene have
    /// distinct root entities, both children of the one scene root, and each
    /// answers a root query with its own.
    pub proof fn lemma_container_roots<M: Copy>(
        c1: &Self,
        c2: &Self,
        s0: &SceneStore<M>,
        s1: &SceneStore<M>,
        s2: &SceneStore<M>,
        identity: M,
    )
        requires
            s0.wf(),
            c1.created_on(s0, s1, identity),
            c2.created_on(s1, s2, identity),
        ensures
            c1.root_spec() != c2.root_spec(),
            s2.parent_of(c1.root_spec() as int) == Some(s2.root_id()),
            s2.parent_of(c2.root_spec() as int) == Some(s2.root_id()),
            c1.command_result(s2, Command::<M, H>::EntityRootGet) == Ok::<CommandResponse<M>, CommandError>(
                CommandResponse::EntityRootGet { root_entity: c1.root_spec() },
            ),
            c2.command_result(s2, Command::<M, H>::EntityRootGet) == Ok::<CommandResponse<M>, CommandError>(
                CommandResponse::EntityRootGet { root_entity: c2.root_spec() },
            ),
    {
        assert(s2.nodes()[c1.root_spec() as int] == s1.nodes()[c1.root_spec() as int]);
    }
}

} // verus!
