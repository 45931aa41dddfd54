use metaview::guest::{Command, CommandError, CommandResponse, MappContainer};
use metaview::scene::{ModelRef, SceneStore};

type Mat = [[i64; 4]; 4];

const IDENTITY: Mat = [[1, 0, 0, 0], [0, 1, 0, 0], [0, 0, 1, 0], [0, 0, 0, 1]];

fn mat_mul(a: &Mat, b: &Mat) -> Mat {
    let mut r = [[0i64; 4]; 4];
    for i in 0..4 {
        for j in 0..4 {
            for k in 0..4 {
                r[i][j] += a[i][k] * b[k][j];
            }
        }
    }
    r
}

fn scale(s: i64) -> Mat {
    [[s, 0, 0, 0], [0, s, 0, 0], [0, 0, s, 0], [0, 0, 0, 1]]
}

fn translate(x: i64, y: i64, z: i64) -> Mat {
    [[1, 0, 0, x], [0, 1, 0, y], [0, 0, 1, z], [0, 0, 0, 1]]
}

fn propagate(scene: &mut SceneStore<Mat>) {
    scene.propagate_transforms(&IDENTITY, |a: &Mat, b: &Mat| mat_mul(a, b));
}

#[test]
fn nested_transform_scenario() {
    let mut scene: SceneStore<Mat> = SceneStore::new();
    let root = scene.root();
    let a = scene.create_entity();
    scene.set_parent(a, Some(root));
    scene.set_relative(a, Some(scale(2)));
    let b = scene.create_entity();
    scene.set_parent(b, Some(a));
    scene.set_relative(b, Some(translate(1, 0, 0)));
    propagate(&mut scene);
    let expected: Mat = [[2, 0, 0, 1], [0, 2, 0, 0], [0, 0, 2, 0], [0, 0, 0, 1]];
    assert_eq!(scene.node(b).absolute, Some(expected));
    assert_eq!(scene.node(a).absolute, Some(scale(2)));
    assert_eq!(scene.node(root).absolute, None);
}

#[test]
fn chain_product_of_three() {
    let mut scene: SceneStore<Mat> = SceneStore::new();
    let root = scene.root();
    let t1 = translate(0, 3, 0);
    let t2 = scale(3);
    let t3 = translate(1, 1, 1);
    let a = scene.create_entity();
    let b = scene.create_entity();
    let c = scene.create_entity();
    scene.set_parent(c, Some(b));
    scene.set_parent(b, Some(a));
    scene.set_parent(a, Some(root));
    scene.set_relative(a, Some(t1));
    scene.set_relative(b, Some(t2));
    scene.set_relative(c, Some(t3));
    propagate(&mut scene);
    let expected = mat_mul(&t3, &mat_mul(&t2, &mat_mul(&t1, &IDENTITY)));
    assert_eq!(scene.node(c).absolute, Some(expected));
    assert_eq!(expected, [[3, 0, 0, 1], [0, 3, 0, 10], [0, 0, 3, 1], [0, 0, 0, 1]]);
}

#[test]
fn unreachable_entities_are_not_rendered() {
    let mut scene: SceneStore<Mat> = SceneStore::new();
    let root = scene.root();
    let shown = scene.create_entity();
    scene.set_parent(shown, Some(root));
    scene.set_relative(shown, Some(IDENTITY));
    scene.set_model(shown, Some(ModelRef { owner: 0, index: 0 }));
    let detached = scene.create_entity();
    scene.set_relative(detached, Some(IDENTITY));
    scene.set_model(detached, Some(ModelRef { owner: 0, index: 1 }));
    // Two entities that are each other's parent, away from the root.
    let x = scene.create_entity();
    let y = scene.create_entity();
    scene.set_parent(x, Some(y));
    scene.set_parent(y, Some(x));
    scene.set_relative(x, Some(IDENTITY));
    scene.set_model(x, Some(ModelRef { owner: 0, index: 2 }));
    propagate(&mut scene);
    let rows = scene.extract_render_data();
    assert_eq!(rows.len(), 1);
    assert_eq!(rows[0].entity, shown);
    assert_eq!(rows[0].model, ModelRef { owner: 0, index: 0 });
    assert_eq!(scene.node(detached).absolute, None);
    assert_eq!(scene.node(x).absolute, None);
}

#[test]
fn parent_without_transform_passes_identity() {
    let mut scene: SceneStore<Mat> = SceneStore::new();
    let root = scene.root();
    let group = scene.create_entity();
    scene.set_parent(group, Some(root));
    let leaf = scene.create_entity();
    scene.set_parent(leaf, Some(group));
    scene.set_relative(leaf, Some(translate(4, 5, 6)));
    propagate(&mut scene);
    assert_eq!(scene.node(group).absolute, None);
    assert_eq!(scene.node(leaf).absolute, Some(translate(4, 5, 6)));
}

#[test]
fn removed_transform_clears_absolute() {
    let mut scene: SceneStore<Mat> = SceneStore::new();
    let root = scene.root();
    let a = scene.create_entity();
    scene.set_parent(a, Some(root));
    scene.set_relative(a, Some(scale(5)));
    scene.set_model(a, Some(ModelRef { owner: 0, index: 0 }));
    propagate(&mut scene);
    assert_eq!(scene.extract_render_data().len(), 1);
    scene.set_relative(a, None);
    propagate(&mut scene);
    assert_eq!(scene.node(a).absolute, None);
    assert_eq!(scene.extract_render_data().len(), 0);
}

#[test]
fn detached_entity_is_not_visited() {
    let mut scene: SceneStore<Mat> = SceneStore::new();
    let root = scene.root();
    let a = scene.create_entity();
    scene.set_parent(a, Some(root));
    scene.set_relative(a, Some(scale(3)));
    scene.set_model(a, Some(ModelRef { owner: 0, index: 0 }));
    propagate(&mut scene);
    assert_eq!(scene.extract_render_data().len(), 1);
    scene.set_parent(a, None);
    scene.set_relative(a, Some(scale(7)));
    propagate(&mut scene);
    assert_eq!(scene.node(a).absolute, Some(scale(3)));
    assert!(scene.extract_render_data().is_empty());
    scene.set_parent(a, Some(root));
    propagate(&mut scene);
    assert_eq!(scene.node(a).absolute, Some(scale(7)));
}

#[test]
fn descendants_come_after_parents() {
    let mut scene: SceneStore<Mat> = SceneStore::new();
    let root = scene.root();
    let a = scene.create_entity();
    let b = scene.create_entity();
    let c = scene.create_entity();
    let d = scene.create_entity();
    scene.set_parent(d, Some(c));
    scene.set_parent(c, Some(a));
    scene.set_parent(b, Some(root));
    scene.set_parent(a, Some(root));
    let order = scene.descendants_of(root);
    assert_eq!(order, vec![b, a, c, d]);
    assert_eq!(scene.descendants_of(a), vec![c, d]);
    assert_eq!(scene.children_of(root), &vec![b, a]);
}

#[test]
fn reparenting_moves_between_children_lists() {
    let mut scene: SceneStore<Mat> = SceneStore::new();
    let root = scene.root();
    let a = scene.create_entity();
    let b = scene.create_entity();
    let c = scene.create_entity();
    assert_eq!(scene.set_parent(c, Some(a)), None);
    assert_eq!(scene.set_parent(c, Some(b)), Some(a));
    assert!(scene.children_of(a).is_empty());
    assert_eq!(scene.children_of(b), &vec![c]);
    assert_eq!(scene.set_parent(c, None), Some(b));
    assert!(scene.children_of(b).is_empty());
    assert_eq!(scene.descendants_of(root), Vec::<usize>::new());
}

fn container(id: usize, scene: &mut SceneStore<Mat>) -> MappContainer<&'static str> {
    MappContainer::new(id, scene, IDENTITY)
}

#[test]
fn transform_set_then_removed() {
    let mut scene: SceneStore<Mat> = SceneStore::new();
    let mut c = container(0, &mut scene);
    let e = match c.process_command(&mut scene, Command::EntityCreate) {
        Ok(CommandResponse::EntityCreate { entity }) => entity,
        other => panic!("unexpected {:?}", other),
    };
    let m = translate(7, 8, 9);
    match c.process_command(&mut scene, Command::EntityTransformSet { entity: e, transform: Some(m) }) {
        Ok(CommandResponse::EntityTransformSet { previous_transform }) => assert_eq!(previous_transform, None),
        other => panic!("unexpected {:?}", other),
    }
    match c.process_command(&mut scene, Command::EntityTransformSet { entity: e, transform: None }) {
        Ok(CommandResponse::EntityTransformSet { previous_transform }) => assert_eq!(previous_transform, Some(m)),
        other => panic!("unexpected {:?}", other),
    }
    assert_eq!(scene.node(e).relative, None);
}

#[test]
fn model_ids_count_up_from_zero() {
    let mut scene: SceneStore<Mat> = SceneStore::new();
    let mut c = container(0, &mut scene);
    for expected in 0..5usize {
        match c.process_command(&mut scene, Command::ModelCreate { model: "asset" }) {
            Ok(CommandResponse::ModelCreate { model }) => assert_eq!(model, expected),
            other => panic!("unexpected {:?}", other),
        }
    }
    assert_eq!(c.models().len(), 5);
}

#[test]
fn two_containers_have_distinct_roots() {
    let mut scene: SceneStore<Mat> = SceneStore::new();
    let mut c1 = container(0, &mut scene);
    let mut c2 = container(1, &mut scene);
    let r1 = match c1.process_command(&mut scene, Command::EntityRootGet) {
        Ok(CommandResponse::EntityRootGet { root_entity }) => root_entity,
        other => panic!("unexpected {:?}", other),
    };
    let r2 = match c2.process_command(&mut scene, Command::EntityRootGet) {
        Ok(CommandResponse::EntityRootGet { root_entity }) => root_entity,
        other => panic!("unexpected {:?}", other),
    };
    assert_ne!(r1, r2);
    assert_eq!(scene.node(r1).parent, Some(scene.root()));
    assert_eq!(scene.node(r2).parent, Some(scene.root()));
    assert_eq!(scene.children_of(scene.root()), &vec![r1, r2]);
    assert_eq!(scene.node(r1).relative, Some(IDENTITY));
}

#[test]
fn model_set_reports_previous_model_of_own_table() {
    let mut scene: SceneStore<Mat> = SceneStore::new();
    let mut c1 = container(0, &mut scene);
    let mut c2 = container(1, &mut scene);
    c1.process_command(&mut scene, Command::ModelCreate { model: "a" }).unwrap();
    c1.process_command(&mut scene, Command::ModelCreate { model: "b" }).unwrap();
    c2.process_command(&mut scene, Command::ModelCreate { model: "c" }).unwrap();
    let e = c1.root_entity();
    match c1.process_command(&mut scene, Command::EntityModelSet { entity: e, model: Some(1) }) {
        Ok(CommandResponse::EntityModelSet { previous_model }) => assert_eq!(previous_model, None),
        other => panic!("unexpected {:?}", other),
    }
    assert_eq!(scene.node(e).model, Some(ModelRef { owner: 0, index: 1 }));
    match c1.process_command(&mut scene, Command::EntityModelSet { entity: e, model: Some(0) }) {
        Ok(CommandResponse::EntityModelSet { previous_model }) => assert_eq!(previous_model, Some(1)),
        other => panic!("unexpected {:?}", other),
    }
    // A model of another container's table is not found in this one.
    match c2.process_command(&mut scene, Command::EntityModelSet { entity: e, model: None }) {
        Ok(CommandResponse::EntityModelSet { previous_model }) => assert_eq!(previous_model, None),
        other => panic!("unexpected {:?}", other),
    }
    assert_eq!(scene.node(e).model, None);
}

#[test]
fn parent_set_reports_previous_parent() {
    let mut scene: SceneStore<Mat> = SceneStore::new();
    let mut c = container(0, &mut scene);
    let root = c.root_entity();
    let e = match c.process_command(&mut scene, Command::EntityCreate) {
        Ok(CommandResponse::EntityCreate { entity }) => entity,
        other => panic!("unexpected {:?}", other),
    };
    assert_eq!(e, 2);
    match c.process_command(&mut scene, Command::EntityParentSet { entity: e, parent_entity: Some(root) }) {
        Ok(CommandResponse::EntityParentSet { previous_parent_entity }) => assert_eq!(previous_parent_entity, None),
        other => panic!("unexpected {:?}", other),
    }
    match c.process_command(&mut scene, Command::EntityParentSet { entity: e, parent_entity: None }) {
        Ok(CommandResponse::EntityParentSet { previous_parent_entity }) => assert_eq!(previous_parent_entity, Some(root)),
        other => panic!("unexpected {:?}", other),
    }
    assert_eq!(scene.node(e).parent, None);
}

#[test]
fn refused_commands_change_nothing() {
    let mut scene: SceneStore<Mat> = SceneStore::new();
    let mut c = container(0, &mut scene);
    let scene_root = scene.root();
    let own_root = c.root_entity();
    assert_eq!(
        c.process_command(&mut scene, Command::EntityTransformSet { entity: 9, transform: Some(IDENTITY) }).unwrap_err(),
        CommandError::NoSuchEntity { entity: 9 }
    );
    assert_eq!(
        c.process_command(&mut scene, Command::EntityParentSet { entity: own_root, parent_entity: Some(42) }).unwrap_err(),
        CommandError::NoSuchEntity { entity: 42 }
    );
    assert_eq!(
        c.process_command(&mut scene, Command::EntityParentSet { entity: scene_root, parent_entity: Some(own_root) }).unwrap_err(),
        CommandError::SceneRoot
    );
    assert_eq!(
        c.process_command(&mut scene, Command::EntityModelSet { entity: own_root, model: Some(0) }).unwrap_err(),
        CommandError::NoSuchModel { model: 0 }
    );
    assert_eq!(
        c.process_command(&mut scene, Command::EntityModelSet { entity: 77, model: None }).unwrap_err(),
        CommandError::NoSuchEntity { entity: 77 }
    );
    assert_eq!(scene.entity_count(), 2);
    assert_eq!(scene.node(own_root).parent, Some(scene_root));
    assert_eq!(scene.node(scene_root).parent, None);
}

#[test]
fn destruction_waits_for_maintenance() {
    let mut scene: SceneStore<Mat> = SceneStore::new();
    let mut c = container(0, &mut scene);
    let own_root = c.root_entity();
    let e = match c.process_command(&mut scene, Command::EntityCreate) {
        Ok(CommandResponse::EntityCreate { entity }) => entity,
        other => panic!("unexpected {:?}", other),
    };
    let child = scene.create_entity();
    scene.set_parent(e, Some(own_root));
    scene.set_parent(child, Some(e));
    scene.set_relative(e, Some(scale(2)));
    scene.set_relative(child, Some(IDENTITY));
    scene.set_model(child, Some(ModelRef { owner: 0, index: 0 }));
    scene.request_destroy(e);
    // Until maintenance the doomed entity is still there.
    assert!(scene.is_alive(e));
    propagate(&mut scene);
    assert_eq!(scene.extract_render_data().len(), 1);
    scene.maintain();
    assert!(!scene.is_alive(e));
    assert_eq!(scene.node(e).parent, None);
    assert_eq!(scene.node(e).relative, None);
    assert!(scene.children_of(own_root).is_empty());
    // The orphaned child keeps its link and drops out of the scene; it is no
    // longer visited, so its last absolute transform stays as it was.
    assert_eq!(scene.node(child).parent, Some(e));
    let last = scene.node(child).absolute;
    assert_eq!(last, Some(scale(2)));
    propagate(&mut scene);
    assert_eq!(scene.node(child).absolute, last);
    assert!(scene.extract_render_data().is_empty());
    assert_eq!(
        c.process_command(&mut scene, Command::EntityTransformSet { entity: e, transform: None }).unwrap_err(),
        CommandError::NoSuchEntity { entity: e }
    );
    assert_eq!(
        c.process_command(&mut scene, Command::EntityParentSet { entity: child, parent_entity: Some(e) }).unwrap_err(),
        CommandError::NoSuchEntity { entity: e }
    );
    // Ids are not reused.
    let next = scene.create_entity();
    assert_eq!(next, 4);
}
