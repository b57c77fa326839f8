use ecs_core::graph::Graph;
use ecs_core::graph::Layer;

#[derive(Clone, Copy, Debug, PartialEq, Eq)]
struct Transform(usize);
#[derive(Clone, Copy, Debug, PartialEq, Eq)]
struct Velocity(usize);
#[derive(Clone, Copy, Debug, PartialEq, Eq)]
struct RigidBody(usize);
#[derive(Clone, Copy, Debug, PartialEq, Eq)]
struct Shape(usize);

fn contents<T: Copy>(layer: &Layer<T>) -> Vec<T> {
    let mut it = layer.iter();
    let mut all = Vec::new();
    while let Some(node) = it.next() {
        all.push(*node.read(layer));
    }
    all
}

/// Creating layers generates the correct storages.
#[test]
fn create_layers() {
    let mut graph = Graph::new();
    let l0: Layer<Transform> = graph.create_layer();
    let l1: Layer<Velocity> = graph.create_layer();

    // both layers should now have two target layers
    assert_eq!(graph.target_count(l0.index()), 2);
    assert_eq!(graph.target_count(l1.index()), 2);

    // this should add a target layer to everyone
    let l2: Layer<Shape> = graph.create_layer();
    assert_eq!(graph.target_count(l0.index()), 3);
    assert_eq!(graph.target_count(l1.index()), 3);
    assert_eq!(graph.target_count(l2.index()), 3);
}

/// Nodes can be connected and then queried for their neighbors.
/// Multiple ownership works.
#[test]
fn connect_nodes() {
    let mut graph = Graph::new();
    let mut trs: Layer<Transform> = graph.create_layer();
    let mut vels: Layer<Velocity> = graph.create_layer();
    let mut rbs: Layer<RigidBody> = graph.create_layer();
    let mut shapes: Layer<Shape> = graph.create_layer();

    let everyones_shape = shapes.push(Shape(69)).downgrade();
    // do this a few times to make sure we connect correctly even with multiple objects there
    for i in 0..3 {
        let tr_node = trs.push(Transform(i));
        let vel_node = vels.push(Velocity(i));
        let rb_node = rbs.push(RigidBody(i));
        let shape_node = everyones_shape.upgrade(&shapes);
        graph.connect(&vel_node.pos(), &tr_node.pos());
        graph.connect(&rb_node.pos(), &tr_node.pos());
        graph.connect(&rb_node.pos(), &vel_node.pos());
        graph.connect_oneway(&rb_node.pos(), &shape_node.pos());
        assert_eq!(
            graph.get_neighbor(&rb_node.pos(), &shapes).map(|n| *n.read(&shapes)),
            Some(Shape(69))
        );
        assert_eq!(
            graph.get_neighbor(&tr_node.pos(), &rbs).map(|n| *n.read(&rbs)),
            Some(RigidBody(i))
        );
        assert!(graph.get_neighbor(&tr_node.pos(), &shapes).is_none());

        // spawn something with different connections in between
        let tr_node_ = trs.push(Transform(42 + i));
        let shape_node_ = shapes.push(Shape(i));
        graph.connect(&tr_node_.pos(), &shape_node_.pos());
        assert_eq!(
            graph.get_neighbor(&tr_node_.pos(), &shapes).map(|n| *n.read(&shapes)),
            Some(Shape(i))
        );
    }

    println!("Contents after `connect_nodes`:");
    println!("{:?}", contents(&trs));
    println!("{:?}", contents(&vels));
    println!("{:?}", contents(&rbs));
    println!("{:?}", contents(&shapes));
}

#[test]
fn iterate() {
    let mut graph = Graph::new();
    let mut trs: Layer<Transform> = graph.create_layer();
    let mut vels: Layer<Velocity> = graph.create_layer();
    let mut rbs: Layer<RigidBody> = graph.create_layer();
    let mut shapes: Layer<Shape> = graph.create_layer();

    let everyones_shape = shapes.push(Shape(69)).downgrade();

    for i in 0..10 {
        let tr_node = trs.push(Transform(i));
        let vel_node = vels.push(Velocity(i));
        let rb_node = rbs.push(RigidBody(0));
        graph.connect(&rb_node.pos(), &tr_node.pos());
        if i % 2 == 0 {
            graph.connect(&tr_node.pos(), &vel_node.pos());
        }
        if i % 4 == 0 {
            graph.connect_oneway(&rb_node.pos(), &everyones_shape.upgrade(&shapes).pos());
        }
    }

    println!("Patterns of `iterate`:");

    let mut match_count = 0; // not including shape
    let mut full_match_count = 0; // including shape
    let mut rb_iter = rbs.iter_mut();
    while let Some(rb) = rb_iter.next() {
        let tr = match graph.get_neighbor(&rb.pos(), &trs) {
            Some(tr) => tr,
            None => continue,
        };
        let vel = match graph.get_neighbor(&tr.pos(), &vels) {
            Some(vel) => vel,
            None => continue,
        };
        match_count += 1;
        rb.write(&mut rbs, RigidBody(42));

        let shape = graph.get_neighbor_mut(&rb.pos(), &mut shapes);
        if let Some(shape) = &shape {
            full_match_count += 1;
            let grown = Shape(shape.read(&shapes).0 + 1);
            shape.write(&mut shapes, grown);
        }

        // test that only real connections were followed
        assert_eq!(vel.read(&vels).0 % 2, 0);

        println!(
            "{:?}, {:?}, {:?}, {:?}",
            *rb.read(&rbs),
            *tr.read(&trs),
            *vel.read(&vels),
            shape.map(|s| *s.read(&shapes))
        );
    }
    assert_eq!(match_count, 5);
    assert_eq!(full_match_count, 3);
    assert_eq!(everyones_shape.upgrade(&shapes).read(&shapes).0, 72);

    println!("All rbs: {:?}", contents(&rbs));

    let mut rb_iter2 = rbs.iter();
    while let Some(rb) = rb_iter2.next() {
        if graph
            .get_neighbor(&rb.pos(), &trs)
            .and_then(|tr| graph.get_neighbor(&tr.pos(), &vels))
            .is_none()
        {
            assert_eq!(rb.read(&rbs).0, 0);
        } else {
            assert_eq!(rb.read(&rbs).0, 42);
        }
    }
}

/// Two layers, three components each, one cross-layer connection: only the
/// connected pair resolves, its neighbors on either side stay empty.
#[test]
fn single_connection_scenario() {
    let mut graph = Graph::new();
    let mut trs: Layer<Transform> = graph.create_layer();
    let mut vels: Layer<Velocity> = graph.create_layer();

    let t0 = trs.push(Transform(10)).pos();
    let t1 = trs.push(Transform(11)).pos();
    let t2 = trs.push(Transform(12)).pos();
    let _v0 = vels.push(Velocity(20)).pos();
    let v1 = vels.push(Velocity(21)).pos();
    let _v2 = vels.push(Velocity(22)).pos();

    graph.connect(&t1, &v1);

    assert!(graph.get_neighbor(&t0, &vels).is_none());
    assert_eq!(
        graph.get_neighbor(&t1, &vels).map(|n| *n.read(&vels)),
        Some(Velocity(21))
    );
    assert!(graph.get_neighbor(&t2, &vels).is_none());
    assert_eq!(
        graph.get_neighbor(&v1, &trs).map(|n| *n.read(&trs)),
        Some(Transform(11))
    );
}

/// A query for a slot beyond the current edge-row length is an empty
/// result, not a failure.
#[test]
fn neighbor_beyond_row_length() {
    let mut graph = Graph::new();
    let mut trs: Layer<Transform> = graph.create_layer();
    let mut vels: Layer<Velocity> = graph.create_layer();

    let t0 = trs.push(Transform(0)).pos();
    let t1 = trs.push(Transform(1)).pos();
    let v0 = vels.push(Velocity(0)).pos();

    // no edges at all yet: every row is empty
    assert!(graph.get_neighbor(&t1, &vels).is_none());

    // writing an edge for slot 0 leaves slot 1 beyond the row's length
    graph.connect_oneway(&t0, &v0);
    assert!(graph.get_neighbor(&t1, &vels).is_none());
}

/// Distinct start slots may share one target (shared ownership), and both
/// forward queries resolve to the same component.
#[test]
fn shared_target() {
    let mut graph = Graph::new();
    let mut trs: Layer<Transform> = graph.create_layer();
    let mut shapes: Layer<Shape> = graph.create_layer();

    let t0 = trs.push(Transform(0)).pos();
    let t1 = trs.push(Transform(1)).pos();
    let shared = shapes.push(Shape(7)).pos();

    graph.connect_oneway(&t0, &shared);
    graph.connect_oneway(&t1, &shared);

    assert_eq!(graph.get_neighbor(&t0, &shapes).map(|n| *n.read(&shapes)), Some(Shape(7)));
    assert_eq!(graph.get_neighbor(&t1, &shapes).map(|n| *n.read(&shapes)), Some(Shape(7)));
}

/// Downgrading a handle and upgrading it against the originating layer
/// addresses the component the handle was created for.
#[test]
fn downgrade_upgrade_roundtrip() {
    let mut graph = Graph::new();
    let mut shapes: Layer<Shape> = graph.create_layer();

    let node = shapes.push(Shape(5));
    let pos = node.pos();
    let weak = node.downgrade();

    let restored = weak.upgrade(&shapes);
    assert_eq!(restored.pos(), pos);
    assert_eq!(*restored.read(&shapes), Shape(5));

    let restored_mut = weak.upgrade_mut(&mut shapes);
    assert_eq!(restored_mut.pos(), pos);
    restored_mut.write(&mut shapes, Shape(6));
    assert_eq!(*weak.upgrade(&shapes).read(&shapes), Shape(6));
}
