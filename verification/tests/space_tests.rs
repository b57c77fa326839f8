use ecs_core::space::Space;

/// Capacity 2: ids 0 and 1 are created, killing id 0 makes the next
/// creation return id 0 again, and a further creation without a kill is an
/// empty result.
#[test]
fn reuse_and_exhaustion() {
    let mut space = Space::with_capacity(2);

    let id0 = space.create_object().unwrap();
    let id1 = space.create_object().unwrap();
    assert_eq!(id0.index(), 0);
    assert_eq!(id1.index(), 1);
    assert!(space.is_alive(id0));
    assert!(space.is_alive(id1));

    space.kill_object(id0);
    assert!(!space.is_alive(id0));
    assert!(space.is_alive(id1));

    let reused = space.create_object().unwrap();
    assert_eq!(reused.index(), 0);
    assert!(space.is_alive(reused));

    assert!(space.create_object().is_none());
}

/// With capacity N fully allocated, killing an id in the middle makes the
/// next creation return exactly that id, not a fresh one beyond N.
#[test]
fn reuse_returns_killed_id() {
    let capacity = 5;
    let mut space = Space::with_capacity(capacity);

    let mut ids = Vec::new();
    for expected in 0..capacity {
        let id = space.create_object().unwrap();
        assert_eq!(id.index(), expected);
        ids.push(id);
    }
    assert!(space.create_object().is_none());

    space.kill_object(ids[3]);
    let reused = space.create_object().unwrap();
    assert_eq!(reused.index(), 3);

    assert!(space.create_object().is_none());
}

/// A store of capacity zero never hands out an id.
#[test]
fn zero_capacity() {
    let mut space = Space::with_capacity(0);
    assert!(space.create_object().is_none());
}
