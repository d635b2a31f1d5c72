use entity_hierarchy::{
    CommandQueue, Commands, DespawnRecursiveExt, Entity, HierachyEntityCommandsExt,
    HierarchyCommands, World,
};

#[test]
fn despawn() {
    let mut world = World::new();
    let mut queue = CommandQueue::default();
    let mut names: Vec<(Entity, String, u32)> = Vec::new();
    let grandparent_entity;
    {
        let mut commands = Commands::new(&mut queue, &mut world);

        let mut another_parent = commands.spawn();
        names.push((another_parent.id(), "Another parent".to_owned(), 0));
        another_parent.with_children(|parent| {
            names.push((parent.spawn().id(), "Another child".to_owned(), 1));
        });

        // Create a grandparent entity which will _not_ be deleted
        grandparent_entity = commands.spawn().id();
        names.push((grandparent_entity, "Grandparent".to_owned(), 2));
        commands.entity(grandparent_entity).with_children(|parent| {
            // Add a child to the grandparent (the "parent"), which will get deleted
            let mut to_delete = parent.spawn();
            names.push((to_delete.id(), "Parent, to be deleted".to_owned(), 3));
            // All descendants of the "parent" should also be deleted.
            to_delete.with_children(|parent| {
                let mut first = parent.spawn();
                names.push((first.id(), "First Child, to be deleted".to_owned(), 4));
                first.with_children(|parent| {
                    // child
                    names.push((
                        parent.spawn().id(),
                        "First grand child, to be deleted".to_owned(),
                        5,
                    ));
                });
                names.push((parent.spawn().id(), "Second child, to be deleted".to_owned(), 6));
            });
        });

        names.push((commands.spawn().id(), "An innocent bystander".to_owned(), 7));
    }
    queue.apply(&mut world);

    let parent_entity = world.get_children(grandparent_entity).unwrap().as_slice()[0];

    {
        let mut commands = Commands::new(&mut queue, &mut world);
        commands.entity(parent_entity).despawn();
        // despawning the same entity twice should not panic
        commands.entity(parent_entity).despawn();
    }
    queue.apply(&mut world);

    let mut results = names
        .iter()
        .filter(|(entity, _, _)| world.contains(*entity))
        .map(|(_, name, index)| (name.clone(), *index))
        .collect::<Vec<_>>();
    results.sort_unstable_by_key(|(_, index)| *index);

    {
        let children = world.get_children(grandparent_entity);
        assert!(
            children.is_none(),
            "grandparent should no longer have a Children component because its last child has been removed"
        );
    }

    assert_eq!(
        results,
        vec![
            ("Another parent".to_owned(), 0),
            ("Another child".to_owned(), 1),
            ("Grandparent".to_owned(), 2),
            ("An innocent bystander".to_owned(), 7)
        ]
    );
}

#[test]
fn despawn_descendants() {
    let mut world = World::new();
    let mut queue = CommandQueue::default();
    let mut commands = Commands::new(&mut queue, &mut world);

    let parent = commands.spawn_empty().id();
    let child = commands.spawn_empty().id();

    commands
        .entity(parent)
        .add_child(child)
        .despawn_descendants();

    queue.apply(&mut world);

    // The parent's Children component should be removed.
    assert!(world.get_children(parent).is_none());
    // The child should be despawned.
    assert!(!world.contains(child));
}

#[test]
fn spawn_children_after_despawn_descendants() {
    let mut world = World::new();
    let mut queue = CommandQueue::default();
    let mut commands = Commands::new(&mut queue, &mut world);

    let parent = commands.spawn_empty().id();
    let child = commands.spawn_empty().id();

    commands
        .entity(parent)
        .add_child(child)
        .despawn_descendants()
        .with_children(|parent| {
            parent.spawn_empty();
            parent.spawn_empty();
        });

    queue.apply(&mut world);

    // The parent's Children component should still have two children.
    let children = world.get_children(parent);
    assert!(children.is_some());
    assert!(children.unwrap().as_slice().len() == 2_usize);
    // The original child should be despawned.
    assert!(!world.contains(child));
}
