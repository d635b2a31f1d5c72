use entity_hierarchy::{
    CommandQueue, Commands, Entity, HierachyEntityCommandsExt, HierarchyCommands, Parent, World,
};

fn assert_children(world: &World, parent: Entity, children: Option<&[Entity]>) {
    assert_eq!(
        world.get_children(parent).map(|c| c.as_slice().to_vec()),
        children.map(|c| c.to_vec())
    );
}

#[test]
fn set_parent() {
    let world = &mut World::new();

    let a = world.spawn_empty().id();
    let b = world.spawn_empty().id();
    let c = world.spawn_empty().id();

    world.entity_mut(a).set_parent(b);

    assert_eq!(Some(Parent(b)), world.get_parent(a));
    assert_children(world, b, Some(&[a]));

    world.entity_mut(a).set_parent(c);

    assert_eq!(Some(Parent(c)), world.get_parent(a));
    assert_children(world, b, None);
    assert_children(world, c, Some(&[a]));
}

#[test]
fn add_child() {
    let world = &mut World::new();

    let a = world.spawn_empty().id();
    let b = world.spawn_empty().id();
    let c = world.spawn_empty().id();

    world.entity_mut(a).add_child(b);

    assert_eq!(Some(Parent(a)), world.get_parent(b));
    assert_children(world, a, Some(&[b]));

    world.entity_mut(a).add_child(c);

    assert_eq!(Some(Parent(a)), world.get_parent(c));
    assert_children(world, a, Some(&[b, c]));
}

#[test]
fn build_children() {
    let mut world = World::default();
    let mut queue = CommandQueue::default();
    let mut commands = Commands::new(&mut queue, &mut world);

    let mut children = Vec::new();
    let parent = commands
        .spawn_empty()
        .with_children(|parent| {
            children.extend([
                parent.spawn_empty().id(),
                parent.spawn_empty().id(),
                parent.spawn_empty().id(),
            ]);
        })
        .id();

    queue.apply(&mut world);
    assert_children(&world, parent, Some(&children));
    for child in children {
        assert_eq!(world.get_parent(child), Some(Parent(parent)));
    }
}

#[test]
fn push_and_insert_and_remove_children() {
    let mut world = World::default();
    let parent = world.spawn_empty().id();
    let child1 = world.spawn_empty().id();
    let child2 = world.spawn_empty().id();
    let child3 = world.spawn_empty().id();
    let child4 = world.spawn_empty().id();

    let mut queue = CommandQueue::default();
    {
        let mut commands = Commands::new(&mut queue, &mut world);
        commands.entity(parent).add_children(&[child1, child2]);
    }
    queue.apply(&mut world);

    assert_children(&world, parent, Some(&[child1, child2]));
    assert_eq!(world.get_parent(child1), Some(Parent(parent)));
    assert_eq!(world.get_parent(child2), Some(Parent(parent)));

    {
        let mut commands = Commands::new(&mut queue, &mut world);
        commands.entity(parent).insert_children(1, &[child3, child4]);
    }
    queue.apply(&mut world);

    assert_children(&world, parent, Some(&[child1, child3, child4, child2]));
    assert_eq!(world.get_parent(child3), Some(Parent(parent)));
    assert_eq!(world.get_parent(child4), Some(Parent(parent)));

    {
        let mut commands = Commands::new(&mut queue, &mut world);
        commands.entity(parent).remove_children(&[child1, child4]);
    }
    queue.apply(&mut world);

    assert_children(&world, parent, Some(&[child3, child2]));
    assert_eq!(world.get_parent(child1), None);
    assert_eq!(world.get_parent(child4), None);
}

#[test]
fn regression_add_children_same_archetype() {
    let mut world = World::new();
    let child = world.spawn_empty().id();
    world.spawn_empty().add_children(&[child]);
}
