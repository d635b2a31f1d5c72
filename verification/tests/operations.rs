use entity_hierarchy::{
    AddChild, AddChildren, Children, CommandQueue, Commands, DespawnRecursiveExt, Entity,
    EntityList, HierachyEntityMutExt, HierarchyCommand, HierarchyCommands, HierarchyError,
    HierarchyEvent, InsertChild, InsertChildren, Parent, RemoveParent, World,
};

fn spawn_many(world: &mut World, n: usize) -> Vec<Entity> {
    (0..n).map(|_| world.spawn_empty().id()).collect()
}

fn children_of(world: &World, parent: Entity) -> Option<Vec<Entity>> {
    world.get_children(parent).map(|c| c.as_slice().to_vec())
}

fn assert_mirror(world: &World, entities: &[Entity]) {
    for &c in entities {
        if let Some(Parent(p)) = world.get_parent(c) {
            let list = children_of(world, p).expect("a parent has a list");
            assert_eq!(list.iter().filter(|&&e| e == c).count(), 1);
            assert!(world.contains(p));
            assert!(world.contains(c));
        }
        if let Some(list) = children_of(world, c) {
            assert!(!list.is_empty());
            for &child in &list {
                assert_eq!(world.get_parent(child), Some(Parent(c)));
            }
        }
        if !world.contains(c) {
            assert_eq!(world.get_parent(c), None);
            assert!(world.get_children(c).is_none());
        }
    }
}

#[test]
fn entity_is_its_index() {
    let e = Entity::from_raw(7);
    assert_eq!(e.index(), 7);
    assert_eq!(e, Entity { index: 7 });
    let mut world = World::new();
    assert_eq!(world.spawn_empty().id(), Entity::from_raw(0));
    assert_eq!(world.spawn_empty().id(), Entity::from_raw(1));
}

#[test]
fn mirror_holds_after_a_sequence_of_operations() {
    let mut world = World::new();
    let e = spawn_many(&mut world, 6);
    world.entity_mut(e[0]).add_children(&[e[1], e[2], e[3]]);
    assert_mirror(&world, &e);
    world.entity_mut(e[4]).add_child(e[2]);
    assert_mirror(&world, &e);
    world.entity_mut(e[0]).insert_child(0, e[5]);
    assert_mirror(&world, &e);
    world.entity_mut(e[0]).remove_child(e[1]);
    assert_mirror(&world, &e);
    world.entity_mut(e[3]).remove_parent();
    assert_mirror(&world, &e);
    world.despawn(e[4]);
    assert_mirror(&world, &e);
    world.entity_mut(e[0]).remove_all_children();
    assert_mirror(&world, &e);
    assert_eq!(children_of(&world, e[0]), None);
    assert!(!world.contains(e[2]));
    assert!(world.contains(e[5]));
}

#[test]
fn no_list_is_left_empty() {
    let mut world = World::new();
    let e = spawn_many(&mut world, 3);
    world.entity_mut(e[0]).add_child(e[1]);
    world.entity_mut(e[0]).remove_child(e[1]);
    assert!(world.get_children(e[0]).is_none());

    world.entity_mut(e[0]).add_children(&[e[1], e[2]]);
    world.entity_mut(e[0]).remove_children(&[e[2], e[1]]);
    assert!(world.get_children(e[0]).is_none());

    world.entity_mut(e[0]).add_child(e[1]);
    world.entity_mut(e[1]).remove_parent();
    assert!(world.get_children(e[0]).is_none());

    world.entity_mut(e[0]).add_children(&[]);
    assert!(world.get_children(e[0]).is_none());
}

#[test]
fn setting_the_same_parent_again_changes_nothing() {
    let mut world = World::new();
    let e = spawn_many(&mut world, 3);
    world.entity_mut(e[1]).set_parent(e[0]);
    world.entity_mut(e[2]).set_parent(e[0]);
    let list = children_of(&world, e[0]);
    let events = world.events().to_vec();
    world.entity_mut(e[2]).set_parent(e[0]);
    assert_eq!(children_of(&world, e[0]), list);
    assert_eq!(world.events().to_vec(), events);
    assert_eq!(list, Some(vec![e[1], e[2]]));
    assert_eq!(
        events,
        vec![
            HierarchyEvent::ChildAdded { child: e[1], parent: e[0] },
            HierarchyEvent::ChildAdded { child: e[2], parent: e[0] },
        ]
    );
}

#[test]
fn adding_an_earlier_child_again_moves_it_to_the_end_without_event() {
    let mut world = World::new();
    let e = spawn_many(&mut world, 3);
    world.entity_mut(e[0]).add_children(&[e[1], e[2]]);
    world.entity_mut(e[0]).add_child(e[1]);
    assert_eq!(children_of(&world, e[0]), Some(vec![e[2], e[1]]));
    assert_eq!(world.events().len(), 2);
}

#[test]
fn a_move_is_one_event() {
    let mut world = World::new();
    let e = spawn_many(&mut world, 3);
    let (p1, p2, c) = (e[0], e[1], e[2]);
    world.entity_mut(c).set_parent(p1);
    world.entity_mut(c).set_parent(p2);
    assert_eq!(children_of(&world, p1), None);
    assert_eq!(children_of(&world, p2), Some(vec![c]));
    assert_eq!(world.get_parent(c), Some(Parent(p2)));
    assert_eq!(
        world.events().to_vec(),
        vec![
            HierarchyEvent::ChildAdded { child: c, parent: p1 },
            HierarchyEvent::ChildMoved { child: c, previous_parent: p1, new_parent: p2 },
        ]
    );
}

#[test]
fn destroying_a_parent_destroys_its_subtree() {
    let mut world = World::new();
    let e = spawn_many(&mut world, 6);
    let (g, p, a, b, d, other) = (e[0], e[1], e[2], e[3], e[4], e[5]);
    world.entity_mut(g).add_child(p);
    world.entity_mut(p).add_children(&[a, b]);
    world.entity_mut(a).add_child(d);
    world.drain_events();

    assert!(world.despawn(p));

    for gone in [p, a, b, d] {
        assert!(!world.contains(gone));
        assert_eq!(world.get_parent(gone), None);
        assert!(world.get_children(gone).is_none());
    }
    assert!(world.contains(g));
    assert!(world.contains(other));
    assert!(world.get_children(g).is_none());
    assert_eq!(
        world.events().to_vec(),
        vec![
            HierarchyEvent::ChildRemoved { child: p, parent: g },
            HierarchyEvent::ChildRemoved { child: a, parent: p },
            HierarchyEvent::ChildRemoved { child: b, parent: p },
            HierarchyEvent::ChildRemoved { child: d, parent: a },
        ]
    );
    assert!(!world.despawn(p));
    assert_eq!(world.events().len(), 4);
}

#[test]
fn destroying_an_entity_that_is_its_own_parent_ends() {
    let mut world = World::new();
    let e = spawn_many(&mut world, 2);
    world.entity_mut(e[0]).add_child(e[0]);
    world.entity_mut(e[0]).add_child(e[1]);
    assert_eq!(children_of(&world, e[0]), Some(vec![e[0], e[1]]));
    assert!(world.despawn(e[0]));
    assert!(!world.contains(e[0]));
    assert!(!world.contains(e[1]));
}

#[test]
fn add_insert_remove_in_the_store() {
    let mut world = World::new();
    let e = spawn_many(&mut world, 5);
    let (parent, c1, c2, c3, c4) = (e[0], e[1], e[2], e[3], e[4]);

    world.entity_mut(parent).add_children(&[c1, c2]);
    assert_eq!(children_of(&world, parent), Some(vec![c1, c2]));
    assert_eq!(world.get_parent(c1), Some(Parent(parent)));
    assert_eq!(world.get_parent(c2), Some(Parent(parent)));

    world.entity_mut(parent).insert_children(1, &[c3, c4]);
    assert_eq!(children_of(&world, parent), Some(vec![c1, c3, c4, c2]));

    world.entity_mut(parent).remove_children(&[c1, c4]);
    assert_eq!(children_of(&world, parent), Some(vec![c3, c2]));
    assert_eq!(world.get_parent(c1), None);
    assert_eq!(world.get_parent(c4), None);
}

#[test]
fn despawn_descendants_in_the_store() {
    let mut world = World::new();
    let e = spawn_many(&mut world, 2);
    world.entity_mut(e[0]).add_child(e[1]).despawn_descendants();
    assert!(world.contains(e[0]));
    assert!(world.get_children(e[0]).is_none());
    assert!(!world.contains(e[1]));
    assert_eq!(
        world.events().to_vec(),
        vec![
            HierarchyEvent::ChildAdded { child: e[1], parent: e[0] },
            HierarchyEvent::ChildRemoved { child: e[1], parent: e[0] },
        ]
    );
}

#[test]
fn world_builder_spawns_children_in_order() {
    let mut world = World::new();
    let mut children = Vec::new();
    let parent = world
        .spawn_empty()
        .with_children(|builder| {
            assert_eq!(builder.parent_id(), Entity::from_raw(0));
            children.push(builder.spawn_empty().id());
            children.push(builder.spawn().id());
            children.push(builder.spawn_bundle().id());
        })
        .id();
    assert_eq!(children.len(), 3);
    assert_eq!(children_of(&world, parent), Some(children.clone()));
    for &child in &children {
        assert_eq!(world.get_parent(child), Some(Parent(parent)));
    }
    assert_eq!(
        world.events().to_vec(),
        children
            .iter()
            .map(|&child| HierarchyEvent::ChildAdded { child, parent })
            .collect::<Vec<_>>()
    );
}

#[test]
fn a_batch_counts_each_entity_once() {
    let mut world = World::new();
    let e = spawn_many(&mut world, 4);
    world.entity_mut(e[0]).add_children(&[e[1], e[2], e[1]]);
    assert_eq!(children_of(&world, e[0]), Some(vec![e[1], e[2]]));
    assert_eq!(world.events().len(), 2);

    world.entity_mut(e[0]).insert_children(1, &[e[3], e[3], e[1]]);
    assert_eq!(children_of(&world, e[0]), Some(vec![e[2], e[3], e[1]]));
    assert_eq!(world.events().len(), 3);

    world.drain_events();
    world.entity_mut(e[0]).remove_children(&[e[3], e[3]]);
    assert_eq!(children_of(&world, e[0]), Some(vec![e[2], e[1]]));
    assert_eq!(
        world.events().to_vec(),
        vec![HierarchyEvent::ChildRemoved { child: e[3], parent: e[0] }]
    );
}

#[test]
fn insert_child_counts_in_the_list_without_the_child() {
    let mut world = World::new();
    let e = spawn_many(&mut world, 4);
    world.entity_mut(e[0]).add_children(&[e[1], e[2], e[3]]);
    world.entity_mut(e[0]).insert_child(2, e[1]);
    assert_eq!(children_of(&world, e[0]), Some(vec![e[2], e[3], e[1]]));
    world.entity_mut(e[0]).insert_child(0, e[3]);
    assert_eq!(children_of(&world, e[0]), Some(vec![e[3], e[2], e[1]]));
    world.entity_mut(e[0]).insert_child(1, e[0]);
    assert_eq!(children_of(&world, e[0]), Some(vec![e[3], e[0], e[2], e[1]]));
}

#[test]
fn removing_skips_what_is_not_a_child() {
    let mut world = World::new();
    let e = spawn_many(&mut world, 4);
    world.entity_mut(e[0]).add_child(e[1]);
    world.entity_mut(e[2]).add_child(e[3]);
    world.drain_events();
    world
        .entity_mut(e[0])
        .remove_children(&[e[3], Entity::from_raw(99), e[1]]);
    assert_eq!(world.get_parent(e[3]), Some(Parent(e[2])));
    assert_eq!(world.get_parent(e[1]), None);
    assert_eq!(
        world.events().to_vec(),
        vec![HierarchyEvent::ChildRemoved { child: e[1], parent: e[0] }]
    );
    world.entity_mut(e[0]).remove_child(e[1]);
    assert_eq!(world.events().len(), 1);
}

#[test]
fn remove_all_children_leaves_them_alive() {
    let mut world = World::new();
    let e = spawn_many(&mut world, 3);
    world.entity_mut(e[0]).add_children(&[e[1], e[2]]);
    world.drain_events();
    world.entity_mut(e[0]).remove_all_children();
    assert!(world.get_children(e[0]).is_none());
    for child in [e[1], e[2]] {
        assert!(world.contains(child));
        assert_eq!(world.get_parent(child), None);
    }
    assert_eq!(
        world.events().to_vec(),
        vec![
            HierarchyEvent::ChildRemoved { child: e[1], parent: e[0] },
            HierarchyEvent::ChildRemoved { child: e[2], parent: e[0] },
        ]
    );
    world.entity_mut(e[0]).remove_all_children();
    assert_eq!(world.events().len(), 2);
}

#[test]
fn remove_parent_reports_once() {
    let mut world = World::new();
    let e = spawn_many(&mut world, 3);
    world.entity_mut(e[0]).add_children(&[e[1], e[2]]);
    world.drain_events();
    world.entity_mut(e[1]).remove_parent();
    assert_eq!(world.get_parent(e[1]), None);
    assert_eq!(children_of(&world, e[0]), Some(vec![e[2]]));
    assert_eq!(
        world.events().to_vec(),
        vec![HierarchyEvent::ChildRemoved { child: e[1], parent: e[0] }]
    );
    world.entity_mut(e[1]).remove_parent();
    assert_eq!(world.events().len(), 1);
}

#[test]
fn drain_events_empties_the_buffer() {
    let mut world = World::new();
    let e = spawn_many(&mut world, 2);
    world.entity_mut(e[0]).add_child(e[1]);
    assert_eq!(
        world.drain_events(),
        vec![HierarchyEvent::ChildAdded { child: e[1], parent: e[0] }]
    );
    assert!(world.events().is_empty());
    assert_eq!(children_of(&world, e[0]), Some(vec![e[1]]));
}

#[test]
fn a_command_on_a_missing_entity_is_refused() {
    let mut world = World::new();
    let e = spawn_many(&mut world, 2);
    let ghost = Entity::from_raw(40);
    assert_eq!(
        AddChild { parent: ghost, child: e[0] }.apply(&mut world),
        Err(HierarchyError::NoSuchEntity(ghost))
    );
    assert_eq!(
        AddChild { parent: e[0], child: ghost }.apply(&mut world),
        Err(HierarchyError::NoSuchEntity(ghost))
    );
    assert_eq!(
        AddChildren { parent: e[0], children: EntityList::from_slice(&[e[1], ghost]) }
            .apply(&mut world),
        Err(HierarchyError::NoSuchEntity(ghost))
    );
    assert_eq!(
        RemoveParent { child: ghost }.apply(&mut world),
        Err(HierarchyError::NoSuchEntity(ghost))
    );
    assert_eq!(world.get_parent(e[1]), None);
    assert!(world.get_children(e[0]).is_none());
    assert!(world.events().is_empty());
    assert_eq!(AddChild { parent: e[0], child: e[1] }.apply(&mut world), Ok(()));
    assert_eq!(children_of(&world, e[0]), Some(vec![e[1]]));
}

#[test]
fn an_index_beyond_the_list_is_refused() {
    let mut world = World::new();
    let e = spawn_many(&mut world, 4);
    assert_eq!(
        InsertChild { parent: e[0], index: 1, child: e[1] }.apply(&mut world),
        Err(HierarchyError::IndexOutOfBounds { index: 1, len: 0 })
    );
    assert_eq!(world.get_parent(e[1]), None);
    assert_eq!(InsertChild { parent: e[0], index: 0, child: e[1] }.apply(&mut world), Ok(()));
    world.entity_mut(e[0]).add_child(e[2]);
    assert_eq!(
        InsertChildren { parent: e[0], index: 2, children: EntityList::from_slice(&[e[2], e[3]]) }
            .apply(&mut world),
        Err(HierarchyError::IndexOutOfBounds { index: 2, len: 1 })
    );
    assert_eq!(children_of(&world, e[0]), Some(vec![e[1], e[2]]));
    assert_eq!(world.get_parent(e[3]), None);
    assert_eq!(
        InsertChildren { parent: e[0], index: 1, children: EntityList::from_slice(&[e[2], e[3]]) }
            .apply(&mut world),
        Ok(())
    );
    assert_eq!(children_of(&world, e[0]), Some(vec![e[1], e[2], e[3]]));
}

#[test]
fn the_queue_applies_in_order_and_reports_refusals() {
    let mut world = World::new();
    let mut queue = CommandQueue::new();
    let (a, b, c);
    {
        let mut commands = Commands::new(&mut queue, &mut world);
        a = commands.spawn_empty().id();
        b = commands.spawn_empty().id();
        c = commands.spawn_empty().id();
        commands.entity(a).add_child(b);
        commands.entity(b).despawn();
        commands.entity(b).set_parent(c);
        commands.entity(c).insert_child(3, a);
        commands.entity(c).set_parent(a).remove_parent();
        commands.add(HierarchyCommand::AddChild(AddChild { parent: a, child: c }));
    }
    assert_eq!(queue.len(), 7);
    let failures = queue.apply(&mut world);
    assert_eq!(queue.len(), 0);
    assert_eq!(
        failures,
        vec![
            HierarchyError::NoSuchEntity(b),
            HierarchyError::IndexOutOfBounds { index: 3, len: 0 },
        ]
    );
    assert!(!world.contains(b));
    assert_eq!(children_of(&world, a), Some(vec![c]));
    assert_eq!(
        world.events().to_vec(),
        vec![
            HierarchyEvent::ChildAdded { child: b, parent: a },
            HierarchyEvent::ChildRemoved { child: b, parent: a },
            HierarchyEvent::ChildAdded { child: c, parent: a },
            HierarchyEvent::ChildRemoved { child: c, parent: a },
            HierarchyEvent::ChildAdded { child: c, parent: a },
        ]
    );
}

#[test]
fn queued_removals_apply_later() {
    let mut world = World::new();
    let e = spawn_many(&mut world, 3);
    world.entity_mut(e[0]).add_children(&[e[1], e[2]]);
    let mut queue = CommandQueue::default();
    {
        let mut commands = Commands::new(&mut queue, &mut world);
        commands.entity(e[0]).remove_child(e[1]).remove_all_children();
        let mut handle = commands.entity(e[2]);
        assert_eq!(handle.id(), e[2]);
        handle.commands().entity(e[1]).set_parent(e[2]);
    }
    assert_eq!(children_of(&world, e[0]), Some(vec![e[1], e[2]]));
    assert!(queue.apply(&mut world).is_empty());
    assert!(world.get_children(e[0]).is_none());
    assert_eq!(children_of(&world, e[2]), Some(vec![e[1]]));
}

#[test]
fn entity_list_keeps_its_entries() {
    let (a, b, c) = (Entity::from_raw(1), Entity::from_raw(2), Entity::from_raw(3));
    let mut list = EntityList::new();
    assert!(list.is_empty());
    assert_eq!(list.len(), 0);
    list.push(a);
    list.push(b);
    assert!(!list.is_empty());
    assert_eq!(list.len(), 2);
    assert_eq!(list.as_slice(), &[a, b]);
    let copy = list.clone();
    list.push(c);
    assert_eq!(copy.as_slice(), &[a, b]);
    assert_eq!(list.as_slice(), &[a, b, c]);
    assert_eq!(EntityList::from_slice(&[c, a]).as_slice(), &[c, a]);
    let many: Vec<Entity> = (0..20).map(Entity::from_raw).collect();
    assert_eq!(EntityList::from_slice(&many).as_slice(), &many[..]);
}

#[test]
fn children_can_be_read() {
    let (a, b) = (Entity::from_raw(1), Entity::from_raw(2));
    let children = Children::from_entities(&[a, b]);
    assert_eq!(children.len(), 2);
    assert!(!children.is_empty());
    assert!(children.contains(b));
    assert!(!children.contains(Entity::from_raw(3)));
    assert_eq!(children.as_slice(), &[a, b]);
    assert_eq!(Children::from_entity(b).as_slice(), &[b]);
    assert_eq!(Parent(a).get(), a);
}

#[test]
fn a_handle_is_offered_only_for_what_exists() {
    let mut world = World::default();
    let a = world.spawn_empty().id();
    assert!(world.get_entity_mut(a).is_some());
    assert!(world.get_entity_mut(Entity::from_raw(5)).is_none());
    world.despawn(a);
    assert!(world.get_entity_mut(a).is_none());
    assert_eq!(world.spawn_empty().id(), Entity::from_raw(1));
}
