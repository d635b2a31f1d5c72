use vstd::prelude::*;
use crate::components::{
    is_none_of, lemma_remove_all_absent, list_extend, list_insert, list_insert_from_slice,
    list_is_empty, list_push, list_retain_none_of, occurs_before, remove_all, Children, EntityList,
    Parent,
};
use crate::entity::Entity;
use crate::events::HierarchyEvent;
use crate::laws::lemma_detach_each;
use crate::model::{distinct, lemma_reparent_keeps_entities, listed, present};
use crate::world::World;

verus! {

/// Sets the parent attribute of `child` to `parent` and returns the parent that it
/// had before, which may be `parent` itself. No children list is touched.
pub(crate) fn update_parent_component(world: &mut World, child: Entity, parent: Entity) -> (previous:
    Option<Entity>)
    requires
        old(world)@.contains(child),
    ensures
        previous == old(world)@.parent_of(child),
        final(world)@ == old(world)@.with_parent(child, Some(parent)),
{
    let previous = world.get_parent(child);
    world.set_parent_attr(child, Some(Parent(parent)));
    match previous {
        Some(p) => Some(p.get()),
        None => None,
    }
}

/// Takes `child` out of the list of `parent`, and removes the list if that leaves
/// it empty. Emits nothing.
pub(crate) fn remove_child(world: &mut World, parent: Entity, child: Entity)
    ensures
        final(world)@ == old(world)@.strip_child(parent, child),
{
    match world.take_children(parent) {
        Some(mut children) => {
            let removed = [child];
            list_retain_none_of(&mut children.0, removed.as_slice());
            assert(removed@ =~= seq![child]);
            if list_is_empty(&children.0) {
                assert(world@ == old(world)@.strip_child(parent, child));
            } else {
                world.set_children_attr(parent, Some(children));
                assert(world@.slots =~= old(world)@.strip_child(parent, child).slots);
            }
        },
        None => {
            assert(world@.slots =~= old(world)@.slots);
        },
    }
}

/// Appends `child` to the list of `parent` without looking at the parent that
/// `child` has.
pub(crate) fn add_child_unchecked(world: &mut World, parent: Entity, child: Entity)
    requires
        old(world)@.contains(parent),
    ensures
        final(world)@ == old(world)@.with_children(
            parent,
            Some(old(world)@.child_list(parent).push(child)),
        ),
{
    let children = match world.take_children(parent) {
        Some(mut children) => {
            list_push(&mut children.0, child);
            children
        },
        None => {
            assert(seq![child] =~= Seq::<Entity>::empty().push(child));
            Children::from_entity(child)
        },
    };
    world.set_children_attr(parent, Some(children));
    assert(world@.slots =~= old(world)@.with_children(
        parent,
        Some(old(world)@.child_list(parent).push(child)),
    ).slots);
}

/// Makes `parent` the parent of `child`, takes `child` out of the list of the
/// parent it had, and emits the event of the change. The list of `parent` is left
/// as it is.
pub(crate) fn set_parent(world: &mut World, child: Entity, parent: Entity)
    requires
        old(world)@.contains(child),
    ensures
        final(world)@ == old(world)@.reparent(child, parent),
{
    let previous = update_parent_component(world, child, parent);
    match previous {
        Some(previous) => {
            if previous == parent {
                assert(world@.slots =~= old(world)@.slots);
                return ;
            }
            remove_child(world, previous, child);
            world.send_event(
                HierarchyEvent::ChildMoved { child, previous_parent: previous, new_parent: parent },
            );
        },
        None => {
            world.send_event(HierarchyEvent::ChildAdded { child, parent });
        },
    }
}

/// [`set_parent`] for each of `children` in turn.
pub(crate) fn update_parent_components(world: &mut World, parent: Entity, children: &[Entity])
    requires
        forall|i: int| 0 <= i < children@.len() ==> old(world)@.contains(children@[i]),
    ensures
        final(world)@ == old(world)@.reparent_all(parent, children@),
{
    let mut i: usize = 0;
    while i < children.len()
        invariant
            i <= children@.len(),
            world@ == old(world)@.reparent_all(parent, children@.take(i as int)),
            forall|e: Entity| world@.contains(e) == old(world)@.contains(e),
            forall|j: int| 0 <= j < children@.len() ==> old(world)@.contains(children@[j]),
        decreases children@.len() - i,
    {
        proof {
            lemma_reparent_keeps_entities(world@, children@[i as int], parent);
            assert(children@.take(i + 1).drop_last() =~= children@.take(i as int));
        }
        set_parent(world, children[i], parent);
        i += 1;
    }
    proof {
        assert(children@.take(i as int) =~= children@);
    }
}

/// The entities of `children` without repetitions: of equal entries the first
/// stays.
pub(crate) fn distinct_entities(children: &[Entity]) -> (batch: Vec<Entity>)
    ensures
        batch@ == distinct(children@),
{
    let mut batch: Vec<Entity> = Vec::new();
    let mut i: usize = 0;
    while i < children.len()
        invariant
            i <= children@.len(),
            batch@ == distinct(children@.take(i as int)),
        decreases children@.len() - i,
    {
        proof {
            assert(children@.take(i + 1).drop_last() =~= children@.take(i as int));
        }
        if is_none_of(batch.as_slice(), &children[i]) {
            batch.push(children[i]);
        }
        i += 1;
    }
    proof {
        assert(children@.take(i as int) =~= children@);
    }
    batch
}

/// Those of `children` that occur in `list`, without repetitions.
pub(crate) fn present_entities(list: &[Entity], children: &[Entity]) -> (found: Vec<Entity>)
    ensures
        found@ == present(list@, children@),
{
    let mut found: Vec<Entity> = Vec::new();
    let mut i: usize = 0;
    while i < children.len()
        invariant
            i <= children@.len(),
            found@ == present(list@, children@.take(i as int)),
        decreases children@.len() - i,
    {
        proof {
            assert(children@.take(i + 1).drop_last() =~= children@.take(i as int));
        }
        if !is_none_of(list, &children[i]) && !occurs_before(children, i, children[i]) {
            found.push(children[i]);
        }
        i += 1;
    }
    proof {
        assert(children@.take(i as int) =~= children@);
    }
    found
}

/// Removes the parent attribute of each entity of `list` in turn and emits one
/// `ChildRemoved` from `parent` for each.
pub(crate) fn detach_children(world: &mut World, parent: Entity, list: &[Entity])
    ensures
        final(world)@ == old(world)@.detach_each(parent, list@),
{
    let mut i: usize = 0;
    while i < list.len()
        invariant
            i <= list@.len(),
            world@ == old(world)@.detach_each(parent, list@.take(i as int)),
        decreases list@.len() - i,
    {
        proof {
            assert(list@.take(i + 1).drop_last() =~= list@.take(i as int));
        }
        let child = list[i];
        world.set_parent_attr(child, None);
        world.send_event(HierarchyEvent::ChildRemoved { child, parent });
        i += 1;
    }
    proof {
        assert(list@.take(i as int) =~= list@);
    }
}

/// Takes those of `children` that `parent` lists out of its list, removes their
/// parent attribute and emits one `ChildRemoved` for each. The others are skipped.
pub(crate) fn remove_children(world: &mut World, parent: Entity, children: &[Entity])
    ensures
        final(world)@ == old(world)@.remove_children(parent, children@),
{
    let found = match world.get_children(parent) {
        Some(list) => present_entities(list.as_slice(), children),
        None => {
            return ;
        },
    };
    let ghost list = old(world)@.children_of(parent).unwrap();
    detach_children(world, parent, found.as_slice());
    proof {
        lemma_detach_each(old(world)@, parent, found@);
    }
    let ghost detached = world@;
    match world.take_children(parent) {
        Some(mut kept) => {
            list_retain_none_of(&mut kept.0, children);
            if !list_is_empty(&kept.0) {
                world.set_children_attr(parent, Some(kept));
            }
            assert(world@.slots =~= detached.with_children(
                parent,
                listed(remove_all(list, children@)),
            ).slots);
        },
        None => {},
    }
}

/// Puts `child` into the list of `parent` at `index`, or at the end where `index`
/// is `None`, after taking any earlier occurrence of `child` out of the list.
pub(crate) fn place_child(world: &mut World, parent: Entity, index: Option<usize>, child: Entity)
    requires
        old(world)@.contains(parent),
        match index {
            Some(i) => i <= old(world)@.kept_children(parent, seq![child]).len(),
            None => true,
        },
    ensures
        final(world)@ == old(world)@.with_children(
            parent,
            Some(
                match index {
                    Some(i) => old(world)@.kept_children(parent, seq![child]).insert(
                        i as int,
                        child,
                    ),
                    None => old(world)@.kept_children(parent, seq![child]).push(child),
                },
            ),
        ),
{
    let one = [child];
    assert(one@ =~= seq![child]);
    let mut children = match world.take_children(parent) {
        Some(mut children) => {
            list_retain_none_of(&mut children.0, one.as_slice());
            children
        },
        None => {
            proof {
                lemma_remove_all_absent(Seq::<Entity>::empty(), seq![child]);
            }
            Children(EntityList::new())
        },
    };
    match index {
        Some(i) => list_insert(&mut children.0, i, child),
        None => list_push(&mut children.0, child),
    }
    let ghost list = children@;
    world.set_children_attr(parent, Some(children));
    assert(world@.slots =~= old(world)@.with_children(parent, Some(list)).slots);
}

/// Puts `batch` into the list of `parent` at `index`, or at the end where `index`
/// is `None`, after taking the entities of `children` out of the list. A list that
/// is empty in the end is removed.
pub(crate) fn place_children(
    world: &mut World,
    parent: Entity,
    index: Option<usize>,
    children: &[Entity],
    batch: &[Entity],
)
    requires
        old(world)@.contains(parent),
        match index {
            Some(i) => i <= old(world)@.kept_children(parent, children@).len(),
            None => true,
        },
    ensures
        final(world)@ == old(world)@.with_children(
            parent,
            listed(
                match index {
                    Some(i) => old(world)@.kept_children(parent, children@).subrange(0, i as int)
                        + batch@ + old(world)@.kept_children(parent, children@).subrange(
                        i as int,
                        old(world)@.kept_children(parent, children@).len() as int,
                    ),
                    None => old(world)@.kept_children(parent, children@) + batch@,
                },
            ),
        ),
{
    let mut list = match world.take_children(parent) {
        Some(mut list) => {
            list_retain_none_of(&mut list.0, children);
            list
        },
        None => {
            proof {
                lemma_remove_all_absent(Seq::<Entity>::empty(), children@);
            }
            Children(EntityList::new())
        },
    };
    match index {
        Some(i) => list_insert_from_slice(&mut list.0, i, batch),
        None => list_extend(&mut list.0, batch),
    }
    let ghost entries = list@;
    if !list_is_empty(&list.0) {
        world.set_children_attr(parent, Some(list));
    }
    assert(world@.slots =~= old(world)@.with_children(parent, listed(entries)).slots);
}

} // verus!
