use vstd::prelude::*;
use crate::deferred::EntityCommands;
use crate::mutation::remove_child;
use crate::commands::HierarchyCommand;
use crate::entity::Entity;
use crate::events::HierarchyEvent;
use crate::laws::{lemma_despawn, lemma_despawn_descendants, lemma_drain_frame};
use crate::model::{lemma_destroy_live_count, live_count};
use crate::world::{EntityMut, World};

verus! {

/// What happens when an entity is about to lose its children attribute: each of
/// its children is queued for destruction. Nothing is destroyed yet, so the
/// destruction of a deep subtree never nests calls.
pub(crate) fn on_remove_children(world: &World, entity: Entity, queue: &mut Vec<Entity>)
    ensures
        final(queue)@ == old(queue)@ + world@.child_list(entity),
{
    match world.get_children(entity) {
        Some(children) => {
            let list = children.as_slice();
            let mut i: usize = 0;
            while i < list.len()
                invariant
                    i <= list@.len(),
                    queue@ == old(queue)@ + list@.take(i as int),
                decreases list@.len() - i,
            {
                queue.push(list[i]);
                proof {
                    assert(list@.take(i + 1) =~= list@.take(i as int).push(list@[i as int]));
                }
                i += 1;
            }
            proof {
                assert(list@.take(i as int) =~= list@);
            }
        },
        None => {
            assert(old(queue)@ + Seq::<Entity>::empty() =~= old(queue)@);
        },
    }
}

/// What happens when an entity is about to lose its parent attribute: the removal
/// is reported, and the entity leaves the list of its parent if that parent still
/// exists.
pub(crate) fn on_remove_parent(world: &mut World, entity: Entity)
    ensures
        final(world)@ == old(world)@.parent_removed(entity),
{
    match world.get_parent(entity) {
        Some(parent) => {
            let parent = parent.get();
            world.send_event(HierarchyEvent::ChildRemoved { child: entity, parent });
            if world.contains(parent) {
                remove_child(world, parent, entity);
            }
        },
        None => {},
    }
}

/// Destroys the entities of `queue` first to last, each with its descendants.
pub(crate) fn destroy_queued(world: &mut World, queue: Vec<Entity>)
    ensures
        final(world)@ == old(world)@.drain(queue@),
{
    let mut queue = queue;
    let ghost start = queue@;
    let mut next: usize = 0;
    assert(queue@.subrange(0, queue@.len() as int) =~= queue@);
    while next < queue.len()
        invariant
            next <= queue@.len(),
            world@.drain(queue@.subrange(next as int, queue@.len() as int)) == old(world)@.drain(
                start,
            ),
        decreases live_count(world@.slots), queue@.len() - next,
    {
        let entity = queue[next];
        let ghost before = world@;
        let ghost waiting = queue@.subrange(next as int, queue@.len() as int);
        let ghost rest = queue@.subrange(next + 1, queue@.len() as int);
        assert(waiting.first() == entity);
        assert(waiting.drop_first() =~= rest);
        next += 1;
        if world.contains(entity) {
            on_remove_children(world, entity, &mut queue);
            on_remove_parent(world, entity);
            world.vacate(entity);
            proof {
                lemma_destroy_live_count(before, entity);
                assert(world@ == before.destroy(entity));
                assert(queue@.subrange(next as int, queue@.len() as int) =~= rest
                    + before.child_list(entity));
            }
        }
    }
    assert(queue@.subrange(next as int, queue@.len() as int) =~= Seq::<Entity>::empty());
}

impl World {
    /// Destroys `e` and all its descendants, and tells whether `e` existed.
    ///
    /// Each entity that is destroyed while it has a parent is reported as removed
    /// from it. Destroying an entity that does not exist changes nothing.
    pub fn despawn(&mut self, e: Entity) -> (existed: bool)
        ensures
            existed == old(self)@.contains(e),
            final(self)@ == old(self)@.despawn(e),
            old(self)@.wf() ==> final(self)@.wf(),
            !final(self)@.contains(e),
    {
        proof {
            if self@.wf() {
                lemma_despawn(self@, e);
            }
            lemma_drain_frame(self@, seq![e]);
            assert(seq![e][0] == e);
            assert(seq![e].contains(e));
            assert(!self@.despawn(e).contains(e));
        }
        let existed = self.contains(e);
        let mut queue: Vec<Entity> = Vec::new();
        queue.push(e);
        assert(queue@ =~= seq![e]);
        destroy_queued(self, queue);
        existed
    }
}

/// Command that destroys the descendants of an entity.
#[derive(Debug)]
pub struct DespawnChildrenRecursive {
    /// The entity whose descendants are destroyed.
    pub entity: Entity,
}

/// Destroying the descendants of an entity.
pub trait DespawnRecursiveExt: Sized {
    /// Destroys all descendants of this entity.
    fn despawn_descendants(&mut self) -> (handle: &mut Self)
        ensures
            *final(self) == *final(handle),
    ;
}

impl<'w> DespawnRecursiveExt for EntityMut<'w> {
    /// Works on the store at once: the entity loses its children attribute, and
    /// every descendant is destroyed and reported as removed from its parent.
    fn despawn_descendants(&mut self) -> (handle: &mut Self)
        ensures
            handle.entity == old(self).entity,
            handle.world@ == old(self).world@.despawn_descendants(old(self).entity),
            old(self).world@.wf() ==> handle.world@.wf(),
            *final(handle.world) == *final(old(self).world),
    {
        let entity = self.entity;
        proof {
            if self.world@.wf() {
                lemma_despawn_descendants(self.world@, entity);
            }
        }
        let mut queue: Vec<Entity> = Vec::new();
        on_remove_children(self.world, entity, &mut queue);
        assert(queue@ =~= self.world@.child_list(entity));
        match self.world.take_children(entity) {
            Some(_) => {
                destroy_queued(self.world, queue);
            },
            None => {
                assert(self.world@.slots =~= old(self).world@.slots);
            },
        }
        self
    }
}

impl<'a> DespawnRecursiveExt for EntityCommands<'a> {
    /// Queues the destruction of the descendants of this entity.
    fn despawn_descendants(&mut self) -> (handle: &mut Self)
        ensures
            handle.entity == old(self).entity,
            handle.commands.queue@ == old(self).commands.queue@.push(
                HierarchyCommand::DespawnChildrenRecursive(
                    DespawnChildrenRecursive { entity: old(self).entity },
                ),
            ),
            *handle.commands.world == *old(self).commands.world,
            *final(handle.commands.queue) == *final(old(self).commands.queue),
            *final(handle.commands.world) == *final(old(self).commands.world),
    {
        let entity = self.entity;
        self.commands.add(
            HierarchyCommand::DespawnChildrenRecursive(DespawnChildrenRecursive { entity }),
        );
        self
    }
}

} // verus!
