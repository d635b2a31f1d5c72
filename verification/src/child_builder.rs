use vstd::prelude::*;
use crate::components::Parent;
use crate::entity::Entity;
use crate::events::HierarchyEvent;
use crate::laws::{
    lemma_add_child_wf, lemma_add_children_wf, lemma_insert_child_wf, lemma_insert_children_wf,
    lemma_remove_all_children_wf, lemma_remove_children_wf, lemma_remove_parent_wf, lemma_reparent,
    lemma_reparent_all, lemma_spawn_child_wf,
};
use crate::mutation::{
    add_child_unchecked, detach_children, distinct_entities, place_child, place_children,
    remove_child, remove_children, set_parent, update_parent_components,
};
use crate::world::{EntityMut, World};

verus! {

/// The structural operations on one entity: giving it children, taking them away,
/// and setting or clearing its parent.
///
/// A handle that works on the store at once and a handle that queues the
/// operation for later both offer them. What an operation does to the store is
/// stated by the [`WorldView`] function of the same name; each implementation says
/// when that happens.
pub trait HierarchyCommands: Sized {
    /// Whether the handle can be used: what it stands on is in order.
    spec fn ready(&self) -> bool;

    /// Whether the handle takes `entities` as the entities that an operation names.
    spec fn accepts(&self, entities: Seq<Entity>) -> bool;

    /// Whether the handle takes `children` for insertion at position `index`.
    spec fn accepts_at(&self, index: usize, children: Seq<Entity>) -> bool;

    /// Makes `child` the last child of this entity.
    fn add_child(&mut self, child: Entity) -> (handle: &mut Self)
        requires
            old(self).ready(),
            old(self).accepts(seq![child]),
        ensures
            handle.ready(),
            *final(self) == *final(handle),
    ;

    /// Makes `children`, without repetitions, the last children of this entity. Of
    /// an entity that `children` names more than once the first occurrence counts.
    fn add_children(&mut self, children: &[Entity]) -> (handle: &mut Self)
        requires
            old(self).ready(),
            old(self).accepts(children@),
        ensures
            handle.ready(),
            *final(self) == *final(handle),
    ;

    /// Makes `child` the child of this entity at position `index`.
    ///
    /// If `child` is in the list already it is taken out first, and `index` counts
    /// in the list that is left: an entry behind the old place of `child` is then
    /// one position further to the front than before.
    fn insert_child(&mut self, index: usize, child: Entity) -> (handle: &mut Self)
        requires
            old(self).ready(),
            old(self).accepts_at(index, seq![child]),
        ensures
            handle.ready(),
            *final(self) == *final(handle),
    ;

    /// Makes `children`, without repetitions, children of this entity from
    /// position `index` on.
    ///
    /// Of an entity that `children` names more than once the first occurrence
    /// counts. Those of `children` that are in the list already are taken out
    /// first, and `index` counts in the list that is left.
    fn insert_children(&mut self, index: usize, children: &[Entity]) -> (handle: &mut Self)
        requires
            old(self).ready(),
            old(self).accepts_at(index, children@),
        ensures
            handle.ready(),
            *final(self) == *final(handle),
    ;

    /// Takes `child` away from this entity if it is one of its children.
    fn remove_child(&mut self, child: Entity) -> (handle: &mut Self)
        requires
            old(self).ready(),
        ensures
            handle.ready(),
            *final(self) == *final(handle),
    ;

    /// Takes those of `children` away from this entity that are its children.
    fn remove_children(&mut self, children: &[Entity]) -> (handle: &mut Self)
        requires
            old(self).ready(),
        ensures
            handle.ready(),
            *final(self) == *final(handle),
    ;

    /// Takes all children away from this entity. They stay alive.
    fn remove_all_children(&mut self) -> (handle: &mut Self)
        requires
            old(self).ready(),
        ensures
            handle.ready(),
            *final(self) == *final(handle),
    ;

    /// Makes this entity the last child of `parent`.
    fn set_parent(&mut self, parent: Entity) -> (handle: &mut Self)
        requires
            old(self).ready(),
            old(self).accepts(seq![parent]),
        ensures
            handle.ready(),
            *final(self) == *final(handle),
    ;

    /// Takes the parent of this entity away, if it has one.
    fn remove_parent(&mut self) -> (handle: &mut Self)
        requires
            old(self).ready(),
        ensures
            handle.ready(),
            *final(self) == *final(handle),
    ;
}

impl<'w> HierarchyCommands for EntityMut<'w> {
    /// The store is well-formed and the entity exists.
    open spec fn ready(&self) -> bool {
        self.world@.wf() && self.world@.contains(self.entity)
    }

    /// The entities exist.
    open spec fn accepts(&self, entities: Seq<Entity>) -> bool {
        self.world@.holds_all(entities)
    }

    /// The entities exist, and `index` is a position of the list that is left
    /// when they are taken out of it, or its end.
    open spec fn accepts_at(&self, index: usize, children: Seq<Entity>) -> bool {
        self.world@.holds_all(children) && index <= self.world@.kept_children(
            self.entity,
            children,
        ).len()
    }

    fn add_child(&mut self, child: Entity) -> (handle: &mut Self)
        ensures
            handle.entity == old(self).entity,
            handle.world@ == old(self).world@.add_child(old(self).entity, child),
            *final(handle.world) == *final(old(self).world),
    {
        let parent = self.entity;
        proof {
            assert(seq![child][0] == child);
            lemma_add_child_wf(self.world@, parent, child);
            lemma_reparent(self.world@, child, parent, Seq::empty());
        }
        set_parent(self.world, child, parent);
        place_child(self.world, parent, None, child);
        self
    }

    fn add_children(&mut self, children: &[Entity]) -> (handle: &mut Self)
        ensures
            handle.entity == old(self).entity,
            handle.world@ == old(self).world@.add_children(old(self).entity, children@),
            *final(handle.world) == *final(old(self).world),
    {
        let parent = self.entity;
        proof {
            lemma_add_children_wf(self.world@, parent, children@);
            lemma_reparent_all(self.world@, parent, children@);
        }
        update_parent_components(self.world, parent, children);
        let batch = distinct_entities(children);
        place_children(self.world, parent, None, children, batch.as_slice());
        self
    }

    fn insert_child(&mut self, index: usize, child: Entity) -> (handle: &mut Self)
        ensures
            handle.entity == old(self).entity,
            handle.world@ == old(self).world@.insert_child(old(self).entity, index, child),
            *final(handle.world) == *final(old(self).world),
    {
        let parent = self.entity;
        proof {
            assert(seq![child][0] == child);
            lemma_insert_child_wf(self.world@, parent, index, child);
            lemma_reparent(self.world@, child, parent, Seq::empty());
        }
        set_parent(self.world, child, parent);
        place_child(self.world, parent, Some(index), child);
        self
    }

    fn insert_children(&mut self, index: usize, children: &[Entity]) -> (handle: &mut Self)
        ensures
            handle.entity == old(self).entity,
            handle.world@ == old(self).world@.insert_children(old(self).entity, index, children@),
            *final(handle.world) == *final(old(self).world),
    {
        let parent = self.entity;
        proof {
            lemma_insert_children_wf(self.world@, parent, index, children@);
            lemma_reparent_all(self.world@, parent, children@);
        }
        update_parent_components(self.world, parent, children);
        let batch = distinct_entities(children);
        place_children(self.world, parent, Some(index), children, batch.as_slice());
        self
    }

    fn remove_child(&mut self, child: Entity) -> (handle: &mut Self)
        ensures
            handle.entity == old(self).entity,
            handle.world@ == old(self).world@.remove_child(old(self).entity, child),
            *final(handle.world) == *final(old(self).world),
    {
        let parent = self.entity;
        proof {
            lemma_remove_children_wf(self.world@, parent, seq![child]);
        }
        let one = [child];
        assert(one@ =~= seq![child]);
        remove_children(self.world, parent, one.as_slice());
        self
    }

    fn remove_children(&mut self, children: &[Entity]) -> (handle: &mut Self)
        ensures
            handle.entity == old(self).entity,
            handle.world@ == old(self).world@.remove_children(old(self).entity, children@),
            *final(handle.world) == *final(old(self).world),
    {
        let parent = self.entity;
        proof {
            lemma_remove_children_wf(self.world@, parent, children@);
        }
        remove_children(self.world, parent, children);
        self
    }

    fn remove_all_children(&mut self) -> (handle: &mut Self)
        ensures
            handle.entity == old(self).entity,
            handle.world@ == old(self).world@.remove_all_children(old(self).entity),
            *final(handle.world) == *final(old(self).world),
    {
        let parent = self.entity;
        proof {
            lemma_remove_all_children_wf(self.world@, parent);
        }
        match self.world.take_children(parent) {
            Some(children) => {
                detach_children(self.world, parent, children.as_slice());
            },
            None => {
                assert(self.world@.slots =~= old(self).world@.slots);
            },
        }
        self
    }

    fn set_parent(&mut self, parent: Entity) -> (handle: &mut Self)
        ensures
            handle.entity == old(self).entity,
            handle.world@ == old(self).world@.add_child(parent, old(self).entity),
            *final(handle.world) == *final(old(self).world),
    {
        let child = self.entity;
        proof {
            assert(seq![parent][0] == parent);
            lemma_add_child_wf(self.world@, parent, child);
            lemma_reparent(self.world@, child, parent, Seq::empty());
        }
        set_parent(self.world, child, parent);
        place_child(self.world, parent, None, child);
        self
    }

    fn remove_parent(&mut self) -> (handle: &mut Self)
        ensures
            handle.entity == old(self).entity,
            handle.world@ == old(self).world@.remove_parent(old(self).entity),
            *final(handle.world) == *final(old(self).world),
    {
        let child = self.entity;
        proof {
            lemma_remove_parent_wf(self.world@, child);
        }
        match self.world.get_parent(child) {
            Some(parent) => {
                let parent = parent.get();
                self.world.set_parent_attr(child, None);
                remove_child(self.world, parent, child);
                self.world.send_event(HierarchyEvent::ChildRemoved { child, parent });
            },
            None => {},
        }
        self
    }
}

/// Spawns children of one entity directly in the store.
///
/// The builder has exclusive access to the store for as long as it lives, so
/// nothing else can touch the parent's list while the children are made.
pub struct WorldChildBuilder<'w> {
    /// The store.
    pub world: &'w mut World,
    /// The entity whose children are spawned.
    pub parent: Entity,
}

impl<'w> WorldChildBuilder<'w> {
    /// Whether the builder can be used: the store is well-formed and the parent
    /// exists.
    pub open spec fn ready(&self) -> bool {
        self.world@.wf() && self.world@.contains(self.parent)
    }

    /// Creates an entity as the last child of the builder's parent and returns a
    /// handle to it. The entity has its parent attribute, is in the parent's list
    /// and is reported as added before the handle is returned.
    pub fn spawn_empty(&mut self) -> (child: EntityMut<'_>)
        requires
            old(self).ready(),
        ensures
            child.entity == old(self).world@.next_entity(),
            child.world@ == old(self).world@.spawn_child(old(self).parent),
            child.world@.wf(),
            child.world@.contains(child.entity),
            child.world@.contains(old(self).parent),
            final(self).parent == old(self).parent,
            *final(self).world == *final(child.world),
            *final(final(self).world) == *final(old(self).world),
    {
        let parent = self.parent;
        let ghost before = self.world@;
        let child = self.world.allocate();
        proof {
            lemma_spawn_child_wf(before, parent);
        }
        self.world.set_parent_attr(child, Some(Parent(parent)));
        assert(self.world@.child_list(parent) == before.child_list(parent));
        add_child_unchecked(self.world, parent, child);
        self.world.send_event(HierarchyEvent::ChildAdded { child, parent });
        EntityMut { world: &mut *self.world, entity: child }
    }

    /// Creates an entity as the last child of the builder's parent, as
    /// [`spawn_empty`](Self::spawn_empty) does.
    pub fn spawn(&mut self) -> (child: EntityMut<'_>)
        requires
            old(self).ready(),
        ensures
            child.entity == old(self).world@.next_entity(),
            child.world@ == old(self).world@.spawn_child(old(self).parent),
            child.world@.wf(),
            child.world@.contains(child.entity),
            child.world@.contains(old(self).parent),
            final(self).parent == old(self).parent,
            *final(self).world == *final(child.world),
            *final(final(self).world) == *final(old(self).world),
    {
        self.spawn_empty()
    }

    /// Creates an entity as the last child of the builder's parent. This is the
    /// older name of [`spawn`](Self::spawn).
    pub fn spawn_bundle(&mut self) -> (child: EntityMut<'_>)
        requires
            old(self).ready(),
        ensures
            child.entity == old(self).world@.next_entity(),
            child.world@ == old(self).world@.spawn_child(old(self).parent),
            child.world@.wf(),
            child.world@.contains(child.entity),
            child.world@.contains(old(self).parent),
            final(self).parent == old(self).parent,
            *final(self).world == *final(child.world),
            *final(final(self).world) == *final(old(self).world),
    {
        self.spawn()
    }

    /// Returns the entity whose children the builder spawns.
    pub fn parent_id(&self) -> (parent: Entity)
        ensures
            parent == self.parent,
    {
        self.parent
    }
}

/// Spawning children of an entity directly in the store.
pub trait HierachyEntityMutExt: Sized {
    /// The entity that the handle stands for.
    spec fn target(&self) -> Entity;

    /// The store as the handle has it.
    spec fn store(&self) -> World;

    /// Hands a [`WorldChildBuilder`] for this entity to `spawn_children`.
    ///
    /// The store has to be well-formed and the entity has to exist. The closure
    /// has to accept a ready builder for this entity on this store, and to leave
    /// it ready, with the same parent and on the same store. The store is then
    /// left as the closure left the builder's.
    fn with_children<F: FnOnce(&mut WorldChildBuilder)>(&mut self, spawn_children: F) -> (handle:
        &mut Self)
        requires
            old(self).store()@.wf(),
            old(self).store()@.contains(old(self).target()),
            forall|b: &mut WorldChildBuilder|
                b.ready() && b.parent == old(self).target() && *b.world == old(self).store()
                    ==> call_requires(spawn_children, (b,)),
            forall|b: &mut WorldChildBuilder|
                b.ready() && #[trigger] call_ensures(spawn_children, (b,), ()) ==> {
                    &&& final(b).ready()
                    &&& final(b).parent == b.parent
                    &&& *final(final(b).world) == *final(b.world)
                },
        ensures
            handle.store()@.wf(),
            handle.store()@.contains(handle.target()),
            handle.target() == old(self).target(),
            exists|b: &mut WorldChildBuilder|
                {
                    &&& b.parent == old(self).target()
                    &&& *b.world == old(self).store()
                    &&& #[trigger] call_ensures(spawn_children, (b,), ())
                    &&& handle.store() == *final(b).world
                },
            *final(self) == *final(handle),
    ;
}

impl<'w> HierachyEntityMutExt for EntityMut<'w> {
    open spec fn target(&self) -> Entity {
        self.entity
    }

    open spec fn store(&self) -> World {
        *self.world
    }

    fn with_children<F: FnOnce(&mut WorldChildBuilder)>(&mut self, spawn_children: F) -> (handle:
        &mut Self)
        ensures
            *final(handle.world) == *final(old(self).world),
    {
        {
            let entity = self.entity;
            let mut builder = WorldChildBuilder { world: &mut *self.world, parent: entity };
            let builder = &mut builder;
            assert(builder.ready());
            spawn_children(builder);
        }
        self
    }
}

} // verus!
