use vstd::prelude::*;
use crate::child_builder::HierarchyCommands;
use crate::commands::{
    AddChild, AddChildren, CommandQueue, Despawn, HierarchyCommand, InsertChildren, RemoveAllChildren,
    RemoveChild, RemoveChildren, RemoveParent,
};
use crate::components::EntityList;
use crate::entity::Entity;
use crate::world::World;

verus! {

/// Access to a store together with a queue: entities are created at once, so that
/// their identifiers can be named, and structural operations are queued, to be
/// applied when the queue is.
pub struct Commands<'a> {
    /// The queue that takes the operations.
    pub queue: &'a mut CommandQueue,
    /// The store.
    pub world: &'a mut World,
}

impl<'a> Commands<'a> {
    /// Commands that queue into `queue` and create entities in `world`.
    pub fn new(queue: &'a mut CommandQueue, world: &'a mut World) -> (commands: Commands<'a>)
        ensures
            *commands.queue == *old(queue),
            *commands.world == *old(world),
            *final(queue) == *final(commands.queue),
            *final(world) == *final(commands.world),
    {
        Commands { queue, world }
    }

    /// Puts `command` behind the commands that wait.
    pub fn add(&mut self, command: HierarchyCommand)
        ensures
            final(self).queue@ == old(self).queue@.push(command),
            *final(self).world == *old(self).world,
            *final(final(self).queue) == *final(old(self).queue),
            *final(final(self).world) == *final(old(self).world),
    {
        self.queue.push(command);
    }

    /// Creates an entity without parent and children and returns the commands for
    /// it.
    pub fn spawn_empty(&mut self) -> (handle: EntityCommands<'_>)
        ensures
            handle.entity == old(self).world@.next_entity(),
            handle.commands.world@ == old(self).world@.spawn(),
            *handle.commands.queue == *old(self).queue,
            *final(self).queue == *final(handle.commands.queue),
            *final(self).world == *final(handle.commands.world),
            *final(final(self).queue) == *final(old(self).queue),
            *final(final(self).world) == *final(old(self).world),
    {
        let entity = self.world.allocate();
        EntityCommands {
            entity,
            commands: Commands { queue: &mut *self.queue, world: &mut *self.world },
        }
    }

    /// Creates an entity without parent and children, as
    /// [`spawn_empty`](Self::spawn_empty) does.
    pub fn spawn(&mut self) -> (handle: EntityCommands<'_>)
        ensures
            handle.entity == old(self).world@.next_entity(),
            handle.commands.world@ == old(self).world@.spawn(),
            *handle.commands.queue == *old(self).queue,
            *final(self).queue == *final(handle.commands.queue),
            *final(self).world == *final(handle.commands.world),
            *final(final(self).queue) == *final(old(self).queue),
            *final(final(self).world) == *final(old(self).world),
    {
        self.spawn_empty()
    }

    /// Returns the commands for the entity `e`. Whether `e` exists is looked at
    /// when a command is applied, not now.
    pub fn entity(&mut self, e: Entity) -> (handle: EntityCommands<'_>)
        ensures
            handle.entity == e,
            *handle.commands.world == *old(self).world,
            *handle.commands.queue == *old(self).queue,
            *final(self).queue == *final(handle.commands.queue),
            *final(self).world == *final(handle.commands.world),
            *final(final(self).queue) == *final(old(self).queue),
            *final(final(self).world) == *final(old(self).world),
    {
        EntityCommands {
            entity: e,
            commands: Commands { queue: &mut *self.queue, world: &mut *self.world },
        }
    }
}

/// The commands for one entity: each structural operation is queued and applied
/// later, in the order in which the operations were given.
pub struct EntityCommands<'a> {
    /// The entity that the commands are about.
    pub entity: Entity,
    /// The queue and the store.
    pub commands: Commands<'a>,
}

impl<'a> EntityCommands<'a> {
    /// Returns the entity that the commands are about.
    pub fn id(&self) -> (e: Entity)
        ensures
            e == self.entity,
    {
        self.entity
    }

    /// Returns the queue and the store.
    pub fn commands(&mut self) -> (commands: &mut Commands<'a>)
        ensures
            *commands == old(self).commands,
            final(self).commands == *final(commands),
            final(self).entity == old(self).entity,
    {
        &mut self.commands
    }

    /// Queues the destruction of this entity and of all its descendants.
    pub fn despawn(&mut self)
        ensures
            final(self).entity == old(self).entity,
            final(self).commands.queue@ == old(self).commands.queue@.push(
                HierarchyCommand::Despawn(Despawn { entity: old(self).entity }),
            ),
            *final(self).commands.world == *old(self).commands.world,
            *final(final(self).commands.queue) == *final(old(self).commands.queue),
            *final(final(self).commands.world) == *final(old(self).commands.world),
    {
        let entity = self.entity;
        self.commands.add(HierarchyCommand::Despawn(Despawn { entity }));
    }
}

impl<'a> HierarchyCommands for EntityCommands<'a> {
    /// Commands can always be given.
    open spec fn ready(&self) -> bool {
        true
    }

    /// Any entities can be named: whether they exist is looked at when the
    /// command is applied.
    open spec fn accepts(&self, entities: Seq<Entity>) -> bool {
        true
    }

    /// Any position can be named: whether the list has it is looked at when the
    /// command is applied.
    open spec fn accepts_at(&self, index: usize, children: Seq<Entity>) -> bool {
        true
    }

    fn add_child(&mut self, child: Entity) -> (handle: &mut Self)
        ensures
            handle.entity == old(self).entity,
            handle.commands.queue@ == old(self).commands.queue@.push(
                HierarchyCommand::AddChild(AddChild { parent: old(self).entity, child }),
            ),
            *handle.commands.world == *old(self).commands.world,
            *final(handle.commands.queue) == *final(old(self).commands.queue),
            *final(handle.commands.world) == *final(old(self).commands.world),
    {
        let parent = self.entity;
        self.commands.add(HierarchyCommand::AddChild(AddChild { parent, child }));
        self
    }

    fn add_children(&mut self, children: &[Entity]) -> (handle: &mut Self)
        ensures
            handle.entity == old(self).entity,
            handle.commands.queue@.len() == old(self).commands.queue@.len() + 1,
            handle.commands.queue@.drop_last() == old(self).commands.queue@,
            handle.commands.queue@.last() matches HierarchyCommand::AddChildren(command) && command.parent == old(self).entity && command.children@ == children@,
            *handle.commands.world == *old(self).commands.world,
            *final(handle.commands.queue) == *final(old(self).commands.queue),
            *final(handle.commands.world) == *final(old(self).commands.world),
    {
        let parent = self.entity;
        let command = AddChildren { parent, children: EntityList::from_slice(children) };
        self.commands.add(HierarchyCommand::AddChildren(command));
        assert(self.commands.queue@.drop_last() =~= old(self).commands.queue@);
        self
    }

    fn insert_child(&mut self, index: usize, child: Entity) -> (handle: &mut Self)
        ensures
            handle.entity == old(self).entity,
            handle.commands.queue@.len() == old(self).commands.queue@.len() + 1,
            handle.commands.queue@.drop_last() == old(self).commands.queue@,
            handle.commands.queue@.last() matches HierarchyCommand::InsertChildren(command) && command.parent == old(self).entity && command.index == index && command.children@ == seq![child],
            *handle.commands.world == *old(self).commands.world,
            *final(handle.commands.queue) == *final(old(self).commands.queue),
            *final(handle.commands.world) == *final(old(self).commands.world),
    {
        let parent = self.entity;
        let one = [child];
        assert(one@ =~= seq![child]);
        let command = InsertChildren {
            parent,
            index,
            children: EntityList::from_slice(one.as_slice()),
        };
        self.commands.add(HierarchyCommand::InsertChildren(command));
        assert(self.commands.queue@.drop_last() =~= old(self).commands.queue@);
        self
    }

    fn insert_children(&mut self, index: usize, children: &[Entity]) -> (handle: &mut Self)
        ensures
            handle.entity == old(self).entity,
            handle.commands.queue@.len() == old(self).commands.queue@.len() + 1,
            handle.commands.queue@.drop_last() == old(self).commands.queue@,
            handle.commands.queue@.last() matches HierarchyCommand::InsertChildren(command) && command.parent == old(self).entity && command.index == index && command.children@ == children@,
            *handle.commands.world == *old(self).commands.world,
            *final(handle.commands.queue) == *final(old(self).commands.queue),
            *final(handle.commands.world) == *final(old(self).commands.world),
    {
        let parent = self.entity;
        let command = InsertChildren { parent, index, children: EntityList::from_slice(children) };
        self.commands.add(HierarchyCommand::InsertChildren(command));
        assert(self.commands.queue@.drop_last() =~= old(self).commands.queue@);
        self
    }

    fn remove_child(&mut self, child: Entity) -> (handle: &mut Self)
        ensures
            handle.entity == old(self).entity,
            handle.commands.queue@ == old(self).commands.queue@.push(
                HierarchyCommand::RemoveChild(RemoveChild { parent: old(self).entity, child }),
            ),
            *handle.commands.world == *old(self).commands.world,
            *final(handle.commands.queue) == *final(old(self).commands.queue),
            *final(handle.commands.world) == *final(old(self).commands.world),
    {
        let parent = self.entity;
        self.commands.add(HierarchyCommand::RemoveChild(RemoveChild { parent, child }));
        self
    }

    fn remove_children(&mut self, children: &[Entity]) -> (handle: &mut Self)
        ensures
            handle.entity == old(self).entity,
            handle.commands.queue@.len() == old(self).commands.queue@.len() + 1,
            handle.commands.queue@.drop_last() == old(self).commands.queue@,
            handle.commands.queue@.last() matches HierarchyCommand::RemoveChildren(command) && command.parent == old(self).entity && command.children@ == children@,
            *handle.commands.world == *old(self).commands.world,
            *final(handle.commands.queue) == *final(old(self).commands.queue),
            *final(handle.commands.world) == *final(old(self).commands.world),
    {
        let parent = self.entity;
        let command = RemoveChildren { parent, children: EntityList::from_slice(children) };
        self.commands.add(HierarchyCommand::RemoveChildren(command));
        assert(self.commands.queue@.drop_last() =~= old(self).commands.queue@);
        self
    }

    fn remove_all_children(&mut self) -> (handle: &mut Self)
        ensures
            handle.entity == old(self).entity,
            handle.commands.queue@ == old(self).commands.queue@.push(
                HierarchyCommand::RemoveAllChildren(RemoveAllChildren { parent: old(self).entity }),
            ),
            *handle.commands.world == *old(self).commands.world,
            *final(handle.commands.queue) == *final(old(self).commands.queue),
            *final(handle.commands.world) == *final(old(self).commands.world),
    {
        let parent = self.entity;
        self.commands.add(HierarchyCommand::RemoveAllChildren(RemoveAllChildren { parent }));
        self
    }

    fn set_parent(&mut self, parent: Entity) -> (handle: &mut Self)
        ensures
            handle.entity == old(self).entity,
            handle.commands.queue@ == old(self).commands.queue@.push(
                HierarchyCommand::AddChild(AddChild { parent, child: old(self).entity }),
            ),
            *handle.commands.world == *old(self).commands.world,
            *final(handle.commands.queue) == *final(old(self).commands.queue),
            *final(handle.commands.world) == *final(old(self).commands.world),
    {
        let child = self.entity;
        self.commands.add(HierarchyCommand::AddChild(AddChild { parent, child }));
        self
    }

    fn remove_parent(&mut self) -> (handle: &mut Self)
        ensures
            handle.entity == old(self).entity,
            handle.commands.queue@ == old(self).commands.queue@.push(
                HierarchyCommand::RemoveParent(RemoveParent { child: old(self).entity }),
            ),
            *handle.commands.world == *old(self).commands.world,
            *final(handle.commands.queue) == *final(old(self).commands.queue),
            *final(handle.commands.world) == *final(old(self).commands.world),
    {
        let child = self.entity;
        self.commands.add(HierarchyCommand::RemoveParent(RemoveParent { child }));
        self
    }
}

/// Spawns children of one entity through [`Commands`]: each child is created at
/// once and noted, and when the builder is done one [`AddChildren`] for all of
/// them is queued.
pub struct ChildBuilder<'a> {
    /// The queue and the store.
    pub commands: Commands<'a>,
    /// The command that is queued in the end: the parent, and the children
    /// spawned so far.
    pub add_children: AddChildren,
}

impl<'a> ChildBuilder<'a> {
    /// Creates an entity and notes it as a child of the builder's parent.
    pub fn spawn_empty(&mut self) -> (child: EntityCommands<'_>)
        ensures
            child.entity == old(self).commands.world@.next_entity(),
            child.commands.world@ == old(self).commands.world@.spawn(),
            *child.commands.queue == *old(self).commands.queue,
            final(self).add_children.parent == old(self).add_children.parent,
            final(self).add_children.children@ == old(self).add_children.children@.push(
                child.entity,
            ),
            *final(self).commands.queue == *final(child.commands.queue),
            *final(self).commands.world == *final(child.commands.world),
            *final(final(self).commands.queue) == *final(old(self).commands.queue),
            *final(final(self).commands.world) == *final(old(self).commands.world),
    {
        let e = self.commands.spawn_empty();
        self.add_children.children.push(e.id());
        e
    }

    /// Creates an entity and notes it as a child of the builder's parent, as
    /// [`spawn_empty`](Self::spawn_empty) does.
    pub fn spawn(&mut self) -> (child: EntityCommands<'_>)
        ensures
            child.entity == old(self).commands.world@.next_entity(),
            child.commands.world@ == old(self).commands.world@.spawn(),
            *child.commands.queue == *old(self).commands.queue,
            final(self).add_children.parent == old(self).add_children.parent,
            final(self).add_children.children@ == old(self).add_children.children@.push(
                child.entity,
            ),
            *final(self).commands.queue == *final(child.commands.queue),
            *final(self).commands.world == *final(child.commands.world),
            *final(final(self).commands.queue) == *final(old(self).commands.queue),
            *final(final(self).commands.world) == *final(old(self).commands.world),
    {
        self.spawn_empty()
    }

    /// Creates an entity and notes it as a child of the builder's parent. This is
    /// the older name of [`spawn`](Self::spawn).
    pub fn spawn_bundle(&mut self) -> (child: EntityCommands<'_>)
        ensures
            child.entity == old(self).commands.world@.next_entity(),
            child.commands.world@ == old(self).commands.world@.spawn(),
            *child.commands.queue == *old(self).commands.queue,
            final(self).add_children.parent == old(self).add_children.parent,
            final(self).add_children.children@ == old(self).add_children.children@.push(
                child.entity,
            ),
            *final(self).commands.queue == *final(child.commands.queue),
            *final(self).commands.world == *final(child.commands.world),
            *final(final(self).commands.queue) == *final(old(self).commands.queue),
            *final(final(self).commands.world) == *final(old(self).commands.world),
    {
        self.spawn()
    }

    /// Returns the entity whose children the builder spawns.
    pub fn parent_id(&self) -> (parent: Entity)
        ensures
            parent == self.add_children.parent,
    {
        self.add_children.parent
    }

    /// Returns the queue and the store.
    pub fn commands(&mut self) -> (commands: &mut Commands<'a>)
        ensures
            *commands == old(self).commands,
            final(self).commands == *final(commands),
            final(self).add_children == old(self).add_children,
    {
        &mut self.commands
    }
}

/// Spawning children of an entity through [`Commands`].
pub trait HierachyEntityCommandsExt: Sized {
    /// The entity that the commands are about.
    spec fn target(&self) -> Entity;

    /// The queue and the store as the handle has them.
    spec fn reach(&self) -> (CommandQueue, World);

    /// Hands a [`ChildBuilder`] for this entity to `spawn_children` and then
    /// queues one [`AddChildren`] for the children that the builder noted.
    ///
    /// The closure has to accept a builder for this entity, on this queue and
    /// store, that has noted no child yet, and to leave the builder on the same
    /// queue and store. The store is left as the closure left the builder's, and
    /// the queue as the closure left it with the builder's command behind it.
    fn with_children<F: FnOnce(&mut ChildBuilder)>(&mut self, spawn_children: F) -> (handle:
        &mut Self)
        requires
            forall|b: &mut ChildBuilder|
                {
                    &&& b.add_children.parent == old(self).target()
                    &&& b.add_children.children@.len() == 0
                    &&& *b.commands.queue == old(self).reach().0
                    &&& *b.commands.world == old(self).reach().1
                } ==> call_requires(spawn_children, (b,)),
            forall|b: &mut ChildBuilder| #[trigger]
                call_ensures(spawn_children, (b,), ()) ==> {
                    &&& *final(final(b).commands.queue) == *final(b.commands.queue)
                    &&& *final(final(b).commands.world) == *final(b.commands.world)
                },
        ensures
            handle.target() == old(self).target(),
            exists|b: &mut ChildBuilder|
                {
                    &&& b.add_children.parent == old(self).target()
                    &&& b.add_children.children@.len() == 0
                    &&& *b.commands.queue == old(self).reach().0
                    &&& *b.commands.world == old(self).reach().1
                    &&& #[trigger] call_ensures(spawn_children, (b,), ())
                    &&& handle.reach().1 == *final(b).commands.world
                    &&& handle.reach().0@ == final(b).commands.queue@.push(
                        HierarchyCommand::AddChildren(final(b).add_children),
                    )
                },
            *final(self) == *final(handle),
    ;
}

impl<'a> HierachyEntityCommandsExt for EntityCommands<'a> {
    open spec fn target(&self) -> Entity {
        self.entity
    }

    open spec fn reach(&self) -> (CommandQueue, World) {
        (*self.commands.queue, *self.commands.world)
    }

    fn with_children<F: FnOnce(&mut ChildBuilder)>(&mut self, spawn_children: F) -> (handle:
        &mut Self)
        ensures
            *final(handle.commands.queue) == *final(old(self).commands.queue),
            *final(handle.commands.world) == *final(old(self).commands.world),
    {
        let parent = self.entity;
        let children = {
            let mut builder = ChildBuilder {
                commands: Commands {
                    queue: &mut *self.commands.queue,
                    world: &mut *self.commands.world,
                },
                add_children: AddChildren { children: EntityList::new(), parent },
            };
            let builder_ref = &mut builder;
            assert(builder_ref.add_children.children@.len() == 0);
            spawn_children(builder_ref);
            builder.add_children
        };
        self.commands.add(HierarchyCommand::AddChildren(children));
        self
    }
}

} // verus!
