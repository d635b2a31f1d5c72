use vstd::prelude::*;
use crate::components::{Children, Parent};
use crate::entity::Entity;
use crate::events::HierarchyEvent;
use crate::laws::lemma_spawn_wf;
use crate::model::{fresh, vacant, SlotView, WorldView};

verus! {

/// The entity that a parent attribute names, where there is an attribute.
pub open spec fn target_of(parent: Option<Parent>) -> Option<Entity> {
    match parent {
        Some(p) => Some(p.0),
        None => None,
    }
}

/// The entries of a children attribute, where there is an attribute.
pub open spec fn list_of(children: Option<Children>) -> Option<Seq<Entity>> {
    match children {
        Some(c) => Some(c@),
        None => None,
    }
}

/// What the store keeps for one index.
struct Slot {
    alive: bool,
    parent: Option<Parent>,
    children: Option<Children>,
}

impl View for Slot {
    type V = SlotView;

    closed spec fn view(&self) -> SlotView {
        SlotView {
            alive: self.alive,
            parent: target_of(self.parent),
            children: list_of(self.children),
        }
    }
}

/// The entity store: the entities that exist, the parent and the children of each,
/// and the hierarchy events emitted so far.
///
/// An entity is an index into an arena of slots. A slot is never reused, so the
/// identifier of a destroyed entity never comes to life again.
pub struct World {
    slots: Vec<Slot>,
    events: Vec<HierarchyEvent>,
}

impl View for World {
    type V = WorldView;

    closed spec fn view(&self) -> WorldView {
        WorldView {
            slots: Seq::new(self.slots@.len(), |i: int| self.slots@[i]@),
            events: self.events@,
        }
    }
}

/// A handle to one entity of a store, with exclusive access to the store for as
/// long as the handle lives.
pub struct EntityMut<'w> {
    /// The store.
    pub world: &'w mut World,
    /// The entity that the handle stands for.
    pub entity: Entity,
}

impl<'w> EntityMut<'w> {
    /// Returns the entity that the handle stands for.
    pub fn id(&self) -> (e: Entity)
        ensures
            e == self.entity,
    {
        self.entity
    }
}

impl World {
    /// Creates an entity without parent and children and returns a handle to it.
    pub fn spawn_empty(&mut self) -> (handle: EntityMut<'_>)
        ensures
            handle.entity == old(self)@.next_entity(),
            handle.world@ == old(self)@.spawn(),
            handle.world@.contains(handle.entity),
            old(self)@.wf() ==> handle.world@.wf(),
            *final(self) == *final(handle.world),
    {
        let entity = self.allocate();
        proof {
            if old(self)@.wf() {
                lemma_spawn_wf(old(self)@);
            }
        }
        EntityMut { world: self, entity }
    }

    /// Returns a handle to the entity `e`, which has to exist.
    pub fn entity_mut(&mut self, e: Entity) -> (handle: EntityMut<'_>)
        requires
            old(self)@.contains(e),
        ensures
            handle.entity == e,
            *handle.world == *old(self),
            *final(self) == *final(handle.world),
    {
        EntityMut { world: self, entity: e }
    }

    /// Returns a handle to the entity `e` if it exists.
    pub fn get_entity_mut(&mut self, e: Entity) -> (handle: Option<EntityMut<'_>>)
        ensures
            handle.is_some() == old(self)@.contains(e),
            match handle {
                Some(h) => {
                    &&& h.entity == e
                    &&& *h.world == *old(self)
                    &&& *final(self) == *final(h.world)
                },
                None => *final(self) == *old(self),
            },
    {
        if self.contains(e) {
            Some(EntityMut { world: self, entity: e })
        } else {
            None
        }
    }

    /// A store without entities and without events.
    pub fn new() -> (world: World)
        ensures
            world@.slots.len() == 0,
            world@.events.len() == 0,
            world@.wf(),
    {
        World { slots: Vec::new(), events: Vec::new() }
    }

    /// Whether `e` exists.
    pub fn contains(&self, e: Entity) -> (found: bool)
        ensures
            found == self@.contains(e),
    {
        e.index < self.slots.len() && self.slots[e.index].alive
    }

    /// The parent attribute of `e`, where it has one.
    pub fn get_parent(&self, e: Entity) -> (parent: Option<Parent>)
        ensures
            target_of(parent) == self@.parent_of(e),
    {
        if e.index < self.slots.len() {
            self.slots[e.index].parent
        } else {
            None
        }
    }

    /// The children attribute of `e`, where it has one.
    pub fn get_children(&self, e: Entity) -> (children: Option<&Children>)
        ensures
            match children {
                Some(c) => self@.children_of(e) == Some(c@),
                None => self@.children_of(e).is_none(),
            },
    {
        if e.index < self.slots.len() {
            self.slots[e.index].children.as_ref()
        } else {
            None
        }
    }

    /// The events emitted so far, oldest first.
    pub fn events(&self) -> (events: &[HierarchyEvent])
        ensures
            events@ == self@.events,
    {
        self.events.as_slice()
    }

    /// Hands the events emitted so far out, oldest first, and leaves none behind.
    pub fn drain_events(&mut self) -> (events: Vec<HierarchyEvent>)
        ensures
            events@ == old(self)@.events,
            final(self)@ == (WorldView { events: Seq::empty(), ..old(self)@ }),
    {
        let mut events: Vec<HierarchyEvent> = Vec::new();
        core::mem::swap(&mut self.events, &mut events);
        assert(self@.slots =~= old(self)@.slots);
        events
    }

    /// Creates an entity without parent and children and returns its identifier.
    pub(crate) fn allocate(&mut self) -> (e: Entity)
        ensures
            e == old(self)@.next_entity(),
            e.index == old(self)@.slots.len(),
            final(self)@ == old(self)@.spawn(),
            final(self)@.contains(e),
    {
        let index = self.slots.len();
        self.slots.push(Slot { alive: true, parent: None, children: None });
        assert(self@.slots =~= old(self)@.slots.push(fresh()));
        Entity { index }
    }

    /// Sets or removes the parent attribute of `e`, if the store has a slot for `e`.
    pub(crate) fn set_parent_attr(&mut self, e: Entity, parent: Option<Parent>)
        ensures
            final(self)@ == old(self)@.with_parent(e, target_of(parent)),
    {
        if e.index < self.slots.len() {
            self.slots[e.index].parent = parent;
            assert(self@.slots =~= old(self)@.with_parent(e, target_of(parent)).slots);
        }
    }

    /// Takes the children attribute of `e` out of the store.
    pub(crate) fn take_children(&mut self, e: Entity) -> (children: Option<Children>)
        ensures
            final(self)@ == old(self)@.with_children(e, None),
            list_of(children) == old(self)@.children_of(e),
    {
        if e.index < self.slots.len() {
            let children = self.slots[e.index].children.take();
            assert(self@.slots =~= old(self)@.with_children(e, None).slots);
            children
        } else {
            None
        }
    }

    /// Sets or removes the children attribute of `e`, if the store has a slot for
    /// `e`.
    pub(crate) fn set_children_attr(&mut self, e: Entity, children: Option<Children>)
        ensures
            final(self)@ == old(self)@.with_children(e, list_of(children)),
    {
        if e.index < self.slots.len() {
            let ghost list = list_of(children);
            self.slots[e.index].children = children;
            assert(self@.slots =~= old(self)@.with_children(e, list).slots);
        }
    }

    /// Marks the slot of `e` as vacant and drops its attributes.
    pub(crate) fn vacate(&mut self, e: Entity)
        requires
            e.index < old(self)@.slots.len(),
        ensures
            final(self)@ == (WorldView {
                slots: old(self)@.slots.update(e.index as int, vacant()),
                ..old(self)@
            }),
    {
        self.slots[e.index] = Slot { alive: false, parent: None, children: None };
        assert(self@.slots =~= old(self)@.slots.update(e.index as int, vacant()));
    }

    /// Emits `event`.
    pub(crate) fn send_event(&mut self, event: HierarchyEvent)
        ensures
            final(self)@ == old(self)@.emit(event),
    {
        self.events.push(event);
    }
}

impl Default for World {
    fn default() -> (world: World)
        ensures
            world@.slots.len() == 0,
            world@.events.len() == 0,
            world@.wf(),
    {
        World::new()
    }
}

} // verus!
