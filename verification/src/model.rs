use vstd::prelude::*;
use crate::components::remove_all;
use crate::entity::Entity;
use crate::events::HierarchyEvent;

verus! {

/// What the store holds for one index.
pub struct SlotView {
    /// Whether the entity of this index exists.
    pub alive: bool,
    /// The entity's parent, where it has one.
    pub parent: Option<Entity>,
    /// The entity's children in order, where it has any.
    pub children: Option<Seq<Entity>>,
}

/// The mathematical content of a [`World`](crate::world::World): one slot for each
/// index ever handed out, and the events emitted so far, oldest first.
pub struct WorldView {
    /// The slots, by entity index.
    pub slots: Seq<SlotView>,
    /// The events, in the order in which they were emitted.
    pub events: Seq<HierarchyEvent>,
}

/// The slot of an entity that does not exist.
pub open spec fn vacant() -> SlotView {
    SlotView { alive: false, parent: None, children: None }
}

/// The slot of an entity that was just created.
pub open spec fn fresh() -> SlotView {
    SlotView { alive: true, parent: None, children: None }
}

/// A children list as the store keeps it: an empty list is no list.
pub open spec fn listed(list: Seq<Entity>) -> Option<Seq<Entity>> {
    if list.len() == 0 {
        None
    } else {
        Some(list)
    }
}

/// `list` without repetitions: of equal entries the first stays.
pub open spec fn distinct(list: Seq<Entity>) -> Seq<Entity>
    decreases list.len(),
{
    if list.len() == 0 {
        list
    } else {
        let init = distinct(list.drop_last());
        if init.contains(list.last()) {
            init
        } else {
            init.push(list.last())
        }
    }
}

/// Those of `children` that occur in `list`, without repetitions, in the order of
/// `children`.
pub open spec fn present(list: Seq<Entity>, children: Seq<Entity>) -> Seq<Entity>
    decreases children.len(),
{
    if children.len() == 0 {
        children
    } else {
        let init = present(list, children.drop_last());
        if list.contains(children.last()) && !children.drop_last().contains(children.last()) {
            init.push(children.last())
        } else {
            init
        }
    }
}

/// [`distinct`] keeps every entity of the list and names none twice.
pub proof fn lemma_distinct(list: Seq<Entity>)
    ensures
        forall|e: Entity| #[trigger] distinct(list).contains(e) <==> list.contains(e),
        distinct(list).no_duplicates(),
        distinct(list).len() <= list.len(),
    decreases list.len(),
{
    if list.len() > 0 {
        let init = list.drop_last();
        lemma_distinct(init);
        let short = distinct(init);
        let all = distinct(list);
        assert forall|e: Entity| #[trigger] all.contains(e) <==> list.contains(e) by {
            if all.contains(e) {
                let i = choose|i: int| 0 <= i < all.len() && all[i] == e;
                if i < short.len() {
                    assert(short[i] == e);
                    assert(short.contains(e));
                    let j = choose|j: int| 0 <= j < init.len() && init[j] == e;
                    assert(list[j] == e);
                } else {
                    assert(list[list.len() - 1] == e);
                }
            }
            if list.contains(e) {
                let j = choose|j: int| 0 <= j < list.len() && list[j] == e;
                if j < init.len() {
                    assert(init[j] == e);
                    assert(short.contains(e));
                    let i = choose|i: int| 0 <= i < short.len() && short[i] == e;
                    assert(all[i] == e);
                } else if short.contains(e) {
                    let i = choose|i: int| 0 <= i < short.len() && short[i] == e;
                    assert(all[i] == e);
                } else {
                    assert(all[all.len() - 1] == e);
                }
            }
        }
    }
}

/// [`present`] keeps exactly the entities that are in both lists and names none
/// twice.
pub proof fn lemma_present(list: Seq<Entity>, children: Seq<Entity>)
    ensures
        forall|e: Entity| #[trigger]
            present(list, children).contains(e) <==> list.contains(e) && children.contains(e),
        present(list, children).no_duplicates(),
    decreases children.len(),
{
    if children.len() > 0 {
        let init = children.drop_last();
        let last = children.last();
        lemma_present(list, init);
        let short = present(list, init);
        let all = present(list, children);
        assert(children[children.len() - 1] == last);
        assert(short.contains(last) ==> init.contains(last));
        assert forall|e: Entity| #[trigger] all.contains(e) <==> list.contains(e)
            && children.contains(e) by {
            if all.contains(e) {
                let i = choose|i: int| 0 <= i < all.len() && all[i] == e;
                if i < short.len() {
                    assert(short[i] == e);
                    assert(short.contains(e));
                    let j = choose|j: int| 0 <= j < init.len() && init[j] == e;
                    assert(children[j] == e);
                }
            }
            if list.contains(e) && children.contains(e) {
                let j = choose|j: int| 0 <= j < children.len() && children[j] == e;
                if j < init.len() {
                    assert(init[j] == e);
                    assert(short.contains(e));
                    let i = choose|i: int| 0 <= i < short.len() && short[i] == e;
                    assert(all[i] == e);
                } else if init.contains(e) {
                    assert(short.contains(e));
                    let i = choose|i: int| 0 <= i < short.len() && short[i] == e;
                    assert(all[i] == e);
                } else {
                    assert(all[all.len() - 1] == e);
                }
            }
        }
    }
}

/// The number of slots whose entity exists.
pub open spec fn live_count(slots: Seq<SlotView>) -> nat
    decreases slots.len(),
{
    if slots.len() == 0 {
        0
    } else {
        live_count(slots.drop_last()) + if slots.last().alive {
            1nat
        } else {
            0nat
        }
    }
}

/// Replacing a slot changes the number of live entities by what the slot's own
/// liveness changes.
pub proof fn lemma_live_count_update(slots: Seq<SlotView>, i: int, slot: SlotView)
    requires
        0 <= i < slots.len(),
    ensures
        live_count(slots.update(i, slot)) + (if slots[i].alive { 1nat } else { 0nat })
            == live_count(slots) + (if slot.alive { 1nat } else { 0nat }),
    decreases slots.len(),
{
    let updated = slots.update(i, slot);
    if i == slots.len() - 1 {
        assert(updated.drop_last() =~= slots.drop_last());
    } else {
        assert(updated.drop_last() =~= slots.drop_last().update(i, slot));
        lemma_live_count_update(slots.drop_last(), i, slot);
    }
}

impl WorldView {
    /// Whether `e` exists.
    pub open spec fn contains(self, e: Entity) -> bool {
        e.index < self.slots.len() && self.slots[e.index as int].alive
    }

    /// The parent of `e`, where it has one.
    pub open spec fn parent_of(self, e: Entity) -> Option<Entity> {
        if e.index < self.slots.len() {
            self.slots[e.index as int].parent
        } else {
            None
        }
    }

    /// The children of `e`, where it has any.
    pub open spec fn children_of(self, e: Entity) -> Option<Seq<Entity>> {
        if e.index < self.slots.len() {
            self.slots[e.index as int].children
        } else {
            None
        }
    }

    /// The children of `e` as a list, which is empty where `e` has none.
    pub open spec fn child_list(self, e: Entity) -> Seq<Entity> {
        match self.children_of(e) {
            Some(list) => list,
            None => Seq::empty(),
        }
    }

    /// Whether `parent` has a list and `child` is in it.
    pub open spec fn lists(self, parent: Entity, child: Entity) -> bool {
        self.child_list(parent).contains(child)
    }

    /// Whether every entity of `entities` exists.
    pub open spec fn holds_all(self, entities: Seq<Entity>) -> bool {
        forall|i: int| 0 <= i < entities.len() ==> self.contains(#[trigger] entities[i])
    }

    /// The invariant of the hierarchy, but for the entities of `loose`, whose
    /// parent need not list them yet:
    /// - an entity that does not exist has no parent and no children;
    /// - the parent of an entity lists it, unless the entity is loose;
    /// - an entity that a parent lists has that parent;
    /// - a list is not empty and names no entity twice.
    pub open spec fn wf_except(self, loose: Seq<Entity>) -> bool {
        &&& forall|e: Entity|
            #![trigger self.parent_of(e)]
            !self.contains(e) ==> self.parent_of(e).is_none()
        &&& forall|e: Entity|
            #![trigger self.children_of(e)]
            !self.contains(e) ==> self.children_of(e).is_none()
        &&& forall|c: Entity|
            #![trigger self.parent_of(c)]
            self.parent_of(c).is_some() ==> self.lists(self.parent_of(c).unwrap(), c)
                || loose.contains(c)
        &&& forall|p: Entity, c: Entity| #[trigger] self.lists(p, c) ==> self.parent_of(c) == Some(p)
        &&& forall|p: Entity|
            #![trigger self.children_of(p)]
            self.children_of(p).is_some() ==> self.children_of(p).unwrap().len() > 0
                && self.children_of(p).unwrap().no_duplicates()
    }

    /// The invariant of the hierarchy: parent attributes and children lists mirror
    /// each other. An entity has the parent `p` exactly when the list of `p` names
    /// it, a list names no entity twice, no list is empty, and an entity that does
    /// not exist has neither attribute.
    pub open spec fn wf(self) -> bool {
        self.wf_except(Seq::empty())
    }

    /// The state with the parent attribute of `e` set to `parent`.
    pub open spec fn with_parent(self, e: Entity, parent: Option<Entity>) -> WorldView {
        if e.index < self.slots.len() {
            WorldView {
                slots: self.slots.update(
                    e.index as int,
                    SlotView { parent, ..self.slots[e.index as int] },
                ),
                ..self
            }
        } else {
            self
        }
    }

    /// The state with the children attribute of `e` set to `children`.
    pub open spec fn with_children(self, e: Entity, children: Option<Seq<Entity>>) -> WorldView {
        if e.index < self.slots.len() {
            WorldView {
                slots: self.slots.update(
                    e.index as int,
                    SlotView { children, ..self.slots[e.index as int] },
                ),
                ..self
            }
        } else {
            self
        }
    }

    /// The state with `event` emitted.
    pub open spec fn emit(self, event: HierarchyEvent) -> WorldView {
        WorldView { events: self.events.push(event), ..self }
    }

    /// The state with `child` taken out of the list of `parent`; a list that
    /// becomes empty is removed.
    pub open spec fn strip_child(self, parent: Entity, child: Entity) -> WorldView {
        match self.children_of(parent) {
            Some(list) => self.with_children(parent, listed(remove_all(list, seq![child]))),
            None => self,
        }
    }

    /// The single-edge change: `child` gets `parent` as its parent. A child without
    /// a parent is reported as added. A child of another parent leaves that
    /// parent's list and is reported as moved. A child of `parent` itself changes
    /// nothing. The list of `parent` is not touched.
    pub open spec fn reparent(self, child: Entity, parent: Entity) -> WorldView {
        match self.parent_of(child) {
            None => self.with_parent(child, Some(parent)).emit(
                HierarchyEvent::ChildAdded { child, parent },
            ),
            Some(previous) => if previous == parent {
                self
            } else {
                self.with_parent(child, Some(parent)).strip_child(previous, child).emit(
                    HierarchyEvent::ChildMoved {
                        child,
                        previous_parent: previous,
                        new_parent: parent,
                    },
                )
            },
        }
    }

    /// [`reparent`](Self::reparent) for each of `children` in turn.
    pub open spec fn reparent_all(self, parent: Entity, children: Seq<Entity>) -> WorldView
        decreases children.len(),
    {
        if children.len() == 0 {
            self
        } else {
            self.reparent_all(parent, children.drop_last()).reparent(children.last(), parent)
        }
    }

    /// The list of `parent` without the entries that occur in `children`.
    pub open spec fn kept_children(self, parent: Entity, children: Seq<Entity>) -> Seq<Entity> {
        remove_all(self.child_list(parent), children)
    }

    /// `child` becomes the last child of `parent`.
    pub open spec fn add_child(self, parent: Entity, child: Entity) -> WorldView {
        let moved = self.reparent(child, parent);
        moved.with_children(
            parent,
            Some(moved.kept_children(parent, seq![child]).push(child)),
        )
    }

    /// `child` becomes the child of `parent` at position `index` of the list that
    /// is left when `child` is taken out of it.
    pub open spec fn insert_child(self, parent: Entity, index: usize, child: Entity) -> WorldView {
        let moved = self.reparent(child, parent);
        moved.with_children(
            parent,
            Some(moved.kept_children(parent, seq![child]).insert(index as int, child)),
        )
    }

    /// `children`, without repetitions, become the last children of `parent`.
    pub open spec fn add_children(self, parent: Entity, children: Seq<Entity>) -> WorldView {
        let moved = self.reparent_all(parent, children);
        moved.with_children(
            parent,
            listed(moved.kept_children(parent, children) + distinct(children)),
        )
    }

    /// `children`, without repetitions, become the children of `parent` from
    /// position `index` on of the list that is left when they are taken out of it.
    pub open spec fn insert_children(
        self,
        parent: Entity,
        index: usize,
        children: Seq<Entity>,
    ) -> WorldView {
        let moved = self.reparent_all(parent, children);
        let kept = moved.kept_children(parent, children);
        moved.with_children(
            parent,
            listed(
                kept.subrange(0, index as int) + distinct(children) + kept.subrange(
                    index as int,
                    kept.len() as int,
                ),
            ),
        )
    }

    /// Those of `children` that `parent` lists leave it: each loses its parent
    /// attribute and is reported as removed, once, in the order of `children`. The
    /// others are skipped. A list that becomes empty is removed.
    pub open spec fn remove_children(self, parent: Entity, children: Seq<Entity>) -> WorldView {
        match self.children_of(parent) {
            Some(list) => self.detach_each(parent, present(list, children)).with_children(
                parent,
                listed(remove_all(list, children)),
            ),
            None => self,
        }
    }

    /// `child` leaves `parent` if `parent` lists it.
    pub open spec fn remove_child(self, parent: Entity, child: Entity) -> WorldView {
        self.remove_children(parent, seq![child])
    }

    /// Each of `list` in turn loses its parent attribute and is reported as
    /// removed from `parent`.
    pub open spec fn detach_each(self, parent: Entity, list: Seq<Entity>) -> WorldView
        decreases list.len(),
    {
        if list.len() == 0 {
            self
        } else {
            let child = list.last();
            self.detach_each(parent, list.drop_last()).with_parent(child, None).emit(
                HierarchyEvent::ChildRemoved { child, parent },
            )
        }
    }

    /// `parent` loses its list and each entity of the list its parent. The former
    /// children stay alive.
    pub open spec fn remove_all_children(self, parent: Entity) -> WorldView {
        match self.children_of(parent) {
            Some(list) => self.with_children(parent, None).detach_each(parent, list),
            None => self,
        }
    }

    /// `child` loses its parent, where it has one, and leaves that parent's list.
    pub open spec fn remove_parent(self, child: Entity) -> WorldView {
        match self.parent_of(child) {
            Some(parent) => self.with_parent(child, None).strip_child(parent, child).emit(
                HierarchyEvent::ChildRemoved { child, parent },
            ),
            None => self,
        }
    }

    /// The entity that the next spawn creates.
    pub open spec fn next_entity(self) -> Entity {
        Entity { index: self.slots.len() as usize }
    }

    /// The state with one more entity, which has no parent and no children.
    pub open spec fn spawn(self) -> WorldView {
        WorldView { slots: self.slots.push(fresh()), ..self }
    }

    /// The state with one more entity, created as the last child of `parent`.
    pub open spec fn spawn_child(self, parent: Entity) -> WorldView {
        let child = self.next_entity();
        self.spawn().with_parent(child, Some(parent)).with_children(
            parent,
            Some(self.child_list(parent).push(child)),
        ).emit(HierarchyEvent::ChildAdded { child, parent })
    }

    /// What the removal of the parent attribute of `e` brings about: the removal is
    /// reported, and `e` leaves the list of its parent if that parent still exists.
    pub open spec fn parent_removed(self, e: Entity) -> WorldView {
        match self.parent_of(e) {
            Some(parent) => {
                let told = self.emit(HierarchyEvent::ChildRemoved { child: e, parent });
                if told.contains(parent) {
                    told.strip_child(parent, e)
                } else {
                    told
                }
            },
            None => self,
        }
    }

    /// The state with the one entity `e` destroyed, and nothing else.
    pub open spec fn destroy(self, e: Entity) -> WorldView {
        let told = self.parent_removed(e);
        if e.index < told.slots.len() {
            WorldView { slots: told.slots.update(e.index as int, vacant()), ..told }
        } else {
            told
        }
    }

    /// The state after the entities of `queue` were destroyed first to last, each
    /// one putting its own children at the end of the queue. An entity that no
    /// longer exists when its turn comes is passed over.
    pub open spec fn drain(self, queue: Seq<Entity>) -> WorldView
        decreases live_count(self.slots), queue.len(),
    {
        if queue.len() == 0 {
            self
        } else {
            let e = queue.first();
            if self.contains(e) {
                proof {
                    lemma_destroy_live_count(self, e);
                }
                self.destroy(e).drain(queue.drop_first() + self.child_list(e))
            } else {
                self.drain(queue.drop_first())
            }
        }
    }

    /// `e` and all its descendants are destroyed, if `e` exists.
    pub open spec fn despawn(self, e: Entity) -> WorldView {
        self.drain(seq![e])
    }

    /// `e` loses its list, and all its descendants are destroyed.
    pub open spec fn despawn_descendants(self, e: Entity) -> WorldView {
        match self.children_of(e) {
            Some(list) => self.with_children(e, None).drain(list),
            None => self,
        }
    }
}

/// A single-edge change creates and destroys no entity.
pub proof fn lemma_reparent_keeps_entities(s: WorldView, child: Entity, parent: Entity)
    ensures
        s.reparent(child, parent).slots.len() == s.slots.len(),
        forall|e: Entity| s.reparent(child, parent).contains(e) == s.contains(e),
{
}

/// Destroying an entity that exists leaves one live entity fewer.
pub proof fn lemma_destroy_live_count(s: WorldView, e: Entity)
    requires
        s.contains(e),
    ensures
        live_count(s.destroy(e).slots) + 1 == live_count(s.slots),
        s.destroy(e).slots.len() == s.slots.len(),
{
    let told = s.parent_removed(e);
    match s.parent_of(e) {
        Some(parent) => {
            if s.contains(parent) && s.children_of(parent).is_some() {
                lemma_live_count_update(s.slots, parent.index as int, told.slots[parent.index as int]);
            }
        },
        None => {},
    }
    lemma_live_count_update(told.slots, e.index as int, vacant());
}

} // verus!
