use std::collections::VecDeque;
use vstd::prelude::*;
use crate::child_builder::HierarchyCommands;
use crate::components::{is_none_of, remove_all, EntityList};
use crate::entity::Entity;
use crate::hierarchy::{DespawnChildrenRecursive, DespawnRecursiveExt};
use crate::laws::{
    lemma_add_child_wf, lemma_add_children_wf, lemma_despawn, lemma_despawn_descendants,
    lemma_insert_child_wf, lemma_insert_children_wf, lemma_remove_all_children_wf,
    lemma_remove_children_wf, lemma_remove_parent_wf,
};
use crate::model::WorldView;
use crate::world::World;

verus! {

/// Why a command was not applied. A command that is refused changes nothing.
#[derive(Clone, Copy, Debug, PartialEq, Eq, Structural)]
pub enum HierarchyError {
    /// The command names an entity that does not exist.
    NoSuchEntity(Entity),
    /// The command asks for a position beyond the end of the list, which has `len`
    /// entries once the children to insert are taken out of it.
    IndexOutOfBounds {
        /// The position asked for.
        index: usize,
        /// The length of the list.
        len: usize,
    },
}

/// The first entity of `entities` that does not exist, if there is one.
pub open spec fn first_missing(s: WorldView, entities: Seq<Entity>) -> Option<Entity>
    decreases entities.len(),
{
    if entities.len() == 0 {
        None
    } else if !s.contains(entities.first()) {
        Some(entities.first())
    } else {
        first_missing(s, entities.drop_first())
    }
}

/// No entity is missing exactly when all exist.
pub proof fn lemma_first_missing(s: WorldView, entities: Seq<Entity>)
    ensures
        first_missing(s, entities).is_none() <==> s.holds_all(entities),
        first_missing(s, entities).is_some() ==> !s.contains(first_missing(s, entities).unwrap()),
    decreases entities.len(),
{
    if entities.len() > 0 {
        let rest = entities.drop_first();
        lemma_first_missing(s, rest);
        if s.contains(entities.first()) {
            if s.holds_all(rest) {
                assert forall|i: int| 0 <= i < entities.len() implies s.contains(
                    #[trigger] entities[i],
                ) by {
                    if i > 0 {
                        assert(rest[i - 1] == entities[i]);
                    }
                }
            }
            if s.holds_all(entities) {
                assert forall|i: int| 0 <= i < rest.len() implies s.contains(#[trigger] rest[i]) by {
                    assert(rest[i] == entities[i + 1]);
                }
            }
        } else {
            assert(entities[0] == entities.first());
        }
    }
}

/// Finds the first entity of `entities` that does not exist.
pub fn find_missing(world: &World, entities: &[Entity]) -> (missing: Option<Entity>)
    ensures
        missing == first_missing(world@, entities@),
{
    let mut i: usize = 0;
    assert(entities@.subrange(0, entities@.len() as int) =~= entities@);
    while i < entities.len()
        invariant
            i <= entities@.len(),
            first_missing(world@, entities@) == first_missing(
                world@,
                entities@.subrange(i as int, entities@.len() as int),
            ),
        decreases entities@.len() - i,
    {
        let ghost rest = entities@.subrange(i as int, entities@.len() as int);
        assert(rest.first() == entities@[i as int]);
        assert(rest.drop_first() =~= entities@.subrange(i + 1, entities@.len() as int));
        if !world.contains(entities[i]) {
            return Some(entities[i]);
        }
        i += 1;
    }
    None
}

/// The number of entries of `list` that are none of `removed`.
pub fn kept_len(list: &[Entity], removed: &[Entity]) -> (n: usize)
    ensures
        n == remove_all(list@, removed@).len(),
{
    let mut n: usize = 0;
    let mut i: usize = 0;
    proof {
        reveal(Seq::filter);
    }
    while i < list.len()
        invariant
            i <= list@.len(),
            n <= i,
            n == remove_all(list@.take(i as int), removed@).len(),
        decreases list@.len() - i,
    {
        proof {
            reveal(Seq::filter);
            assert(list@.take(i + 1).drop_last() =~= list@.take(i as int));
        }
        if is_none_of(removed, &list[i]) {
            n += 1;
        }
        i += 1;
    }
    proof {
        assert(list@.take(i as int) =~= list@);
    }
    n
}

/// The length of the list of `parent` once the entities of `removed` are taken out.
pub fn kept_children_len(world: &World, parent: Entity, removed: &[Entity]) -> (n: usize)
    ensures
        n == world@.kept_children(parent, removed@).len(),
{
    match world.get_children(parent) {
        Some(children) => kept_len(children.as_slice(), removed),
        None => {
            proof {
                reveal(Seq::filter);
            }
            0
        },
    }
}

/// Whether `outcome` and the state `after` are what applying a command to `before`
/// gives: `Ok` and `effect` where there is no refusal, else the refusal as the error
/// and `before` unchanged.
pub open spec fn applied(
    before: WorldView,
    after: WorldView,
    outcome: Result<(), HierarchyError>,
    refusal: Option<HierarchyError>,
    effect: WorldView,
) -> bool {
    match outcome {
        Ok(_) => refusal.is_none() && after == effect,
        Err(e) => refusal == Some(e) && after == before,
    }
}

/// The refusal of a command that names `parent` and `children`: the first of them
/// that does not exist.
pub open spec fn missing_of(s: WorldView, parent: Entity, children: Seq<Entity>) -> Option<
    HierarchyError,
> {
    if !s.contains(parent) {
        Some(HierarchyError::NoSuchEntity(parent))
    } else {
        match first_missing(s, children) {
            Some(e) => Some(HierarchyError::NoSuchEntity(e)),
            None => None,
        }
    }
}

/// The refusal of a command that inserts `children` into the list of `parent` at
/// `index`: a missing entity, or else an index beyond the end of the list.
pub open spec fn insertion_refusal(
    s: WorldView,
    parent: Entity,
    index: usize,
    children: Seq<Entity>,
) -> Option<HierarchyError> {
    match missing_of(s, parent, children) {
        Some(e) => Some(e),
        None => if index > s.kept_children(parent, children).len() {
            Some(
                HierarchyError::IndexOutOfBounds {
                    index,
                    len: s.kept_children(parent, children).len() as usize,
                },
            )
        } else {
            None
        },
    }
}

/// Finds why `parent` and `children` cannot be named, if they cannot.
fn check_entities(world: &World, parent: Entity, children: &[Entity]) -> (refusal: Option<
    HierarchyError,
>)
    ensures
        refusal == missing_of(world@, parent, children@),
        refusal.is_none() ==> world@.contains(parent) && world@.holds_all(children@),
{
    proof {
        lemma_first_missing(world@, children@);
    }
    if !world.contains(parent) {
        return Some(HierarchyError::NoSuchEntity(parent));
    }
    match find_missing(world, children) {
        Some(e) => Some(HierarchyError::NoSuchEntity(e)),
        None => None,
    }
}

/// Finds why `children` cannot be inserted into the list of `parent` at `index`, if
/// they cannot.
fn check_insertion(world: &World, parent: Entity, index: usize, children: &[Entity]) -> (refusal:
    Option<HierarchyError>)
    ensures
        refusal == insertion_refusal(world@, parent, index, children@),
        refusal.is_none() ==> world@.contains(parent) && world@.holds_all(children@) && index
            <= world@.kept_children(parent, children@).len(),
{
    match check_entities(world, parent, children) {
        Some(e) => Some(e),
        None => {
            let len = kept_children_len(world, parent, children);
            if index > len {
                Some(HierarchyError::IndexOutOfBounds { index, len })
            } else {
                None
            }
        },
    }
}

/// Command that makes an entity the last child of a parent.
#[derive(Debug)]
pub struct AddChild {
    /// The parent to add the child to.
    pub parent: Entity,
    /// The child to add.
    pub child: Entity,
}

impl AddChild {
    /// Why the command cannot be applied to `s`, if it cannot.
    pub open spec fn refusal(&self, s: WorldView) -> Option<HierarchyError> {
        missing_of(s, self.parent, seq![self.child])
    }

    /// What the command makes of `s` when it is applied.
    pub open spec fn effect(&self, s: WorldView) -> WorldView {
        s.add_child(self.parent, self.child)
    }

    /// Applies the command to the store as it is now: it is refused, and changes
    /// nothing, exactly when [`refusal`](Self::refusal) names a reason.
    pub fn apply(self, world: &mut World) -> (outcome: Result<(), HierarchyError>)
        requires
            old(world)@.wf(),
        ensures
            final(world)@.wf(),
            applied(
                old(world)@,
                final(world)@,
                outcome,
                self.refusal(old(world)@),
                self.effect(old(world)@),
            ),
    {
        let one = [self.child];
        assert(one@ =~= seq![self.child]);
        match check_entities(world, self.parent, one.as_slice()) {
            Some(e) => Err(e),
            None => {
                world.entity_mut(self.parent).add_child(self.child);
                Ok(())
            },
        }
    }
}

/// Command that makes entities the last children of a parent.
#[derive(Debug)]
pub struct AddChildren {
    /// The parent to add the children to.
    pub parent: Entity,
    /// The children to add.
    pub children: EntityList,
}

impl AddChildren {
    /// Why the command cannot be applied to `s`, if it cannot.
    pub open spec fn refusal(&self, s: WorldView) -> Option<HierarchyError> {
        missing_of(s, self.parent, self.children@)
    }

    /// What the command makes of `s` when it is applied.
    pub open spec fn effect(&self, s: WorldView) -> WorldView {
        s.add_children(self.parent, self.children@)
    }

    /// Applies the command to the store as it is now: it is refused, and changes
    /// nothing, exactly when [`refusal`](Self::refusal) names a reason.
    pub fn apply(self, world: &mut World) -> (outcome: Result<(), HierarchyError>)
        requires
            old(world)@.wf(),
        ensures
            final(world)@.wf(),
            applied(
                old(world)@,
                final(world)@,
                outcome,
                self.refusal(old(world)@),
                self.effect(old(world)@),
            ),
    {
        match check_entities(world, self.parent, self.children.as_slice()) {
            Some(e) => Err(e),
            None => {
                world.entity_mut(self.parent).add_children(self.children.as_slice());
                Ok(())
            },
        }
    }
}

/// Command that makes an entity the child of a parent at a position of its list.
#[derive(Debug)]
pub struct InsertChild {
    /// The parent to add the child to.
    pub parent: Entity,
    /// The position to insert at.
    pub index: usize,
    /// The child to add.
    pub child: Entity,
}

impl InsertChild {
    /// Why the command cannot be applied to `s`, if it cannot.
    pub open spec fn refusal(&self, s: WorldView) -> Option<HierarchyError> {
        insertion_refusal(s, self.parent, self.index, seq![self.child])
    }

    /// What the command makes of `s` when it is applied.
    pub open spec fn effect(&self, s: WorldView) -> WorldView {
        s.insert_child(self.parent, self.index, self.child)
    }

    /// Applies the command to the store as it is now: it is refused, and changes
    /// nothing, exactly when [`refusal`](Self::refusal) names a reason.
    pub fn apply(self, world: &mut World) -> (outcome: Result<(), HierarchyError>)
        requires
            old(world)@.wf(),
        ensures
            final(world)@.wf(),
            applied(
                old(world)@,
                final(world)@,
                outcome,
                self.refusal(old(world)@),
                self.effect(old(world)@),
            ),
    {
        let one = [self.child];
        assert(one@ =~= seq![self.child]);
        match check_insertion(world, self.parent, self.index, one.as_slice()) {
            Some(e) => Err(e),
            None => {
                world.entity_mut(self.parent).insert_child(self.index, self.child);
                Ok(())
            },
        }
    }
}

/// Command that makes entities children of a parent from a position of its list on.
#[derive(Debug)]
pub struct InsertChildren {
    /// The parent to add the children to.
    pub parent: Entity,
    /// The position to insert at.
    pub index: usize,
    /// The children to add.
    pub children: EntityList,
}

impl InsertChildren {
    /// Why the command cannot be applied to `s`, if it cannot.
    pub open spec fn refusal(&self, s: WorldView) -> Option<HierarchyError> {
        insertion_refusal(s, self.parent, self.index, self.children@)
    }

    /// What the command makes of `s` when it is applied.
    pub open spec fn effect(&self, s: WorldView) -> WorldView {
        s.insert_children(self.parent, self.index, self.children@)
    }

    /// Applies the command to the store as it is now: it is refused, and changes
    /// nothing, exactly when [`refusal`](Self::refusal) names a reason.
    pub fn apply(self, world: &mut World) -> (outcome: Result<(), HierarchyError>)
        requires
            old(world)@.wf(),
        ensures
            final(world)@.wf(),
            applied(
                old(world)@,
                final(world)@,
                outcome,
                self.refusal(old(world)@),
                self.effect(old(world)@),
            ),
    {
        match check_insertion(world, self.parent, self.index, self.children.as_slice()) {
            Some(e) => Err(e),
            None => {
                world.entity_mut(self.parent).insert_children(
                    self.index,
                    self.children.as_slice(),
                );
                Ok(())
            },
        }
    }
}

/// Command that takes a child away from a parent and removes the child's parent
/// attribute.
#[derive(Debug)]
pub struct RemoveChild {
    /// The parent to take the child from.
    pub parent: Entity,
    /// The child to take away.
    pub child: Entity,
}

impl RemoveChild {
    /// Why the command cannot be applied to `s`, if it cannot.
    pub open spec fn refusal(&self, s: WorldView) -> Option<HierarchyError> {
        if !s.contains(self.parent) {
            Some(HierarchyError::NoSuchEntity(self.parent))
        } else {
            None
        }
    }

    /// What the command makes of `s` when it is applied.
    pub open spec fn effect(&self, s: WorldView) -> WorldView {
        s.remove_child(self.parent, self.child)
    }

    /// Applies the command to the store as it is now: it is refused, and changes
    /// nothing, exactly when [`refusal`](Self::refusal) names a reason.
    pub fn apply(self, world: &mut World) -> (outcome: Result<(), HierarchyError>)
        requires
            old(world)@.wf(),
        ensures
            final(world)@.wf(),
            applied(
                old(world)@,
                final(world)@,
                outcome,
                self.refusal(old(world)@),
                self.effect(old(world)@),
            ),
    {
        if !world.contains(self.parent) {
            return Err(HierarchyError::NoSuchEntity(self.parent));
        }
        world.entity_mut(self.parent).remove_child(self.child);
        Ok(())
    }
}

/// Command that takes children away from a parent and removes their parent
/// attribute.
#[derive(Debug)]
pub struct RemoveChildren {
    /// The parent to take the children from.
    pub parent: Entity,
    /// The children to take away.
    pub children: EntityList,
}

impl RemoveChildren {
    /// Why the command cannot be applied to `s`, if it cannot.
    pub open spec fn refusal(&self, s: WorldView) -> Option<HierarchyError> {
        if !s.contains(self.parent) {
            Some(HierarchyError::NoSuchEntity(self.parent))
        } else {
            None
        }
    }

    /// What the command makes of `s` when it is applied.
    pub open spec fn effect(&self, s: WorldView) -> WorldView {
        s.remove_children(self.parent, self.children@)
    }

    /// Applies the command to the store as it is now: it is refused, and changes
    /// nothing, exactly when [`refusal`](Self::refusal) names a reason.
    pub fn apply(self, world: &mut World) -> (outcome: Result<(), HierarchyError>)
        requires
            old(world)@.wf(),
        ensures
            final(world)@.wf(),
            applied(
                old(world)@,
                final(world)@,
                outcome,
                self.refusal(old(world)@),
                self.effect(old(world)@),
            ),
    {
        if !world.contains(self.parent) {
            return Err(HierarchyError::NoSuchEntity(self.parent));
        }
        world.entity_mut(self.parent).remove_children(self.children.as_slice());
        Ok(())
    }
}

/// Command that takes all children away from a parent and removes their parent
/// attribute.
#[derive(Debug)]
pub struct RemoveAllChildren {
    /// The parent to take the children from.
    pub parent: Entity,
}

impl RemoveAllChildren {
    /// Why the command cannot be applied to `s`, if it cannot.
    pub open spec fn refusal(&self, s: WorldView) -> Option<HierarchyError> {
        if !s.contains(self.parent) {
            Some(HierarchyError::NoSuchEntity(self.parent))
        } else {
            None
        }
    }

    /// What the command makes of `s` when it is applied.
    pub open spec fn effect(&self, s: WorldView) -> WorldView {
        s.remove_all_children(self.parent)
    }

    /// Applies the command to the store as it is now: it is refused, and changes
    /// nothing, exactly when [`refusal`](Self::refusal) names a reason.
    pub fn apply(self, world: &mut World) -> (outcome: Result<(), HierarchyError>)
        requires
            old(world)@.wf(),
        ensures
            final(world)@.wf(),
            applied(
                old(world)@,
                final(world)@,
                outcome,
                self.refusal(old(world)@),
                self.effect(old(world)@),
            ),
    {
        if !world.contains(self.parent) {
            return Err(HierarchyError::NoSuchEntity(self.parent));
        }
        world.entity_mut(self.parent).remove_all_children();
        Ok(())
    }
}

/// Command that takes the parent of an entity away and the entity out of that
/// parent's list.
#[derive(Debug)]
pub struct RemoveParent {
    /// The child to take the parent from.
    pub child: Entity,
}

impl RemoveParent {
    /// Why the command cannot be applied to `s`, if it cannot.
    pub open spec fn refusal(&self, s: WorldView) -> Option<HierarchyError> {
        if !s.contains(self.child) {
            Some(HierarchyError::NoSuchEntity(self.child))
        } else {
            None
        }
    }

    /// What the command makes of `s` when it is applied.
    pub open spec fn effect(&self, s: WorldView) -> WorldView {
        s.remove_parent(self.child)
    }

    /// Applies the command to the store as it is now: it is refused, and changes
    /// nothing, exactly when [`refusal`](Self::refusal) names a reason.
    pub fn apply(self, world: &mut World) -> (outcome: Result<(), HierarchyError>)
        requires
            old(world)@.wf(),
        ensures
            final(world)@.wf(),
            applied(
                old(world)@,
                final(world)@,
                outcome,
                self.refusal(old(world)@),
                self.effect(old(world)@),
            ),
    {
        if !world.contains(self.child) {
            return Err(HierarchyError::NoSuchEntity(self.child));
        }
        world.entity_mut(self.child).remove_parent();
        Ok(())
    }
}

impl DespawnChildrenRecursive {
    /// Why the command cannot be applied to `s`, if it cannot.
    pub open spec fn refusal(&self, s: WorldView) -> Option<HierarchyError> {
        if !s.contains(self.entity) {
            Some(HierarchyError::NoSuchEntity(self.entity))
        } else {
            None
        }
    }

    /// What the command makes of `s` when it is applied.
    pub open spec fn effect(&self, s: WorldView) -> WorldView {
        s.despawn_descendants(self.entity)
    }

    /// Applies the command to the store as it is now: it is refused, and changes
    /// nothing, exactly when [`refusal`](Self::refusal) names a reason.
    pub fn apply(self, world: &mut World) -> (outcome: Result<(), HierarchyError>)
        requires
            old(world)@.wf(),
        ensures
            final(world)@.wf(),
            applied(
                old(world)@,
                final(world)@,
                outcome,
                self.refusal(old(world)@),
                self.effect(old(world)@),
            ),
    {
        if !world.contains(self.entity) {
            return Err(HierarchyError::NoSuchEntity(self.entity));
        }
        world.entity_mut(self.entity).despawn_descendants();
        Ok(())
    }
}

/// Command that destroys an entity and all its descendants. It is never refused:
/// destroying what does not exist changes nothing.
#[derive(Debug)]
pub struct Despawn {
    /// The entity to destroy.
    pub entity: Entity,
}

impl Despawn {
    /// What the command makes of `s` when it is applied.
    pub open spec fn effect(&self, s: WorldView) -> WorldView {
        s.despawn(self.entity)
    }

    /// Applies the command to the store as it is now.
    pub fn apply(self, world: &mut World)
        requires
            old(world)@.wf(),
        ensures
            final(world)@.wf(),
            final(world)@ == self.effect(old(world)@),
    {
        world.despawn(self.entity);
    }
}

/// A structural operation as a value: it names the entities it is about and is
/// applied to the store later, against the state that the store has then.
#[derive(Debug)]
pub enum HierarchyCommand {
    /// See [`AddChild`].
    AddChild(AddChild),
    /// See [`AddChildren`].
    AddChildren(AddChildren),
    /// See [`InsertChild`].
    InsertChild(InsertChild),
    /// See [`InsertChildren`].
    InsertChildren(InsertChildren),
    /// See [`RemoveChild`].
    RemoveChild(RemoveChild),
    /// See [`RemoveChildren`].
    RemoveChildren(RemoveChildren),
    /// See [`RemoveAllChildren`].
    RemoveAllChildren(RemoveAllChildren),
    /// See [`RemoveParent`].
    RemoveParent(RemoveParent),
    /// See [`DespawnChildrenRecursive`].
    DespawnChildrenRecursive(DespawnChildrenRecursive),
    /// See [`Despawn`].
    Despawn(Despawn),
}

impl HierarchyCommand {
    /// Why the command cannot be applied to `s`, if it cannot.
    pub open spec fn refusal(&self, s: WorldView) -> Option<HierarchyError> {
        match self {
            HierarchyCommand::AddChild(c) => c.refusal(s),
            HierarchyCommand::AddChildren(c) => c.refusal(s),
            HierarchyCommand::InsertChild(c) => c.refusal(s),
            HierarchyCommand::InsertChildren(c) => c.refusal(s),
            HierarchyCommand::RemoveChild(c) => c.refusal(s),
            HierarchyCommand::RemoveChildren(c) => c.refusal(s),
            HierarchyCommand::RemoveAllChildren(c) => c.refusal(s),
            HierarchyCommand::RemoveParent(c) => c.refusal(s),
            HierarchyCommand::DespawnChildrenRecursive(c) => c.refusal(s),
            HierarchyCommand::Despawn(_) => None,
        }
    }

    /// What the command makes of `s` when it is applied.
    pub open spec fn effect(&self, s: WorldView) -> WorldView {
        match self {
            HierarchyCommand::AddChild(c) => c.effect(s),
            HierarchyCommand::AddChildren(c) => c.effect(s),
            HierarchyCommand::InsertChild(c) => c.effect(s),
            HierarchyCommand::InsertChildren(c) => c.effect(s),
            HierarchyCommand::RemoveChild(c) => c.effect(s),
            HierarchyCommand::RemoveChildren(c) => c.effect(s),
            HierarchyCommand::RemoveAllChildren(c) => c.effect(s),
            HierarchyCommand::RemoveParent(c) => c.effect(s),
            HierarchyCommand::DespawnChildrenRecursive(c) => c.effect(s),
            HierarchyCommand::Despawn(c) => c.effect(s),
        }
    }

    /// The state after the command met `s`: its effect, or `s` where it is refused.
    pub open spec fn step(&self, s: WorldView) -> WorldView {
        if self.refusal(s).is_none() {
            self.effect(s)
        } else {
            s
        }
    }

    /// Applies the command to the store as it is now: it is refused, and changes
    /// nothing, exactly when [`refusal`](Self::refusal) names a reason.
    pub fn apply(self, world: &mut World) -> (outcome: Result<(), HierarchyError>)
        requires
            old(world)@.wf(),
        ensures
            final(world)@.wf(),
            final(world)@ == self.step(old(world)@),
            applied(
                old(world)@,
                final(world)@,
                outcome,
                self.refusal(old(world)@),
                self.effect(old(world)@),
            ),
    {
        match self {
            HierarchyCommand::AddChild(c) => c.apply(world),
            HierarchyCommand::AddChildren(c) => c.apply(world),
            HierarchyCommand::InsertChild(c) => c.apply(world),
            HierarchyCommand::InsertChildren(c) => c.apply(world),
            HierarchyCommand::RemoveChild(c) => c.apply(world),
            HierarchyCommand::RemoveChildren(c) => c.apply(world),
            HierarchyCommand::RemoveAllChildren(c) => c.apply(world),
            HierarchyCommand::RemoveParent(c) => c.apply(world),
            HierarchyCommand::DespawnChildrenRecursive(c) => c.apply(world),
            HierarchyCommand::Despawn(c) => {
                c.apply(world);
                Ok(())
            },
        }
    }
}

/// The state after the commands of `commands` met `s` one after the other, first
/// to last. Each meets the state that the ones before it left.
pub open spec fn run(s: WorldView, commands: Seq<HierarchyCommand>) -> WorldView
    decreases commands.len(),
{
    if commands.len() == 0 {
        s
    } else {
        run(commands.first().step(s), commands.drop_first())
    }
}

/// The refusals that the commands of `commands` meet when they are applied to `s`
/// one after the other, in their order.
pub open spec fn refusals(s: WorldView, commands: Seq<HierarchyCommand>) -> Seq<HierarchyError>
    decreases commands.len(),
{
    if commands.len() == 0 {
        Seq::empty()
    } else {
        let later = refusals(commands.first().step(s), commands.drop_first());
        match commands.first().refusal(s) {
            Some(e) => seq![e] + later,
            None => later,
        }
    }
}

/// A command leaves a well-formed state well-formed, whether it is applied or
/// refused.
pub proof fn lemma_step_wf(command: HierarchyCommand, s: WorldView)
    requires
        s.wf(),
    ensures
        command.step(s).wf(),
{
    if command.refusal(s).is_none() {
        match command {
            HierarchyCommand::AddChild(c) => {
                lemma_first_missing(s, seq![c.child]);
                assert(seq![c.child][0] == c.child);
                lemma_add_child_wf(s, c.parent, c.child);
            },
            HierarchyCommand::AddChildren(c) => {
                lemma_first_missing(s, c.children@);
                lemma_add_children_wf(s, c.parent, c.children@);
            },
            HierarchyCommand::InsertChild(c) => {
                lemma_first_missing(s, seq![c.child]);
                assert(seq![c.child][0] == c.child);
                lemma_insert_child_wf(s, c.parent, c.index, c.child);
            },
            HierarchyCommand::InsertChildren(c) => {
                lemma_first_missing(s, c.children@);
                lemma_insert_children_wf(s, c.parent, c.index, c.children@);
            },
            HierarchyCommand::RemoveChild(c) => {
                lemma_remove_children_wf(s, c.parent, seq![c.child]);
            },
            HierarchyCommand::RemoveChildren(c) => {
                lemma_remove_children_wf(s, c.parent, c.children@);
            },
            HierarchyCommand::RemoveAllChildren(c) => {
                lemma_remove_all_children_wf(s, c.parent);
            },
            HierarchyCommand::RemoveParent(c) => {
                lemma_remove_parent_wf(s, c.child);
            },
            HierarchyCommand::DespawnChildrenRecursive(c) => {
                lemma_despawn_descendants(s, c.entity);
            },
            HierarchyCommand::Despawn(c) => {
                lemma_despawn(s, c.entity);
            },
        }
    }
}

/// The mirror invariant holds after any sequence of commands: applied one after
/// the other to a well-formed state, they leave a well-formed state.
pub proof fn lemma_run_wf(s: WorldView, commands: Seq<HierarchyCommand>)
    requires
        s.wf(),
    ensures
        run(s, commands).wf(),
    decreases commands.len(),
{
    if commands.len() > 0 {
        lemma_step_wf(commands.first(), s);
        lemma_run_wf(commands.first().step(s), commands.drop_first());
    }
}

/// Commands that wait to be applied, in the order in which they were given.
pub struct CommandQueue {
    /// The waiting commands, oldest first.
    pub commands: VecDeque<HierarchyCommand>,
}

impl View for CommandQueue {
    type V = Seq<HierarchyCommand>;

    open spec fn view(&self) -> Seq<HierarchyCommand> {
        self.commands@
    }
}

impl CommandQueue {
    /// A queue without commands.
    pub fn new() -> (queue: CommandQueue)
        ensures
            queue@ == Seq::<HierarchyCommand>::empty(),
    {
        CommandQueue { commands: VecDeque::new() }
    }

    /// Puts `command` behind the commands that wait.
    pub fn push(&mut self, command: HierarchyCommand)
        ensures
            final(self)@ == old(self)@.push(command),
    {
        self.commands.push_back(command);
    }

    /// The number of commands that wait.
    pub fn len(&self) -> (n: usize)
        ensures
            n == self@.len(),
    {
        self.commands.len()
    }

    /// Applies the waiting commands to `world`, oldest first, and leaves the queue
    /// empty. A command that is refused changes nothing; the refusals are
    /// returned in the order of the commands.
    pub fn apply(&mut self, world: &mut World) -> (failures: Vec<HierarchyError>)
        requires
            old(world)@.wf(),
        ensures
            final(self)@.len() == 0,
            final(world)@.wf(),
            final(world)@ == run(old(world)@, old(self)@),
            failures@ == refusals(old(world)@, old(self)@),
    {
        let mut failures: Vec<HierarchyError> = Vec::new();
        assert(failures@ + refusals(world@, self@) =~= refusals(world@, self@));
        loop
            invariant
                world@.wf(),
                run(world@, self@) == run(old(world)@, old(self)@),
                failures@ + refusals(world@, self@) == refusals(old(world)@, old(self)@),
            ensures
                self@.len() == 0,
            decreases self@.len(),
        {
            let ghost before = world@;
            let ghost waiting = self@;
            let ghost reported = failures@;
            match self.commands.pop_front() {
                Some(command) => {
                    assert(self@ =~= waiting.drop_first());
                    match command.apply(world) {
                        Ok(_) => {},
                        Err(e) => {
                            failures.push(e);
                            assert(failures@ + refusals(world@, self@) =~= reported + (seq![e]
                                + refusals(world@, self@)));
                        },
                    }
                },
                None => {
                    break ;
                },
            }
        }
        failures
    }
}

impl Default for CommandQueue {
    fn default() -> (queue: CommandQueue)
        ensures
            queue@ == Seq::<HierarchyCommand>::empty(),
    {
        CommandQueue::new()
    }
}

} // verus!
