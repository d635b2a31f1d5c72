use vstd::prelude::*;
use smallvec::SmallVec;
use crate::entity::Entity;

verus! {

/// The back-reference that a child carries: the one entity that is its parent.
#[derive(Clone, Copy, Debug, PartialEq, Eq, Structural)]
pub struct Parent(pub Entity);

impl Parent {
    /// Returns the parent entity.
    pub fn get(&self) -> (e: Entity)
        ensures
            e == self.0,
    {
        self.0
    }
}

/// An ordered list of entities, kept in a `smallvec::SmallVec` with room for eight
/// entries before it spills to the heap.
///
/// The verifier does not look inside: what the list holds is [`entity_list_items`],
/// and each operation below states its effect on that sequence as `smallvec`
/// documents it.
#[verifier::external_body]
#[derive(Debug)]
pub struct EntityList {
    inner: SmallVec<[Entity; 8]>,
}

/// The entries of a list, first to last.
pub uninterp spec fn entity_list_items(list: EntityList) -> Seq<Entity>;

impl View for EntityList {
    type V = Seq<Entity>;

    open spec fn view(&self) -> Seq<Entity> {
        entity_list_items(*self)
    }
}

/// `list` with every entry dropped that occurs in `removed`; the others keep their
/// order.
pub open spec fn remove_all(list: Seq<Entity>, removed: Seq<Entity>) -> Seq<Entity> {
    list.filter(|e: Entity| !removed.contains(e))
}

/// What [`remove_all`] keeps: exactly the entries that are none of `removed`,
/// without new repetitions.
pub proof fn lemma_remove_all(list: Seq<Entity>, removed: Seq<Entity>)
    ensures
        forall|e: Entity| #[trigger]
            remove_all(list, removed).contains(e) <==> list.contains(e) && !removed.contains(e),
        list.no_duplicates() ==> remove_all(list, removed).no_duplicates(),
        remove_all(list, removed).len() <= list.len(),
    decreases list.len(),
{
    reveal(Seq::filter);
    let keep = |e: Entity| !removed.contains(e);
    if list.len() > 0 {
        let init = list.drop_last();
        lemma_remove_all(init, removed);
        let kept = remove_all(init, removed);
        let all = remove_all(list, removed);
        assert forall|e: Entity| #[trigger] all.contains(e) <==> list.contains(e)
            && !removed.contains(e) by {
            if all.contains(e) {
                let i = choose|i: int| 0 <= i < all.len() && all[i] == e;
                if i < kept.len() {
                    assert(kept.contains(e));
                    let j = choose|j: int| 0 <= j < init.len() && init[j] == e;
                    assert(list[j] == e);
                } else {
                    assert(list[list.len() - 1] == e);
                }
            }
            if list.contains(e) && !removed.contains(e) {
                let j = choose|j: int| 0 <= j < list.len() && list[j] == e;
                if j < init.len() {
                    assert(init[j] == e);
                    assert(kept.contains(e));
                    let i = choose|i: int| 0 <= i < kept.len() && kept[i] == e;
                    assert(all[i] == e);
                } else {
                    assert(all[all.len() - 1] == e);
                }
            }
        }
        if list.no_duplicates() {
            assert(init.no_duplicates());
            if keep(list.last()) {
                assert(!kept.contains(list.last())) by {
                    if init.contains(list.last()) {
                        let j = choose|j: int| 0 <= j < init.len() && init[j] == list.last();
                        assert(list[j] == list[list.len() - 1]);
                    }
                }
            }
        }
    }
}

/// Taking out what is not there changes nothing.
pub proof fn lemma_remove_all_absent(list: Seq<Entity>, removed: Seq<Entity>)
    requires
        forall|e: Entity| removed.contains(e) ==> !list.contains(e),
    ensures
        remove_all(list, removed) == list,
    decreases list.len(),
{
    reveal(Seq::filter);
    if list.len() > 0 {
        let init = list.drop_last();
        assert forall|e: Entity| removed.contains(e) implies !init.contains(e) by {
            if init.contains(e) {
                let j = choose|j: int| 0 <= j < init.len() && init[j] == e;
                assert(list[j] == e);
            }
        }
        lemma_remove_all_absent(init, removed);
        assert(list[list.len() - 1] == list.last());
        assert(init.push(list.last()) =~= list);
    }
}

/// `SmallVec::new`: a list without entries.
#[verifier::external_body]
pub(crate) fn list_new() -> (list: EntityList)
    ensures
        entity_list_items(list) == Seq::<Entity>::empty(),
{
    EntityList { inner: SmallVec::new() }
}

/// `SmallVec::from_slice`: a list with the entries of `entities`, in their order.
#[verifier::external_body]
pub(crate) fn list_from_slice(entities: &[Entity]) -> (list: EntityList)
    ensures
        entity_list_items(list) == entities@,
{
    EntityList { inner: SmallVec::from_slice(entities) }
}

/// `SmallVec::len`: the number of entries.
#[verifier::external_body]
pub(crate) fn list_len(list: &EntityList) -> (n: usize)
    ensures
        n == entity_list_items(*list).len(),
{
    list.inner.len()
}

/// `SmallVec::is_empty`: whether the list has no entry.
#[verifier::external_body]
pub(crate) fn list_is_empty(list: &EntityList) -> (b: bool)
    ensures
        b == (entity_list_items(*list).len() == 0),
{
    list.inner.is_empty()
}

/// `SmallVec::as_slice`: the entries as a slice, in their order.
#[verifier::external_body]
pub(crate) fn list_as_slice(list: &EntityList) -> (s: &[Entity])
    ensures
        s@ == entity_list_items(*list),
{
    list.inner.as_slice()
}

/// `SmallVec::push`: appends `e` after the last entry.
#[verifier::external_body]
pub(crate) fn list_push(list: &mut EntityList, e: Entity)
    ensures
        entity_list_items(*final(list)) == entity_list_items(*old(list)).push(e),
{
    list.inner.push(e)
}

/// `SmallVec::insert`: puts `e` at position `index` and shifts the entries from
/// there on one place back. The call panics when `index` exceeds the length, which
/// the precondition excludes.
#[verifier::external_body]
pub(crate) fn list_insert(list: &mut EntityList, index: usize, e: Entity)
    requires
        index <= entity_list_items(*old(list)).len(),
    ensures
        entity_list_items(*final(list)) == entity_list_items(*old(list)).insert(index as int, e),
{
    list.inner.insert(index, e)
}

/// `SmallVec::insert_from_slice`: copies `entities` into the list starting at
/// position `index` and shifts the entries from there on back. The call panics when
/// `index` exceeds the length, which the precondition excludes.
#[verifier::external_body]
pub(crate) fn list_insert_from_slice(list: &mut EntityList, index: usize, entities: &[Entity])
    requires
        index <= entity_list_items(*old(list)).len(),
    ensures
        entity_list_items(*final(list)) == entity_list_items(*old(list)).subrange(0, index as int)
            + entities@ + entity_list_items(*old(list)).subrange(
            index as int,
            entity_list_items(*old(list)).len() as int,
        ),
{
    list.inner.insert_from_slice(index, entities)
}

/// `SmallVec::extend`: appends the entries of `entities`, in their order.
#[verifier::external_body]
pub(crate) fn list_extend(list: &mut EntityList, entities: &[Entity])
    ensures
        entity_list_items(*final(list)) == entity_list_items(*old(list)) + entities@,
{
    list.inner.extend(entities.iter().cloned())
}

/// Whether `e` is none of `removed`.
pub fn is_none_of(removed: &[Entity], e: &Entity) -> (b: bool)
    ensures
        b == !removed@.contains(*e),
{
    let mut i: usize = 0;
    while i < removed.len()
        invariant
            i <= removed.len(),
            forall|j: int| 0 <= j < i ==> removed@[j] != *e,
        decreases removed.len() - i,
    {
        if removed[i] == *e {
            return false;
        }
        i += 1;
    }
    true
}

/// Whether `e` is among the first `end` entries of `entities`.
pub fn occurs_before(entities: &[Entity], end: usize, e: Entity) -> (b: bool)
    requires
        end <= entities@.len(),
    ensures
        b == entities@.take(end as int).contains(e),
{
    let mut i: usize = 0;
    while i < end
        invariant
            i <= end <= entities@.len(),
            forall|j: int| 0 <= j < i ==> entities@[j] != e,
        decreases end - i,
    {
        if entities[i] == e {
            assert(entities@.take(end as int)[i as int] == e);
            return true;
        }
        i += 1;
    }
    false
}

/// `SmallVec::retain`: keeps, in their order, the entries that are none of
/// `removed`, and drops the others.
#[verifier::external_body]
pub(crate) fn list_retain_none_of(list: &mut EntityList, removed: &[Entity])
    ensures
        entity_list_items(*final(list)) == remove_all(entity_list_items(*old(list)), removed@),
{
    list.inner.retain(|e| is_none_of(removed, e))
}

/// `SmallVec::clone`: a list with the same entries.
#[verifier::external_body]
pub(crate) fn list_clone(list: &EntityList) -> (copy: EntityList)
    ensures
        entity_list_items(copy) == entity_list_items(*list),
{
    EntityList { inner: list.inner.clone() }
}

impl EntityList {
    /// A list without entries.
    pub fn new() -> (list: EntityList)
        ensures
            list@ == Seq::<Entity>::empty(),
    {
        list_new()
    }

    /// A list with the entries of `entities`, in their order.
    pub fn from_slice(entities: &[Entity]) -> (list: EntityList)
        ensures
            list@ == entities@,
    {
        list_from_slice(entities)
    }

    /// The number of entries.
    pub fn len(&self) -> (n: usize)
        ensures
            n == self@.len(),
    {
        list_len(self)
    }

    /// Whether the list has no entry.
    pub fn is_empty(&self) -> (b: bool)
        ensures
            b == (self@.len() == 0),
    {
        list_is_empty(self)
    }

    /// The entries as a slice, in their order.
    pub fn as_slice(&self) -> (entities: &[Entity])
        ensures
            entities@ == self@,
    {
        list_as_slice(self)
    }

    /// Appends `e` after the last entry.
    pub fn push(&mut self, e: Entity)
        ensures
            final(self)@ == old(self)@.push(e),
    {
        list_push(self, e)
    }
}

impl Clone for EntityList {
    fn clone(&self) -> (copy: EntityList)
        ensures
            copy@ == self@,
    {
        list_clone(self)
    }
}

/// The entities that a parent owns, in the order in which they were attached.
///
/// The order is meaningful to whoever walks the hierarchy. A list that the store
/// holds is never empty and names no entity twice.
#[derive(Debug)]
pub struct Children(pub EntityList);

impl View for Children {
    type V = Seq<Entity>;

    open spec fn view(&self) -> Seq<Entity> {
        self.0@
    }
}

impl Children {
    /// The list with the entries of `entities`, in their order.
    pub fn from_entities(entities: &[Entity]) -> (children: Children)
        ensures
            children@ == entities@,
    {
        Children(list_from_slice(entities))
    }

    /// The list with the one entry `entity`.
    pub fn from_entity(entity: Entity) -> (children: Children)
        ensures
            children@ == seq![entity],
    {
        let one = [entity];
        assert(one@ =~= seq![entity]);
        Children(list_from_slice(one.as_slice()))
    }

    /// The number of children.
    pub fn len(&self) -> (n: usize)
        ensures
            n == self@.len(),
    {
        list_len(&self.0)
    }

    /// Whether there is no child.
    pub fn is_empty(&self) -> (b: bool)
        ensures
            b == (self@.len() == 0),
    {
        list_is_empty(&self.0)
    }

    /// Whether `entity` is one of the children.
    pub fn contains(&self, entity: Entity) -> (found: bool)
        ensures
            found == self@.contains(entity),
    {
        !is_none_of(list_as_slice(&self.0), &entity)
    }

    /// The children as a slice, in their order.
    pub fn as_slice(&self) -> (entities: &[Entity])
        ensures
            entities@ == self@,
    {
        list_as_slice(&self.0)
    }
}

} // verus!
