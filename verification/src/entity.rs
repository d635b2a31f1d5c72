use vstd::prelude::*;

verus! {

/// Identifier of a record in a [`World`](crate::world::World).
///
/// An identifier is a plain index into the store: it can be copied freely, owns
/// nothing, and two identifiers are the same entity exactly when their indices are
/// equal. The store never hands an index out twice, so an identifier of a destroyed
/// entity stays dead for ever.
#[derive(Clone, Copy, Debug, PartialEq, Eq, Hash, Structural)]
pub struct Entity {
    /// Position of the entity's slot in the store.
    pub index: usize,
}

impl Entity {
    /// Makes the identifier that stands for the slot at `index`.
    pub fn from_raw(index: usize) -> (e: Entity)
        ensures
            e.index == index,
    {
        Entity { index }
    }

    /// Returns the position of the entity's slot in the store.
    pub fn index(&self) -> (i: usize)
        ensures
            i == self.index,
    {
        self.index
    }
}

} // verus!
