use vstd::prelude::*;
use crate::entity::Entity;

verus! {

/// Notification of one structural change of the hierarchy.
///
/// Every logical change produces exactly one event; a move is one `ChildMoved`,
/// never a removal followed by an addition.
#[derive(Clone, Copy, Debug, PartialEq, Eq, Structural)]
pub enum HierarchyEvent {
    /// `child` had no parent and now has `parent`.
    ChildAdded {
        /// The entity that was given a parent.
        child: Entity,
        /// Its new parent.
        parent: Entity,
    },
    /// `child` had `parent` and now has none.
    ChildRemoved {
        /// The entity that lost its parent.
        child: Entity,
        /// The parent it had.
        parent: Entity,
    },
    /// `child` changed from `previous_parent` to a different `new_parent`.
    ChildMoved {
        /// The entity that was moved.
        child: Entity,
        /// The parent it had.
        previous_parent: Entity,
        /// The parent it has now.
        new_parent: Entity,
    },
}

} // verus!
