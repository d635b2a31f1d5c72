//! Parent/child relationships between the entities of an entity store.
//!
//! A child carries a [`Parent`] back-reference and a parent an ordered, duplicate-free
//! [`Children`] list. Every operation of this crate leaves the two in agreement,
//! reports each structural change as one [`HierarchyEvent`], and destroying an
//! entity destroys its whole subtree.
//!
//! What an operation does is stated over [`WorldView`], the mathematical content
//! of a [`World`]; the module [`laws`] proves what holds of these operations.

pub mod child_builder;
pub mod commands;
pub mod components;
pub mod deferred;
pub mod entity;
pub mod events;
pub mod hierarchy;
pub mod laws;
pub mod model;
pub mod mutation;
pub mod world;

pub use child_builder::{HierachyEntityMutExt, HierarchyCommands, WorldChildBuilder};
pub use commands::{
    AddChild, AddChildren, CommandQueue, Despawn, HierarchyCommand, HierarchyError, InsertChild,
    InsertChildren, RemoveAllChildren, RemoveChild, RemoveChildren, RemoveParent,
};
pub use components::{Children, EntityList, Parent};
pub use deferred::{ChildBuilder, Commands, EntityCommands, HierachyEntityCommandsExt};
pub use entity::Entity;
pub use events::HierarchyEvent;
pub use hierarchy::{DespawnChildrenRecursive, DespawnRecursiveExt};
pub use model::{SlotView, WorldView};
pub use world::{EntityMut, World};
