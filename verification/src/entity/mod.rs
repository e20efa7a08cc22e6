//! Entities and their components.

pub mod allocator;
pub mod component;
pub mod entity;
pub mod layout;
pub mod storage;

pub use self::component::{Comp, CompMut, ComponentStorage};
pub use self::entity::{entity_at, entity_for, fresh_entities, Entity, ATOMIC_BASE, NULL_INDEX};
pub use self::layout::GroupLayout;
pub use self::storage::{Entities, EntityStorage};
