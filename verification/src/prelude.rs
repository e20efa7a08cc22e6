//! Re-exports the most commonly used items.

pub use crate::entity::{Comp, CompMut, Entities, Entity, EntityStorage, GroupLayout};
pub use crate::resource::{NonSend, NonSendMut, NonSendResourceStorage, Res, ResMut, ResourceStorage};
pub use crate::schedule::{IntoConfig, Schedule, SystemConfig};
pub use crate::system::{Commands, Deferred, IntoSystem, Local, Run, System};
pub use crate::util::TypeData;
pub use crate::world::{FromWorld, World};
