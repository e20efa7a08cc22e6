//! Resources: values stored once for each type identity.

pub mod borrow;
pub mod storage;

pub use self::borrow::{NonSend, NonSendMut, Res, ResMut};
pub use self::storage::{NonSendResourceStorage, ResourceStorage};
