//! Conditions: read-only systems that say whether another system runs.

use vstd::prelude::*;
use crate::system::{IntoSystem, ReadonlySystem, System};

verus! {

/// Anything that converts into a read-only system that returns a `bool`:
/// it can gate the execution of another system.
pub trait Condition<V: 'static, Marker>: IntoSystem<V, (), bool, Marker> {
    /// The read-only system that the condition converts into.
    type ReadonlySystem: ReadonlySystem<V, (), bool>;

    /// Turn this value into its read-only system, which declares what the
    /// value says that its system will.
    fn into_condition(self) -> (system: Self::ReadonlySystem)
        ensures
            system.kinds() == self.system_kinds(),
            system.exclusive() == self.system_exclusive(),
            system.thread_local() == self.system_thread_local(),
    ;
}

impl<V: 'static, Marker, F> Condition<V, Marker> for F where
    F: IntoSystem<V, (), bool, Marker>,
    F::System: ReadonlySystem<V, (), bool>,
 {
    type ReadonlySystem = F::System;

    fn into_condition(self) -> (system: Self::ReadonlySystem) {
        self.into_system()
    }
}

} // verus!
