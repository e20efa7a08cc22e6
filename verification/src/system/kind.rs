//! The kinds of access a system parameter can request, and when two of them
//! exclude each other.

use vstd::prelude::*;
use crate::util::TypeData;

verus! {

/// The family of data that a parameter kind points into. Data of different
/// families is stored apart, even under the same type identity.
#[derive(Clone, Copy, PartialEq, Eq, Structural, Hash, Debug)]
pub enum DataFamily {
    /// Components attached to entities.
    Component,
    /// Resources that may be shared between threads.
    Resource,
    /// Resources confined to the thread that owns the registry.
    NonSendResource,
}

/// The kind of data that can be borrowed from a registry.
#[derive(Clone, Copy, PartialEq, Eq, Structural, Hash, Debug)]
pub enum SystemParamKind {
    /// View over all entities of a registry.
    Entities,
    /// State private to one system instance.
    Local(TypeData),
    /// Shared view over all components of a given type.
    Comp(TypeData),
    /// Exclusive view over all components of a given type.
    CompMut(TypeData),
    /// Shared view over a resource of a given type.
    Res(TypeData),
    /// Exclusive view over a resource of a given type.
    ResMut(TypeData),
    /// Shared view over a thread-bound resource of a given type.
    NonSend(TypeData),
    /// Exclusive view over a thread-bound resource of a given type.
    NonSendMut(TypeData),
}

impl SystemParamKind {
    /// The type identity that the kind carries, if it carries one.
    pub open spec fn type_data(self) -> Option<TypeData> {
        match self {
            SystemParamKind::Entities => None,
            SystemParamKind::Local(t) => Some(t),
            SystemParamKind::Comp(t) => Some(t),
            SystemParamKind::CompMut(t) => Some(t),
            SystemParamKind::Res(t) => Some(t),
            SystemParamKind::ResMut(t) => Some(t),
            SystemParamKind::NonSend(t) => Some(t),
            SystemParamKind::NonSendMut(t) => Some(t),
        }
    }

    /// The registry data that the kind reaches: its family and type. The
    /// entity view and local state reach no data that another system can
    /// borrow.
    pub open spec fn target(self) -> Option<(DataFamily, TypeData)> {
        match self {
            SystemParamKind::Entities => None,
            SystemParamKind::Local(_) => None,
            SystemParamKind::Comp(t) => Some((DataFamily::Component, t)),
            SystemParamKind::CompMut(t) => Some((DataFamily::Component, t)),
            SystemParamKind::Res(t) => Some((DataFamily::Resource, t)),
            SystemParamKind::ResMut(t) => Some((DataFamily::Resource, t)),
            SystemParamKind::NonSend(t) => Some((DataFamily::NonSendResource, t)),
            SystemParamKind::NonSendMut(t) => Some((DataFamily::NonSendResource, t)),
        }
    }

    /// Whether the kind asks for exclusive access to its target.
    pub open spec fn is_exclusive(self) -> bool {
        match self {
            SystemParamKind::CompMut(_) => true,
            SystemParamKind::ResMut(_) => true,
            SystemParamKind::NonSendMut(_) => true,
            _ => false,
        }
    }

    /// Whether the kind can only be served on the thread that owns the
    /// registry.
    pub open spec fn is_thread_bound(self) -> bool {
        match self {
            SystemParamKind::NonSend(_) => true,
            SystemParamKind::NonSendMut(_) => true,
            _ => false,
        }
    }

    /// The conflict relation: both kinds reach the same data and at least
    /// one of them wants it exclusively.
    pub open spec fn conflicts(self, other: SystemParamKind) -> bool {
        &&& self.target() is Some
        &&& self.target() == other.target()
        &&& (self.is_exclusive() || other.is_exclusive())
    }

    /// Returns whether two system parameter kinds conflict, thus preventing
    /// two systems from running in parallel.
    #[must_use]
    pub fn conflicts_with(self, other: SystemParamKind) -> (conflict: bool)
        ensures
            conflict == self.conflicts(other),
    {
        match (self, other) {
            (SystemParamKind::Comp(c1), SystemParamKind::CompMut(c2)) => c1 == c2,
            (SystemParamKind::CompMut(c1), SystemParamKind::Comp(c2)) => c1 == c2,
            (SystemParamKind::CompMut(c1), SystemParamKind::CompMut(c2)) => c1 == c2,
            (SystemParamKind::Res(r1), SystemParamKind::ResMut(r2)) => r1 == r2,
            (SystemParamKind::ResMut(r1), SystemParamKind::Res(r2)) => r1 == r2,
            (SystemParamKind::ResMut(r1), SystemParamKind::ResMut(r2)) => r1 == r2,
            (SystemParamKind::NonSend(r1), SystemParamKind::NonSendMut(r2)) => r1 == r2,
            (SystemParamKind::NonSendMut(r1), SystemParamKind::NonSend(r2)) => r1 == r2,
            (SystemParamKind::NonSendMut(r1), SystemParamKind::NonSendMut(r2)) => r1 == r2,
            _ => false,
        }
    }

    /// Returns whether the kind asks for exclusive access.
    pub fn is_exclusive_access(self) -> (exclusive: bool)
        ensures
            exclusive == self.is_exclusive(),
    {
        match self {
            SystemParamKind::CompMut(_) => true,
            SystemParamKind::ResMut(_) => true,
            SystemParamKind::NonSendMut(_) => true,
            _ => false,
        }
    }

    /// Returns whether the kind reaches a thread-bound resource.
    pub fn is_thread_bound_access(self) -> (bound: bool)
        ensures
            bound == self.is_thread_bound(),
    {
        match self {
            SystemParamKind::NonSend(_) => true,
            SystemParamKind::NonSendMut(_) => true,
            _ => false,
        }
    }
}

/// Whether some kind of `a` conflicts with some kind of `b`.
pub open spec fn kinds_conflict(a: Seq<SystemParamKind>, b: Seq<SystemParamKind>) -> bool {
    exists|i: int, j: int| 0 <= i < a.len() && 0 <= j < b.len() && #[trigger] a[i].conflicts(#[trigger] b[j])
}

/// The conflict relation is symmetric.
pub proof fn lemma_conflicts_symmetric(a: SystemParamKind, b: SystemParamKind)
    ensures
        a.conflicts(b) == b.conflicts(a),
{
}

/// Two kinds that carry different type identities never conflict; neither
/// do two kinds of which only one carries a type identity.
pub proof fn lemma_distinct_types_never_conflict(a: SystemParamKind, b: SystemParamKind)
    requires
        a.type_data() != b.type_data(),
    ensures
        !a.conflicts(b),
{
}

/// Kinds of different families never conflict, whatever their types.
pub proof fn lemma_distinct_families_never_conflict(a: SystemParamKind, b: SystemParamKind)
    requires
        a.target() is Some,
        b.target() is Some,
        a.target().unwrap().0 != b.target().unwrap().0,
    ensures
        !a.conflicts(b),
{
}

/// On one type, two shared accesses never conflict, and an exclusive access
/// conflicts with every access, shared or exclusive, in either order. This
/// holds in each of the three families.
pub proof fn lemma_shared_and_exclusive(t: TypeData)
    ensures
        !SystemParamKind::Comp(t).conflicts(SystemParamKind::Comp(t)),
        SystemParamKind::Comp(t).conflicts(SystemParamKind::CompMut(t)),
        SystemParamKind::CompMut(t).conflicts(SystemParamKind::Comp(t)),
        SystemParamKind::CompMut(t).conflicts(SystemParamKind::CompMut(t)),
        !SystemParamKind::Res(t).conflicts(SystemParamKind::Res(t)),
        SystemParamKind::Res(t).conflicts(SystemParamKind::ResMut(t)),
        SystemParamKind::ResMut(t).conflicts(SystemParamKind::Res(t)),
        SystemParamKind::ResMut(t).conflicts(SystemParamKind::ResMut(t)),
        !SystemParamKind::NonSend(t).conflicts(SystemParamKind::NonSend(t)),
        SystemParamKind::NonSend(t).conflicts(SystemParamKind::NonSendMut(t)),
        SystemParamKind::NonSendMut(t).conflicts(SystemParamKind::NonSend(t)),
        SystemParamKind::NonSendMut(t).conflicts(SystemParamKind::NonSendMut(t)),
{
}

/// The entity view and local state conflict with nothing.
pub proof fn lemma_entities_and_local_never_conflict(t: TypeData, other: SystemParamKind)
    ensures
        !SystemParamKind::Entities.conflicts(other),
        !other.conflicts(SystemParamKind::Entities),
        !SystemParamKind::Local(t).conflicts(other),
        !other.conflicts(SystemParamKind::Local(t)),
{
}

/// The conflict relation between kind lists is symmetric.
pub proof fn lemma_kinds_conflict_symmetric(a: Seq<SystemParamKind>, b: Seq<SystemParamKind>)
    ensures
        kinds_conflict(a, b) == kinds_conflict(b, a),
{
    if kinds_conflict(a, b) {
        let (i, j) = choose|i: int, j: int| 0 <= i < a.len() && 0 <= j < b.len() && #[trigger] a[i].conflicts(#[trigger] b[j]);
        assert(b[j].conflicts(a[i]));
    }
    if kinds_conflict(b, a) {
        let (i, j) = choose|i: int, j: int| 0 <= i < b.len() && 0 <= j < a.len() && #[trigger] b[i].conflicts(#[trigger] a[j]);
        assert(a[j].conflicts(b[i]));
    }
}

/// Returns whether some kind of `a` conflicts with some kind of `b`.
pub fn any_conflict(a: &[SystemParamKind], b: &[SystemParamKind]) -> (conflict: bool)
    ensures
        conflict == kinds_conflict(a@, b@),
{
    let mut i: usize = 0;
    while i < a.len()
        invariant
            0 <= i <= a.len(),
            forall|x: int, y: int| 0 <= x < i && 0 <= y < b.len() ==> !(#[trigger] a@[x].conflicts(#[trigger] b@[y])),
        decreases a.len() - i,
    {
        let mut j: usize = 0;
        while j < b.len()
            invariant
                0 <= i < a.len(),
                0 <= j <= b.len(),
                forall|x: int, y: int| 0 <= x < i && 0 <= y < b.len() ==> !(#[trigger] a@[x].conflicts(#[trigger] b@[y])),
                forall|y: int| 0 <= y < j ==> !(a@[i as int].conflicts(#[trigger] b@[y])),
            decreases b.len() - j,
        {
            if a[i].conflicts_with(b[j]) {
                return true;
            }
            j = j + 1;
        }
        i = i + 1;
    }
    false
}

} // verus!
