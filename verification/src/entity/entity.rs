//! Entity identities.

use vstd::prelude::*;

verus! {

/// First index of the range from which entities are handed out under shared
/// access. Entities created under exclusive access lie below it.
pub const ATOMIC_BASE: u64 = 0x8000_0000_0000_0000u64;

/// Index of the entity that stands for "none left": it is handed out when
/// the shared range is used up, and is never stored.
pub const NULL_INDEX: u64 = 0xffff_ffff_ffff_ffffu64;

/// Uniquely identifies a set of components in a registry.
#[derive(Clone, Copy, PartialEq, Eq, Structural, Hash, Debug)]
pub struct Entity {
    /// The number that tells the entity apart from every other.
    pub index: u64,
}

impl Entity {
    /// Creates the entity with the given index.
    pub fn new(index: u64) -> (entity: Entity)
        ensures
            entity == (Entity { index }),
    {
        Entity { index }
    }

    /// Returns the index of the entity.
    pub fn index(&self) -> (index: u64)
        ensures
            index == self.index,
    {
        self.index
    }

    /// Whether this is the entity that is never stored.
    pub open spec fn is_null_spec(&self) -> bool {
        self.index == NULL_INDEX
    }

    /// Returns whether this is the entity that is never stored.
    pub fn is_null(&self) -> (null: bool)
        ensures
            null == self.is_null_spec(),
    {
        self.index == NULL_INDEX
    }
}

/// The entity that stands for the number `offset` where indexes are handed
/// out from `base` on: the entity with the index `base + offset`, and the
/// entity that is never stored where the range is used up.
pub open spec fn entity_at(base: u64, offset: u64) -> Entity {
    Entity {
        index: if offset < NULL_INDEX - base {
            (base + offset) as u64
        } else {
            NULL_INDEX
        },
    }
}

/// The entity that stands for the number `offset` drawn from the counter of
/// a view that hands out indexes from `base` on: the entity with the index
/// `base + offset`, and the entity that is never stored where the range is
/// used up. Different numbers below the end of the range give different
/// entities.
pub fn entity_for(base: u64, offset: u64) -> (entity: Entity)
    requires
        base >= ATOMIC_BASE,
    ensures
        entity == entity_at(base, offset),
        entity.index == if offset < NULL_INDEX - base {
            (base + offset) as u64
        } else {
            NULL_INDEX
        },
{
    if offset < NULL_INDEX - base {
        Entity { index: base + offset }
    } else {
        Entity { index: NULL_INDEX }
    }
}

/// Two numbers drawn from the counter that lie below the end of the range
/// give two entities, and neither is the entity that is never stored.
pub proof fn lemma_entity_for_is_injective(base: u64, first: u64, second: u64)
    requires
        base >= ATOMIC_BASE,
        first != second,
        first < NULL_INDEX - base,
        second < NULL_INDEX - base,
    ensures
        entity_at(base, first) != entity_at(base, second),
        !entity_at(base, first).is_null_spec(),
        !entity_at(base, second).is_null_spec(),
{
}

/// The entities with the indexes `from`, `from + 1`, up to but excluding
/// `to`, in this order.
pub open spec fn fresh_entities(from: int, to: int) -> Seq<Entity> {
    Seq::new(
        if to >= from { (to - from) as nat } else { 0 },
        |i: int| Entity { index: (from + i) as u64 },
    )
}

} // verus!
