//! Small building blocks shared by the storages and the scheduler.

use vstd::prelude::*;

verus! {

/// The identity of a kind of data held by a registry.
///
/// Two values denote the same component or resource type exactly when their
/// identifiers are equal.
#[derive(Clone, Copy, PartialEq, Eq, Structural, Hash, Debug)]
pub struct TypeData {
    /// The identifier that tells this type apart from every other.
    pub id: u64,
}

impl TypeData {
    /// Creates the identity with the given identifier.
    pub fn new(id: u64) -> (data: TypeData)
        ensures
            data == (TypeData { id }),
    {
        TypeData { id }
    }

    /// Returns the identifier.
    pub fn id(&self) -> (id: u64)
        ensures
            id == self.id,
    {
        self.id
    }
}

/// Position of the first occurrence of `item` in `items`, if there is one.
pub open spec fn first_index_of<T>(items: Seq<T>, item: T) -> Option<int> {
    if items.contains(item) {
        Some(choose|i: int| 0 <= i < items.len() && items[i] == item && !items.take(i).contains(item))
    } else {
        None
    }
}

/// `items` without its first occurrence of `item`.
pub open spec fn without<T>(items: Seq<T>, item: T) -> Seq<T> {
    match first_index_of(items, item) {
        Some(i) => items.remove(i),
        None => items,
    }
}

/// The first occurrence that `first_index_of` names is an occurrence, and the
/// earliest one.
pub proof fn lemma_first_index_of<T>(items: Seq<T>, item: T)
    requires
        items.contains(item),
    ensures
        first_index_of(items, item) is Some,
        0 <= first_index_of(items, item)->0 < items.len(),
        items[first_index_of(items, item)->0] == item,
        !items.take(first_index_of(items, item)->0).contains(item),
{
    let j = choose|j: int| 0 <= j < items.len() && items[j] == item;
    lemma_first_occurrence_exists(items, item, j);
}

proof fn lemma_first_occurrence_exists<T>(items: Seq<T>, item: T, j: int)
    requires
        0 <= j < items.len(),
        items[j] == item,
    ensures
        exists|i: int| 0 <= i < items.len() && items[i] == item && !items.take(i).contains(item),
    decreases j,
{
    if items.take(j).contains(item) {
        let k = choose|k: int| 0 <= k < items.take(j).len() && items.take(j)[k] == item;
        lemma_first_occurrence_exists(items, item, k);
    }
}

/// In a sequence without repetitions, `i` is the first index of `items[i]`.
pub proof fn lemma_first_index_unique<T>(items: Seq<T>, i: int)
    requires
        items.no_duplicates(),
        0 <= i < items.len(),
    ensures
        first_index_of(items, items[i]) == Some(i),
{
    lemma_first_index_of(items, items[i]);
}

/// Removing an item from a sequence without repetitions leaves none, and
/// leaves every other item in its place relative to the rest.
pub proof fn lemma_without<T>(items: Seq<T>, item: T)
    requires
        items.no_duplicates(),
    ensures
        without(items, item).no_duplicates(),
        !without(items, item).contains(item),
        forall|other: T| other != item ==> (without(items, item).contains(other) <==> items.contains(other)),
{
    if items.contains(item) {
        lemma_first_index_of(items, item);
        let i = first_index_of(items, item)->0;
        let out = items.remove(i);
        assert forall|a: int, b: int| 0 <= a < out.len() && 0 <= b < out.len() && a != b implies out[a] != out[b] by {
            let a2 = if a < i { a } else { a + 1 };
            let b2 = if b < i { b } else { b + 1 };
            assert(out[a] == items[a2]);
            assert(out[b] == items[b2]);
        }
        if out.contains(item) {
            let k = choose|k: int| 0 <= k < out.len() && out[k] == item;
            let k2 = if k < i { k } else { k + 1 };
            assert(out[k] == items[k2]);
        }
        assert forall|other: T| other != item implies (out.contains(other) <==> items.contains(other)) by {
            if out.contains(other) {
                let k = choose|k: int| 0 <= k < out.len() && out[k] == other;
                let k2 = if k < i { k } else { k + 1 };
                assert(out[k] == items[k2]);
            }
            if items.contains(other) {
                let k = choose|k: int| 0 <= k < items.len() && items[k] == other;
                let k2 = if k < i { k } else { k - 1 };
                assert(out[k2] == items[k]);
            }
        }
    }
}

} // verus!
