//! Describes which component types a registry is set up for.

use vstd::prelude::*;
use crate::util::TypeData;

verus! {

/// The component types that a registry is created with, in families that
/// their storages may keep together.
pub struct GroupLayout {
    families: Vec<Vec<TypeData>>,
}

/// Whether `ty` occurs in one of `families`.
pub open spec fn families_contain(families: Seq<Vec<TypeData>>, ty: TypeData) -> bool {
    exists|i: int, j: int| 0 <= i < families.len() && 0 <= j < families[i]@.len() && #[trigger] families[i]@[j] == ty
}

impl GroupLayout {
    /// The families of the layout, in the order in which they were added.
    pub closed spec fn families(&self) -> Seq<Vec<TypeData>> {
        self.families@
    }

    /// The component types that the layout names.
    pub open spec fn types(&self) -> Set<TypeData> {
        Set::new(|ty: TypeData| families_contain(self.families(), ty))
    }

    /// Creates a layout that names no type.
    pub fn new() -> (layout: GroupLayout)
        ensures
            layout.families() == Seq::<Vec<TypeData>>::empty(),
    {
        GroupLayout { families: Vec::new() }
    }

    /// Adds a family of component types to the layout.
    pub fn add_family(&mut self, family: Vec<TypeData>)
        ensures
            final(self).families() == old(self).families().push(family),
    {
        self.families.push(family);
    }

    /// Returns the number of families.
    pub fn family_count(&self) -> (count: usize)
        ensures
            count == self.families().len(),
    {
        self.families.len()
    }

    /// Returns the family at `index`.
    pub fn family(&self, index: usize) -> (family: &Vec<TypeData>)
        requires
            index < self.families().len(),
        ensures
            *family == self.families()[index as int],
    {
        &self.families[index]
    }
}

} // verus!
