//! Run-time checked borrows of resources.

use vstd::prelude::*;
use atomic_refcell::{AtomicRef, AtomicRefCell, AtomicRefMut};

verus! {

/// A cell whose content is borrowed under run-time checks. What it holds is
/// not visible to proofs: it can change behind a shared reference.
#[verifier::external_type_specification]
#[verifier::external_body]
#[verifier::reject_recursive_types(T)]
pub struct ExAtomicRefCell<T: ?Sized>(AtomicRefCell<T>);

/// A live shared borrow of a cell's content.
#[verifier::external_type_specification]
#[verifier::external_body]
#[verifier::reject_recursive_types(T)]
pub struct ExAtomicRef<'b, T: ?Sized>(AtomicRef<'b, T>);

/// A live exclusive borrow of a cell's content.
#[verifier::external_type_specification]
#[verifier::external_body]
#[verifier::reject_recursive_types(T)]
pub struct ExAtomicRefMut<'b, T: ?Sized + 'b>(AtomicRefMut<'b, T>);

/// `AtomicRefCell::new`: a cell that holds `value` and has no borrow.
/// Nothing is claimed of the result, a cell's content being invisible to
/// proofs.
#[verifier::external_body]
pub(crate) fn cell_new<T>(value: T) -> AtomicRefCell<T> {
    AtomicRefCell::new(value)
}

/// `AtomicRefCell::into_inner`: the content of a cell that is given up.
/// Nothing is claimed of the result. The call is made only by `content_of`,
/// on a cell that `check_free` found free: an exclusive borrow of it was
/// granted and ended while the cell was owned, so that no borrow of it is
/// counted, which the outside function asserts in a build with debug
/// assertions.
#[verifier::external_body]
fn cell_into_inner<T>(cell: AtomicRefCell<T>) -> T {
    cell.into_inner()
}

/// `AtomicRefCell::get_mut`: the content of a cell that is held exclusively.
/// Nothing is claimed of the content. The call is made only on a cell that
/// `check_free_mut` found free: an exclusive borrow of it was granted and
/// ended while the cell was held exclusively, so that no borrow of it is
/// counted, which the outside function asserts in a build with debug
/// assertions.
#[verifier::external_body]
fn cell_get_mut<T>(cell: &mut AtomicRefCell<T>) -> &mut T {
    cell.get_mut()
}

/// A cell that is given up and of which no borrow is counted. Only
/// `check_free` makes one.
#[verifier::reject_recursive_types(T)]
pub struct FreeCell<T>(AtomicRefCell<T>);

/// A cell that is held exclusively and of which no borrow is counted. Only
/// `check_free_mut` makes one.
#[verifier::reject_recursive_types(T)]
pub struct FreeCellMut<'a, T>(&'a mut AtomicRefCell<T>);

/// Tests whether a borrow of the cell is counted, as it is after a guard
/// was leaked. The cell comes back as a free cell where none is, and as it
/// is where one is. The count decides, so nothing is claimed of the
/// outcome.
pub fn check_free<T>(cell: AtomicRefCell<T>) -> Result<FreeCell<T>, AtomicRefCell<T>> {
    let free = cell_try_borrow_mut(&cell).is_some();
    if free {
        Ok(FreeCell(cell))
    } else {
        Err(cell)
    }
}

/// Tests whether a borrow of the cell is counted, as it is after a guard
/// was leaked. The count decides, so nothing is claimed of the outcome.
pub fn check_free_mut<'a, T>(cell: &'a mut AtomicRefCell<T>) -> Option<FreeCellMut<'a, T>> {
    let free = cell_try_borrow_mut(&*cell).is_some();
    if free {
        Some(FreeCellMut(cell))
    } else {
        None
    }
}

/// The content of a cell that is given up: it is owed exactly when the cell
/// was found free. The content of a cell that was not is dropped with
/// the cell.
pub fn content_of<T>(checked: Result<FreeCell<T>, AtomicRefCell<T>>) -> (content: Option<T>)
    ensures
        content is Some == checked is Ok,
{
    match checked {
        Ok(free) => Some(cell_into_inner(free.0)),
        Err(_) => None,
    }
}

/// The content of a cell that is held exclusively, open to change: it is
/// owed exactly when the cell was found free.
pub fn content_mut_of<'a, T>(checked: Option<FreeCellMut<'a, T>>) -> (content: Option<&'a mut T>)
    ensures
        content is Some == checked is Some,
{
    match checked {
        Some(free) => Some(cell_get_mut(free.0)),
        None => None,
    }
}

/// Puts `value` in the place of the content of a cell that was found free,
/// and hands out the content that was there: it is owed exactly when the
/// cell was found free. Where the cell was not, `value` comes back as it
/// is.
pub fn exchange<'a, T>(checked: Option<FreeCellMut<'a, T>>, value: T) -> (outcome: Result<T, T>)
    ensures
        outcome is Ok == checked is Some,
        outcome is Err ==> outcome->Err_0 == value,
{
    match checked {
        Some(free) => {
            let mut value = value;
            core::mem::swap(cell_get_mut(free.0), &mut value);
            Ok(value)
        },
        None => Err(value),
    }
}

/// `AtomicRefCell::try_borrow`: a shared borrow, unless the content is
/// borrowed exclusively at this moment. Which of the two comes back depends
/// on the borrows that are live, so nothing is claimed of it. The call
/// panics where more shared borrows are alive, or were leaked, than half
/// the range of `usize` counts. The library is meant for targets with
/// addresses of 64 bits, on which so many guards cannot have been made.
#[verifier::external_body]
pub(crate) fn cell_try_borrow<'a, T>(cell: &'a AtomicRefCell<T>) -> Option<AtomicRef<'a, T>> {
    match cell.try_borrow() {
        Ok(guard) => Some(guard),
        Err(_) => None,
    }
}

/// `AtomicRefCell::try_borrow_mut`: an exclusive borrow, unless the content
/// is borrowed at this moment. Which of the two comes back depends on the
/// borrows that are live, so nothing is claimed of it.
#[verifier::external_body]
pub(crate) fn cell_try_borrow_mut<'a, T>(cell: &'a AtomicRefCell<T>) -> Option<AtomicRefMut<'a, T>> {
    match cell.try_borrow_mut() {
        Ok(guard) => Some(guard),
        Err(_) => None,
    }
}

/// `Deref::deref` of `AtomicRef`: the borrowed content.
#[verifier::external_body]
pub(crate) fn guard_get<'a, 'b, T>(guard: &'a AtomicRef<'b, T>) -> &'a T {
    &**guard
}

/// `Deref::deref` of `AtomicRefMut`: the borrowed content.
#[verifier::external_body]
pub(crate) fn guard_mut_get<'a, 'b, T>(guard: &'a AtomicRefMut<'b, T>) -> &'a T {
    &**guard
}

/// `DerefMut::deref_mut` of `AtomicRefMut`: the borrowed content, open to
/// change.
#[verifier::external_body]
pub(crate) fn guard_mut_get_mut<'a, 'b, T>(guard: &'a mut AtomicRefMut<'b, T>) -> &'a mut T {
    &mut **guard
}

/// Shared borrow over a resource.
#[verifier::reject_recursive_types(T)]
pub struct Res<'a, T>(pub(crate) AtomicRef<'a, T>);

/// Exclusive borrow over a resource.
#[verifier::reject_recursive_types(T)]
pub struct ResMut<'a, T>(pub(crate) AtomicRefMut<'a, T>);

/// Shared borrow over a thread-bound resource.
#[verifier::reject_recursive_types(T)]
pub struct NonSend<'a, T>(pub(crate) AtomicRef<'a, T>);

/// Exclusive borrow over a thread-bound resource.
#[verifier::reject_recursive_types(T)]
pub struct NonSendMut<'a, T>(pub(crate) AtomicRefMut<'a, T>);

impl<'a, T> Res<'a, T> {
    /// The borrowed resource.
    pub fn get(&self) -> &T {
        guard_get(&self.0)
    }
}

impl<'a, T> ResMut<'a, T> {
    /// The borrowed resource.
    pub fn get(&self) -> &T {
        guard_mut_get(&self.0)
    }

    /// The borrowed resource, open to change.
    pub fn get_mut(&mut self) -> &mut T {
        guard_mut_get_mut(&mut self.0)
    }
}

impl<'a, T> NonSend<'a, T> {
    /// The borrowed resource.
    pub fn get(&self) -> &T {
        guard_get(&self.0)
    }
}

impl<'a, T> NonSendMut<'a, T> {
    /// The borrowed resource.
    pub fn get(&self) -> &T {
        guard_mut_get(&self.0)
    }

    /// The borrowed resource, open to change.
    pub fn get_mut(&mut self) -> &mut T {
        guard_mut_get_mut(&mut self.0)
    }
}

} // verus!
