//! Hooks that run when a list is let go.

use vstd::prelude::*;

verus! {

/// What is done to a value before it is dropped.
pub trait DropHandler<T> {
    /// Runs on `obj` before it is dropped.
    fn drop_handler(obj: &mut T);
}

/// The handler that does nothing.
pub struct DefaultDropHandler;

impl<T> DropHandler<T> for DefaultDropHandler {
    /// Leaves `obj` as it is.
    fn drop_handler(obj: &mut T)
        ensures
            *final(obj) == *old(obj),
    {
    }
}

} // verus!
