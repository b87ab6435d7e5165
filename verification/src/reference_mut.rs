//! A cell giving read and write access to a value owned by a long-lived
//! node, such as a logger's current context string.

use vstd::prelude::*;

verus! {

/// Owner of one mutable value.
pub struct RefMut<T> {
    value: T,
}

impl<T> RefMut<T> {
    pub closed spec fn spec_value(self) -> T {
        self.value
    }

    pub fn new(value: T) -> (r: RefMut<T>)
        ensures
            r.spec_value() == value,
    {
        RefMut { value }
    }

    pub fn as_ref(&self) -> (r: &T)
        ensures
            *r == self.spec_value(),
    {
        &self.value
    }

    pub fn as_mut(&mut self) -> (r: &mut T)
        ensures
            *r == old(self).spec_value(),
            final(self).spec_value() == *final(r),
    {
        &mut self.value
    }
}

} // verus!
