//! A cell giving read and write access to one long-lived graph node, such
//! as a module under construction.

use vstd::prelude::*;

verus! {

/// Owner of one mutable graph node.
pub struct LinkMut<T> {
    value: T,
}

impl<T> LinkMut<T> {
    pub closed spec fn spec_value(self) -> T {
        self.value
    }

    pub fn new(value: T) -> (r: LinkMut<T>)
        ensures
            r.spec_value() == value,
    {
        LinkMut { value }
    }

    pub fn as_ref(&self) -> (r: &T)
        ensures
            *r == self.spec_value(),
    {
        &self.value
    }

    pub fn as_mut(&mut self) -> (r: &mut T)
        ensures
            *r == old(self).spec_value(),
            final(self).spec_value() == *final(r),
    {
        &mut self.value
    }
}

} // verus!
