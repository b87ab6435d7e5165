//! A lazily initialized handle cell whose assignment goes through the
//! cast registry: `init` reinterprets the incoming instance as the cell's
//! declared interface before storing it.

use vstd::prelude::*;

use crate::cast::{Error, Handle, TypeKey, Vtable};

verus! {

enum LinkValue {
    Initialized(Handle),
    WaitingForValue,
}

/// A cell holding an instance viewed through one declared interface,
/// empty until the wiring code assigns it.
pub struct Link {
    /// The interface every stored instance is viewed through.
    target: TypeKey,
    value: LinkValue,
}

impl Link {
    pub closed spec fn spec_target(self) -> TypeKey {
        self.target
    }

    pub closed spec fn is_initialized(self) -> bool {
        self.value is Initialized
    }

    /// The stored instance (meaningful when initialized).
    pub closed spec fn spec_handle(self) -> Handle {
        self.value->Initialized_0
    }

    pub fn new(target: TypeKey, value: Handle) -> (r: Link)
        ensures
            r.spec_target() == target,
            r.is_initialized(),
            r.spec_handle() == value,
    {
        Link { target, value: LinkValue::Initialized(value) }
    }

    pub fn empty(target: TypeKey) -> (r: Link)
        ensures
            r.spec_target() == target,
            !r.is_initialized(),
    {
        Link { target, value: LinkValue::WaitingForValue }
    }

    /// The stored instance, or `None` when nothing was assigned yet.
    pub fn as_ref(&self) -> (r: Option<Handle>)
        ensures
            r is Some <==> self.is_initialized(),
            r is Some ==> r->0 == self.spec_handle(),
    {
        match self.value {
            LinkValue::Initialized(h) => Some(h),
            LinkValue::WaitingForValue => None,
        }
    }

    /// Assign the cell: the instance is cast to the cell's declared
    /// interface and stored. Fails, leaving the cell unchanged, when no
    /// caster was registered for the pair.
    pub fn init(&mut self, vtable: &Vtable, value: Handle) -> (r: Result<(), Error>)
        ensures
            r is Ok <==> vtable.has_caster(old(self).spec_target(), value.concrete),
            r is Ok ==> final(self).is_initialized() && final(self).spec_handle()
                == value.retargeted(old(self).spec_target()),
            r is Err ==> *final(self) == *old(self) && r->Err_0.target == old(self).spec_target()
                && r->Err_0.source == value.concrete,
            final(self).spec_target() == old(self).spec_target(),
    {
        match value.cast(vtable, self.target) {
            Ok(h) => {
                self.value = LinkValue::Initialized(h);
                Ok(())
            },
            Err(e) => Err(e),
        }
    }

    /// Reinterpret the stored instance as `target`. Fails when the cell is
    /// unassigned or the pair was never registered.
    pub fn cast(&self, vtable: &Vtable, target: TypeKey) -> (r: Result<Handle, Error>)
        ensures
            r is Ok <==> self.is_initialized() && vtable.has_caster(
                target,
                self.spec_handle().concrete,
            ),
            r is Ok ==> r->Ok_0 == self.spec_handle().retargeted(target),
            self.is_initialized() && r is Err ==> r->Err_0.target == target && r->Err_0.source
                == self.spec_handle().concrete,
    {
        match self.as_ref() {
            Some(h) => h.cast(vtable, target),
            None => Err(Error::new("cell read before wiring assigned it")),
        }
    }

    /// Whether a cast of the stored instance to `target` would succeed.
    pub fn is(&self, vtable: &Vtable, target: TypeKey) -> (r: bool)
        ensures
            r == (self.is_initialized() && vtable.has_caster(target, self.spec_handle().concrete)),
    {
        match self.as_ref() {
            Some(h) => h.is(vtable, target),
            None => false,
        }
    }
}

} // verus!
