//! A deferred instance slot: the dependency field of a provider, empty at
//! construction and assigned during the link phase. Reading an unassigned
//! slot is reported as `None`, never as a crash.

use vstd::prelude::*;

use crate::cast::{Error, Handle, TypeKey, Vtable};

verus! {

/// State of a deferred slot.
#[derive(Clone, Copy, PartialEq, Eq, Structural, Debug)]
pub enum RefValue {
    /// The slot has been assigned an instance.
    Initialized(Handle),
    /// The slot is still waiting for the link phase.
    WaitingForValue,
}

/// A reference to one provider instance, possibly not yet assigned.
#[derive(Clone, Copy, PartialEq, Eq, Structural, Debug)]
pub struct Ref {
    value: RefValue,
}

impl Ref {
    pub closed spec fn spec_value(self) -> RefValue {
        self.value
    }

    pub open spec fn is_initialized(self) -> bool {
        self.spec_value() is Initialized
    }

    /// The assigned instance (meaningful when initialized).
    pub open spec fn spec_handle(self) -> Handle {
        self.spec_value()->Initialized_0
    }

    pub fn new(value: Handle) -> (r: Ref)
        ensures
            r.is_initialized(),
            r.spec_handle() == value,
    {
        Ref { value: RefValue::Initialized(value) }
    }

    pub fn empty() -> (r: Ref)
        ensures
            !r.is_initialized(),
    {
        Ref { value: RefValue::WaitingForValue }
    }

    /// The assigned instance, or `None` when the slot was read before the
    /// link phase assigned it.
    pub fn as_ref(&self) -> (r: Option<Handle>)
        ensures
            r is Some <==> self.is_initialized(),
            r is Some ==> r->0 == self.spec_handle(),
    {
        match self.value {
            RefValue::Initialized(h) => Some(h),
            RefValue::WaitingForValue => None,
        }
    }

    /// Assign the slot; an already assigned slot is overwritten.
    pub fn __init(&mut self, value: Handle)
        ensures
            final(self).is_initialized(),
            final(self).spec_handle() == value,
    {
        self.value = RefValue::Initialized(value);
    }

    /// Reinterpret the referenced instance as `target`. Fails when the
    /// slot is unassigned or no caster is registered for the pair.
    pub fn cast(&self, vtable: &Vtable, target: TypeKey) -> (r: Result<Ref, Error>)
        ensures
            r is Ok <==> self.is_initialized() && vtable.has_caster(
                target,
                self.spec_handle().concrete,
            ),
            r is Ok ==> r->Ok_0.is_initialized() && r->Ok_0.spec_handle()
                == self.spec_handle().retargeted(target),
            self.is_initialized() && r is Err ==> r->Err_0.target == target && r->Err_0.source
                == self.spec_handle().concrete,
    {
        match self.as_ref() {
            Some(h) => {
                match h.cast(vtable, target) {
                    Ok(h2) => Ok(Ref::new(h2)),
                    Err(e) => Err(e),
                }
            },
            None => Err(Error::new("slot read before the link phase assigned it")),
        }
    }

    /// Whether a cast of the referenced instance to `target` would
    /// succeed.
    pub fn is(&self, vtable: &Vtable, target: TypeKey) -> (r: bool)
        ensures
            r == (self.is_initialized() && vtable.has_caster(target, self.spec_handle().concrete)),
    {
        match self.as_ref() {
            Some(h) => h.is(vtable, target),
            None => false,
        }
    }
}

} // verus!
