//! Trait-cast registry.
//!
//! A process would normally know a provider instance only through some
//! interface; reinterpreting it as another interface it implements needs a
//! table of cast capabilities. The registry holds one entry per
//! (target interface, source concrete type) pair; a cast succeeds exactly
//! when the pair for the handle's concrete type was registered.

use vstd::prelude::*;

verus! {

/// Identity of an interface or of a concrete provider type.
pub type TypeKey = u64;

/// A shared handle to one provider instance.
///
/// `instance_id` is the identity of the backing storage: two handles with
/// the same `instance_id` refer to the same instance. `concrete` is the
/// type the instance was constructed with and never changes; `view` is the
/// interface the handle is currently viewed through.
#[derive(Clone, Copy, PartialEq, Eq, Structural, Debug)]
pub struct Handle {
    pub instance_id: u64,
    pub concrete: TypeKey,
    pub view: TypeKey,
}

impl Handle {
    /// The same instance, viewed through `target`.
    pub open spec fn retargeted(self, target: TypeKey) -> Handle {
        Handle { instance_id: self.instance_id, concrete: self.concrete, view: target }
    }

    /// A fresh handle to an instance, initially viewed as its concrete type.
    pub fn new(instance_id: u64, concrete: TypeKey) -> (h: Handle)
        ensures
            h == (Handle { instance_id, concrete, view: concrete }),
    {
        Handle { instance_id, concrete, view: concrete }
    }

    /// Reinterpret this handle as `target`.
    ///
    /// Succeeds exactly when a caster from the handle's concrete type to
    /// `target` stands in the registry; the result is the same instance
    /// (same `instance_id`, same `concrete`) viewed through `target`.
    pub fn cast(&self, vtable: &Vtable, target: TypeKey) -> (r: Result<Handle, Error>)
        ensures
            r is Ok <==> vtable.has_caster(target, self.concrete),
            r is Ok ==> r->Ok_0 == self.retargeted(target),
            r is Err ==> r->Err_0.target == target && r->Err_0.source == self.concrete,
    {
        if vtable.contains_caster(target, self.concrete) {
            Ok(Handle { instance_id: self.instance_id, concrete: self.concrete, view: target })
        } else {
            Err(Error::for_missing_caster(target, self.concrete))
        }
    }

    /// Whether a cast of this handle to `target` would succeed.
    pub fn is(&self, vtable: &Vtable, target: TypeKey) -> (r: bool)
        ensures
            r == vtable.has_caster(target, self.concrete),
    {
        vtable.contains_caster(target, self.concrete)
    }
}

/// Cast round-trip: for a concrete instance registered under interfaces
/// `i1` and `i2` (and under its own concrete type, as every registration
/// step records), casting to `i1`, then to `i2`, then back to the concrete
/// type succeeds at every step and yields a handle equal to the original —
/// same backing storage, same concrete type, same view.
pub proof fn lemma_cast_round_trip(vtable: Vtable, h: Handle, i1: TypeKey, i2: TypeKey)
    requires
        vtable.has_caster(i1, h.concrete),
        vtable.has_caster(i2, h.concrete),
        vtable.has_caster(h.concrete, h.concrete),
        h.view == h.concrete,
    ensures
        vtable.has_caster(i1, h.concrete),
        vtable.has_caster(i2, h.retargeted(i1).concrete),
        vtable.has_caster(h.concrete, h.retargeted(i1).retargeted(i2).concrete),
        h.retargeted(i1).retargeted(i2).retargeted(h.concrete) == h,
{
}

/// One registered cast capability: instances of the concrete type `source`
/// may be reinterpreted as `target`.
#[derive(Clone, Copy, PartialEq, Eq, Structural, Debug)]
pub struct Caster {
    pub target: TypeKey,
    pub source: TypeKey,
}

impl Caster {
    pub fn new(target: TypeKey, source: TypeKey) -> (c: Caster)
        ensures
            c.target == target,
            c.source == source,
    {
        Caster { target, source }
    }
}

/// Error raised by a cast whose (target, source) pair was never registered.
#[derive(Debug)]
pub struct Error {
    pub msg: String,
    pub target: TypeKey,
    pub source: TypeKey,
}

impl Error {
    pub fn new(msg: &str) -> (e: Error)
        ensures
            e.msg@ == msg@,
            e.target == 0,
            e.source == 0,
    {
        Error { msg: msg.to_owned(), target: 0, source: 0 }
    }

    /// The error for a missing caster, carrying both identities for
    /// diagnostics.
    pub fn for_missing_caster(target: TypeKey, source: TypeKey) -> (e: Error)
        ensures
            e.target == target,
            e.source == source,
    {
        let msg: &str = "no caster registered for the requested interface";
        Error { msg: msg.to_owned(), target, source }
    }
}

/// The cast-function table: the set of registered (target, source) pairs.
pub struct Vtable {
    entries: Vec<Caster>,
}

impl Vtable {
    /// Whether a caster from concrete type `source` to interface `target`
    /// has been registered.
    pub closed spec fn has_caster(self, target: TypeKey, source: TypeKey) -> bool {
        exists|i: int|
            0 <= i < self.entries@.len() && self.entries@[i].target == target
                && self.entries@[i].source == source
    }

    /// An empty registry.
    pub fn new() -> (vt: Vtable)
        ensures
            forall|t: TypeKey, s: TypeKey| !vt.has_caster(t, s),
    {
        Vtable { entries: Vec::new() }
    }

    pub fn contains_caster(&self, target: TypeKey, source: TypeKey) -> (r: bool)
        ensures
            r == self.has_caster(target, source),
    {
        let mut i: usize = 0;
        while i < self.entries.len()
            invariant
                i <= self.entries@.len(),
                forall|j: int|
                    0 <= j < i ==> !(self.entries@[j].target == target
                        && self.entries@[j].source == source),
            decreases self.entries@.len() - i,
        {
            if self.entries[i].target == target && self.entries[i].source == source {
                return true;
            }
            i += 1;
        }
        false
    }

    /// Register a caster. Registration is idempotent per (target, source)
    /// key and order-independent: the registry afterwards holds exactly the
    /// old pairs plus the new one.
    pub fn register(&mut self, target: TypeKey, source: TypeKey)
        ensures
            forall|t: TypeKey, s: TypeKey|
                #[trigger] final(self).has_caster(t, s) <==> (old(self).has_caster(t, s) || (t
                    == target && s == source)),
    {
        if !self.contains_caster(target, source) {
            self.entries.push(Caster { target, source });
            assert forall|t: TypeKey, s: TypeKey| #[trigger]
                self.has_caster(t, s) <==> (old(self).has_caster(t, s) || (t == target && s
                == source)) by {
                if old(self).has_caster(t, s) {
                    let i = choose|i: int|
                        0 <= i < old(self).entries@.len() && old(self).entries@[i].target == t
                            && old(self).entries@[i].source == s;
                    assert(self.entries@[i].target == t && self.entries@[i].source == s);
                }
                if t == target && s == source {
                    let n = old(self).entries@.len() as int;
                    assert(self.entries@[n].target == t && self.entries@[n].source == s);
                }
                if self.has_caster(t, s) {
                    let i = choose|i: int|
                        0 <= i < self.entries@.len() && self.entries@[i].target == t
                            && self.entries@[i].source == s;
                    if i < old(self).entries@.len() {
                        assert(old(self).entries@[i].target == t);
                    }
                }
            }
        }
    }
}

} // verus!
