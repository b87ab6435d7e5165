//! One provider's runtime identity: its scope policy and its lazily
//! populated instance cells, keyed by inquirer and context.

use vstd::prelude::*;

use crate::cast::Handle;

verus! {

/// The context id of the non-request-scoped singleton slot.
pub const STATIC_CONTEXT: u64 = 0;

/// How many instances of a provider may exist and how they are keyed.
#[derive(Clone, Copy, PartialEq, Eq, Structural, Debug)]
pub enum Scope {
    /// The provider is shared: all consumers receive the same instance.
    Singleton,
    /// One private instance per distinct inquirer.
    Transient,
    /// Reserved: would additionally key by a session/request context.
    ContextDependent,
}

impl Default for Scope {
    fn default() -> (s: Scope)
        ensures
            s == Scope::Singleton,
    {
        Scope::Singleton
    }
}

/// One populated cell of the instance cache: which consuming instance
/// (inquirer) in which context holds which instance.
#[derive(Clone, Copy, PartialEq, Eq, Structural, Debug)]
pub struct InstanceCell {
    pub inquirer_id: u64,
    pub context_id: u64,
    pub instance: Handle,
}

/// The instance wrapper of one provider: identity, token, owning module,
/// scope, and the instance cache. A cell, once populated, is only ever
/// overwritten by an explicit re-registration, never cleared.
pub struct InstanceWrapper {
    id: u64,
    token: String,
    host: String,
    scope: Scope,
    cells: Vec<InstanceCell>,
}

impl InstanceWrapper {
    pub closed spec fn spec_id(self) -> u64 {
        self.id
    }

    pub closed spec fn spec_token(self) -> Seq<char> {
        self.token@
    }

    /// Token of the module this provider is declared in.
    pub closed spec fn spec_host(self) -> Seq<char> {
        self.host@
    }

    pub closed spec fn spec_scope(self) -> Scope {
        self.scope
    }

    pub closed spec fn cells_seq(self) -> Seq<InstanceCell> {
        self.cells@
    }

    /// Cell keys are unique: one cell per (inquirer, context) pair.
    pub open spec fn wf(self) -> bool {
        forall|k1: int, k2: int|
            0 <= k1 < k2 < self.cells_seq().len() ==> !(self.cells_seq()[k1].inquirer_id
                == self.cells_seq()[k2].inquirer_id && self.cells_seq()[k1].context_id
                == self.cells_seq()[k2].context_id)
    }

    pub open spec fn has_cell(self, inquirer_id: u64, context_id: u64) -> bool {
        exists|k: int|
            0 <= k < self.cells_seq().len() && self.cells_seq()[k].inquirer_id == inquirer_id
                && self.cells_seq()[k].context_id == context_id
    }

    pub open spec fn cell_value(self, inquirer_id: u64, context_id: u64) -> Handle {
        let k = choose|k: int|
            0 <= k < self.cells_seq().len() && self.cells_seq()[k].inquirer_id == inquirer_id
                && self.cells_seq()[k].context_id == context_id;
        self.cells_seq()[k].instance
    }

    /// Identity, token, host and scope agree (the cache may differ).
    pub open spec fn same_identity(self, other: InstanceWrapper) -> bool {
        self.spec_id() == other.spec_id() && self.spec_token() == other.spec_token()
            && self.spec_host() == other.spec_host() && self.spec_scope() == other.spec_scope()
    }

    /// The inquirer key of the cell this wrapper's scope addresses: a
    /// transient keys by the consuming instance, anything else by the
    /// wrapper's own id.
    pub open spec fn cell_key_inq(self, inquirer_id: u64) -> u64 {
        if self.spec_scope() == Scope::Transient {
            inquirer_id
        } else {
            self.spec_id()
        }
    }

    /// The context key of that cell: a transient keys by the session
    /// context, anything else by the static context.
    pub open spec fn cell_key_ctx(self, context_id: u64) -> u64 {
        if self.spec_scope() == Scope::Transient {
            context_id
        } else {
            STATIC_CONTEXT
        }
    }

    /// For a singleton only the (own id, static context) cell is ever
    /// populated; maintained by the build pipeline, not by this type.
    pub open spec fn scope_cells_ok(self) -> bool {
        self.spec_scope() == Scope::Singleton ==> forall|i: u64, c: u64|
            #[trigger] self.has_cell(i, c) ==> i == self.spec_id() && c == STATIC_CONTEXT
    }

    pub fn new(id: u64, token: String, host: String) -> (w: InstanceWrapper)
        ensures
            w.wf(),
            w.spec_id() == id,
            w.spec_token() == token@,
            w.spec_host() == host@,
            w.spec_scope() == Scope::Singleton,
            w.cells_seq().len() == 0,
    {
        InstanceWrapper { id, token, host, scope: Scope::Singleton, cells: Vec::new() }
    }

    pub fn get_id(&self) -> (r: u64)
        ensures
            r == self.spec_id(),
    {
        self.id
    }

    pub fn get_token(&self) -> (r: String)
        ensures
            r@ == self.spec_token(),
    {
        self.token.clone()
    }

    pub fn get_host(&self) -> (r: String)
        ensures
            r@ == self.spec_host(),
    {
        self.host.clone()
    }

    pub fn get_scope(&self) -> (r: Scope)
        ensures
            r == self.spec_scope(),
    {
        self.scope
    }

    pub fn set_scope(&mut self, scope: Scope)
        ensures
            final(self).spec_scope() == scope,
            final(self).spec_id() == old(self).spec_id(),
            final(self).spec_token() == old(self).spec_token(),
            final(self).spec_host() == old(self).spec_host(),
            final(self).cells_seq() == old(self).cells_seq(),
    {
        self.scope = scope;
    }

    /// Index of the cell for (inquirer, context), if populated.
    fn find_cell(&self, inquirer_id: u64, context_id: u64) -> (r: Option<usize>)
        ensures
            r is Some <==> self.has_cell(inquirer_id, context_id),
            r is Some ==> 0 <= r->0 < self.cells_seq().len()
                && self.cells_seq()[r->0 as int].inquirer_id == inquirer_id
                && self.cells_seq()[r->0 as int].context_id == context_id,
    {
        let mut k: usize = 0;
        while k < self.cells.len()
            invariant
                k <= self.cells@.len(),
                forall|j: int|
                    0 <= j < k ==> !(self.cells@[j].inquirer_id == inquirer_id
                        && self.cells@[j].context_id == context_id),
            decreases self.cells@.len() - k,
        {
            if self.cells[k].inquirer_id == inquirer_id && self.cells[k].context_id == context_id {
                return Some(k);
            }
            k += 1;
        }
        None
    }

    /// Populate (or silently overwrite) the cell for (inquirer, context).
    /// Callers wanting create-at-most-once check `has_instance...` first.
    pub fn set_instance_by_inquirer_id(&mut self, inquirer_id: u64, context_id: u64, instance: Handle)
        requires
            old(self).wf(),
        ensures
            final(self).wf(),
            final(self).same_identity(*old(self)),
            final(self).has_cell(inquirer_id, context_id),
            final(self).cell_value(inquirer_id, context_id) == instance,
            forall|i: u64, c: u64|
                !(i == inquirer_id && c == context_id) ==> #[trigger] final(self).has_cell(i, c)
                    == old(self).has_cell(i, c),
            forall|i: u64, c: u64|
                !(i == inquirer_id && c == context_id) && old(self).has_cell(i, c)
                    ==> #[trigger] final(self).cell_value(i, c) == old(self).cell_value(i, c),
    {
        let cell = InstanceCell { inquirer_id, context_id, instance };
        match self.find_cell(inquirer_id, context_id) {
            Some(k) => {
                self.cells[k] = cell;
                assert(self.cells@ == old(self).cells@.update(k as int, cell));
                proof {
                    self.lemma_cells_update_frame(*old(self), k as int, inquirer_id, context_id, instance);
                }
            },
            None => {
                self.cells.push(cell);
                assert(self.cells@ == old(self).cells@.push(cell));
                proof {
                    self.lemma_cells_push_frame(*old(self), inquirer_id, context_id, instance);
                }
            },
        }
    }

    /// Frame lemma for overwriting an existing cell in place.
    proof fn lemma_cells_update_frame(
        self,
        prev: InstanceWrapper,
        k: int,
        inquirer_id: u64,
        context_id: u64,
        instance: Handle,
    )
        requires
            prev.wf(),
            0 <= k < prev.cells_seq().len(),
            prev.cells_seq()[k].inquirer_id == inquirer_id,
            prev.cells_seq()[k].context_id == context_id,
            self.cells_seq() == prev.cells_seq().update(
                k,
                InstanceCell { inquirer_id, context_id, instance },
            ),
        ensures
            self.wf(),
            self.has_cell(inquirer_id, context_id),
            self.cell_value(inquirer_id, context_id) == instance,
            forall|i: u64, c: u64|
                !(i == inquirer_id && c == context_id) ==> #[trigger] self.has_cell(i, c)
                    == prev.has_cell(i, c),
            forall|i: u64, c: u64|
                !(i == inquirer_id && c == context_id) && prev.has_cell(i, c)
                    ==> #[trigger] self.cell_value(i, c) == prev.cell_value(i, c),
    {
        assert(self.cells_seq()[k].inquirer_id == inquirer_id);
        assert forall|i: u64, c: u64|
            !(i == inquirer_id && c == context_id) implies #[trigger] self.has_cell(i, c)
            == prev.has_cell(i, c) by {
            if self.has_cell(i, c) {
                let j = choose|j: int|
                    0 <= j < self.cells_seq().len() && self.cells_seq()[j].inquirer_id == i
                        && self.cells_seq()[j].context_id == c;
                assert(j != k);
                assert(prev.cells_seq()[j].inquirer_id == i);
            }
            if prev.has_cell(i, c) {
                let j = choose|j: int|
                    0 <= j < prev.cells_seq().len() && prev.cells_seq()[j].inquirer_id == i
                        && prev.cells_seq()[j].context_id == c;
                assert(j != k);
                assert(self.cells_seq()[j].inquirer_id == i);
            }
        }
        assert forall|i: u64, c: u64|
            !(i == inquirer_id && c == context_id) && prev.has_cell(i, c)
            implies #[trigger] self.cell_value(i, c) == prev.cell_value(i, c) by {
            let j2 = choose|j: int|
                0 <= j < prev.cells_seq().len() && prev.cells_seq()[j].inquirer_id == i
                    && prev.cells_seq()[j].context_id == c;
            assert(j2 != k);
            assert(self.cells_seq()[j2].inquirer_id == i && self.cells_seq()[j2].context_id == c);
            let j1 = choose|j: int|
                0 <= j < self.cells_seq().len() && self.cells_seq()[j].inquirer_id == i
                    && self.cells_seq()[j].context_id == c;
            assert(j1 != k);
            assert(prev.cells_seq()[j1].inquirer_id == i && prev.cells_seq()[j1].context_id == c);
            if j1 != j2 {
                assert(false);
            }
        }
        let kk = choose|j: int|
            0 <= j < self.cells_seq().len() && self.cells_seq()[j].inquirer_id == inquirer_id
                && self.cells_seq()[j].context_id == context_id;
        if kk != k {
            assert(prev.cells_seq()[kk].inquirer_id == inquirer_id);
            assert(false);
        }
    }

    /// Frame lemma for appending a fresh cell.
    proof fn lemma_cells_push_frame(
        self,
        prev: InstanceWrapper,
        inquirer_id: u64,
        context_id: u64,
        instance: Handle,
    )
        requires
            prev.wf(),
            !prev.has_cell(inquirer_id, context_id),
            self.cells_seq() == prev.cells_seq().push(
                InstanceCell { inquirer_id, context_id, instance },
            ),
        ensures
            self.wf(),
            self.has_cell(inquirer_id, context_id),
            self.cell_value(inquirer_id, context_id) == instance,
            forall|i: u64, c: u64|
                !(i == inquirer_id && c == context_id) ==> #[trigger] self.has_cell(i, c)
                    == prev.has_cell(i, c),
            forall|i: u64, c: u64|
                !(i == inquirer_id && c == context_id) && prev.has_cell(i, c)
                    ==> #[trigger] self.cell_value(i, c) == prev.cell_value(i, c),
    {
        let n = prev.cells_seq().len() as int;
        assert(self.cells_seq()[n].inquirer_id == inquirer_id);
        assert forall|k1: int, k2: int|
            0 <= k1 < k2 < self.cells_seq().len() implies !(self.cells_seq()[k1].inquirer_id
            == self.cells_seq()[k2].inquirer_id && self.cells_seq()[k1].context_id
            == self.cells_seq()[k2].context_id) by {
            if k2 < n {
                assert(prev.cells_seq()[k1].inquirer_id == self.cells_seq()[k1].inquirer_id);
            } else {
                assert(k2 == n);
                if self.cells_seq()[k1].inquirer_id == inquirer_id && self.cells_seq()[k1].context_id
                    == context_id {
                    assert(prev.cells_seq()[k1].inquirer_id == inquirer_id);
                    assert(prev.has_cell(inquirer_id, context_id));
                }
            }
        }
        assert forall|i: u64, c: u64|
            !(i == inquirer_id && c == context_id) implies #[trigger] self.has_cell(i, c)
            == prev.has_cell(i, c) by {
            if self.has_cell(i, c) {
                let j = choose|j: int|
                    0 <= j < self.cells_seq().len() && self.cells_seq()[j].inquirer_id == i
                        && self.cells_seq()[j].context_id == c;
                assert(j != n);
                assert(prev.cells_seq()[j].inquirer_id == i);
            }
            if prev.has_cell(i, c) {
                let j = choose|j: int|
                    0 <= j < prev.cells_seq().len() && prev.cells_seq()[j].inquirer_id == i
                        && prev.cells_seq()[j].context_id == c;
                assert(self.cells_seq()[j].inquirer_id == i);
            }
        }
        assert forall|i: u64, c: u64|
            !(i == inquirer_id && c == context_id) && prev.has_cell(i, c)
            implies #[trigger] self.cell_value(i, c) == prev.cell_value(i, c) by {
            let j2 = choose|j: int|
                0 <= j < prev.cells_seq().len() && prev.cells_seq()[j].inquirer_id == i
                    && prev.cells_seq()[j].context_id == c;
            assert(self.cells_seq()[j2].inquirer_id == i && self.cells_seq()[j2].context_id == c);
            let j1 = choose|j: int|
                0 <= j < self.cells_seq().len() && self.cells_seq()[j].inquirer_id == i
                    && self.cells_seq()[j].context_id == c;
            assert(j1 != n);
            assert(prev.cells_seq()[j1].inquirer_id == i && prev.cells_seq()[j1].context_id == c);
            if j1 != j2 {
                assert(false);
            }
        }
    }

    pub fn get_instance_by_inquirer_id(&self, inquirer_id: u64, context_id: u64) -> (r: Option<
        Handle,
    >)
        requires
            self.wf(),
        ensures
            r is Some <==> self.has_cell(inquirer_id, context_id),
            r is Some ==> r->0 == self.cell_value(inquirer_id, context_id),
    {
        match self.find_cell(inquirer_id, context_id) {
            Some(k) => {
                let h = self.cells[k].instance;
                proof {
                    let j = choose|j: int|
                        0 <= j < self.cells_seq().len() && self.cells_seq()[j].inquirer_id
                            == inquirer_id && self.cells_seq()[j].context_id == context_id;
                    if j != k as int {
                        assert(false);
                    }
                }
                Some(h)
            },
            None => None,
        }
    }

    pub fn has_instance_by_inquirer_id(&self, inquirer_id: u64, context_id: u64) -> (r: bool)
        requires
            self.wf(),
        ensures
            r == self.has_cell(inquirer_id, context_id),
    {
        self.get_instance_by_inquirer_id(inquirer_id, context_id).is_some()
    }

    /// The singleton slot: the wrapper's own id in the static context.
    pub fn set_instance(&mut self, instance: Handle)
        requires
            old(self).wf(),
        ensures
            final(self).wf(),
            final(self).same_identity(*old(self)),
            final(self).has_cell(old(self).spec_id(), STATIC_CONTEXT),
            final(self).cell_value(old(self).spec_id(), STATIC_CONTEXT) == instance,
            forall|i: u64, c: u64|
                !(i == old(self).spec_id() && c == STATIC_CONTEXT)
                    ==> #[trigger] final(self).has_cell(i, c) == old(self).has_cell(i, c),
            forall|i: u64, c: u64|
                !(i == old(self).spec_id() && c == STATIC_CONTEXT) && old(self).has_cell(i, c)
                    ==> #[trigger] final(self).cell_value(i, c) == old(self).cell_value(i, c),
    {
        let id = self.id;
        self.set_instance_by_inquirer_id(id, STATIC_CONTEXT, instance);
    }

    pub fn get_instance(&self) -> (r: Option<Handle>)
        requires
            self.wf(),
        ensures
            r is Some <==> self.has_cell(self.spec_id(), STATIC_CONTEXT),
            r is Some ==> r->0 == self.cell_value(self.spec_id(), STATIC_CONTEXT),
    {
        self.get_instance_by_inquirer_id(self.id, STATIC_CONTEXT)
    }

    pub fn has_instance(&self) -> (r: bool)
        requires
            self.wf(),
        ensures
            r == self.has_cell(self.spec_id(), STATIC_CONTEXT),
    {
        self.get_instance().is_some()
    }

    pub fn set_instance_by_context_id(&mut self, context_id: u64, instance: Handle)
        requires
            old(self).wf(),
        ensures
            final(self).wf(),
            final(self).same_identity(*old(self)),
            final(self).has_cell(old(self).spec_id(), context_id),
            final(self).cell_value(old(self).spec_id(), context_id) == instance,
            forall|i: u64, c: u64|
                !(i == old(self).spec_id() && c == context_id)
                    ==> #[trigger] final(self).has_cell(i, c) == old(self).has_cell(i, c),
            forall|i: u64, c: u64|
                !(i == old(self).spec_id() && c == context_id) && old(self).has_cell(i, c)
                    ==> #[trigger] final(self).cell_value(i, c) == old(self).cell_value(i, c),
    {
        let id = self.id;
        self.set_instance_by_inquirer_id(id, context_id, instance);
    }

    pub fn get_instance_by_context_id(&self, context_id: u64) -> (r: Option<Handle>)
        requires
            self.wf(),
        ensures
            r is Some <==> self.has_cell(self.spec_id(), context_id),
            r is Some ==> r->0 == self.cell_value(self.spec_id(), context_id),
    {
        self.get_instance_by_inquirer_id(self.id, context_id)
    }

    /// Every populated instance, in cell order.
    pub fn get_instances(&self) -> (r: Vec<Handle>)
        ensures
            r@.len() == self.cells_seq().len(),
            forall|k: int| 0 <= k < r@.len() ==> r@[k] == self.cells_seq()[k].instance,
    {
        let mut instances: Vec<Handle> = Vec::new();
        let mut k: usize = 0;
        while k < self.cells.len()
            invariant
                k <= self.cells@.len(),
                instances@.len() == k,
                forall|j: int| 0 <= j < k ==> instances@[j] == self.cells@[j].instance,
            decreases self.cells@.len() - k,
        {
            instances.push(self.cells[k].instance);
            k += 1;
        }
        instances
    }
}

} // verus!
