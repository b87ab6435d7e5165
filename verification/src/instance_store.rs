//! The arena of created instances. Every instance the factories produce
//! gets a record here: its identity, its concrete type, and one deferred
//! slot per declared dependency. The link phase assigns the slots strictly
//! after every instance exists, which is what makes cyclic dependency
//! graphs constructible.

use vstd::prelude::*;

use crate::cast::{Handle, TypeKey};
use crate::reference::Ref;

verus! {

/// One dependency slot of an instance: the dependency's token and the
/// deferred reference the link phase assigns.
pub struct DepSlot {
    pub token: String,
    pub link: Ref,
}

/// The record of one created instance: all slots start unassigned.
pub struct InstanceRecord {
    id: u64,
    concrete: TypeKey,
    slots: Vec<DepSlot>,
}

impl InstanceRecord {
    pub closed spec fn spec_id(self) -> u64 {
        self.id
    }

    pub closed spec fn spec_concrete(self) -> TypeKey {
        self.concrete
    }

    pub closed spec fn slots_seq(self) -> Seq<DepSlot> {
        self.slots@
    }

    pub open spec fn has_slot(self, t: Seq<char>) -> bool {
        exists|i: int| 0 <= i < self.slots_seq().len() && self.slots_seq()[i].token@ == t
    }

    pub open spec fn slot_index_spec(self, t: Seq<char>) -> int {
        choose|i: int| 0 <= i < self.slots_seq().len() && self.slots_seq()[i].token@ == t
    }

    /// The deferred reference of the slot for `t` (meaningful when the
    /// slot exists).
    pub open spec fn slot_spec(self, t: Seq<char>) -> Ref {
        self.slots_seq()[self.slot_index_spec(t)].link
    }

    pub open spec fn wf(self) -> bool {
        forall|i: int, j: int|
            0 <= i < j < self.slots_seq().len() ==> self.slots_seq()[i].token@
                != self.slots_seq()[j].token@
    }

    pub fn get_id(&self) -> (r: u64)
        ensures
            r == self.spec_id(),
    {
        self.id
    }

    pub fn get_concrete(&self) -> (r: TypeKey)
        ensures
            r == self.spec_concrete(),
    {
        self.concrete
    }

    fn find_slot(&self, token: &String) -> (r: Option<usize>)
        ensures
            r is Some <==> self.has_slot(token@),
            r is Some ==> 0 <= r->0 < self.slots_seq().len()
                && self.slots_seq()[r->0 as int].token@ == token@,
    {
        let mut i: usize = 0;
        while i < self.slots.len()
            invariant
                i <= self.slots@.len(),
                forall|j: int| 0 <= j < i ==> self.slots@[j].token@ != token@,
            decreases self.slots@.len() - i,
        {
            if self.slots[i].token == *token {
                return Some(i);
            }
            i += 1;
        }
        None
    }

    /// The instance assigned to the slot for `token`, or `None` when the
    /// slot does not exist or was not assigned yet.
    pub fn get_slot(&self, token: &String) -> (r: Option<Handle>)
        requires
            self.wf(),
        ensures
            r is Some <==> self.has_slot(token@) && self.slot_spec(token@).is_initialized(),
            r is Some ==> r->0 == self.slot_spec(token@).spec_handle(),
    {
        match self.find_slot(token) {
            Some(i) => {
                proof {
                    let j = self.slot_index_spec(token@);
                    if j != i as int {
                        assert(false);
                    }
                }
                self.slots[i].link.as_ref()
            },
            None => None,
        }
    }

    /// Whether every slot of this record has been assigned.
    pub fn all_slots_assigned(&self) -> (r: bool)
        requires
            self.wf(),
        ensures
            r ==> forall|t: Seq<char>|
                #[trigger] self.has_slot(t) ==> self.slot_spec(t).is_initialized(),
            !r ==> exists|t: Seq<char>|
                #[trigger] self.has_slot(t) && !self.slot_spec(t).is_initialized(),
    {
        let mut k: usize = 0;
        while k < self.slots.len()
            invariant
                self.wf(),
                k <= self.slots@.len(),
                forall|j: int| 0 <= j < k ==> (#[trigger] self.slots@[j]).link.is_initialized(),
            decreases self.slots@.len() - k,
        {
            if self.slots[k].link.as_ref().is_none() {
                proof {
                    let t = self.slots@[k as int].token@;
                    assert(self.slots_seq()[k as int].token@ == t);
                    assert(self.has_slot(t));
                    let j = self.slot_index_spec(t);
                    if j != k as int {
                        assert(false);
                    }
                    assert(!self.slot_spec(t).is_initialized());
                }
                return false;
            }
            k += 1;
        }
        proof {
            assert forall|t: Seq<char>| #[trigger]
                self.has_slot(t) implies self.slot_spec(t).is_initialized() by {
                let j = self.slot_index_spec(t);
                assert(0 <= j < self.slots_seq().len());
                assert(self.slots_seq()[j].link.is_initialized());
            }
        }
        true
    }

    /// Assign the slot for `token`; reports whether the slot exists.
    pub fn set_slot(&mut self, token: &String, instance: Handle) -> (ok: bool)
        requires
            old(self).wf(),
        ensures
            final(self).wf(),
            final(self).spec_id() == old(self).spec_id(),
            final(self).spec_concrete() == old(self).spec_concrete(),
            ok <==> old(self).has_slot(token@),
            !ok ==> *final(self) == *old(self),
            forall|t: Seq<char>| #[trigger] final(self).has_slot(t) == old(self).has_slot(t),
            ok ==> final(self).slot_spec(token@).is_initialized() && final(self).slot_spec(
                token@,
            ).spec_handle() == instance,
            forall|t: Seq<char>|
                t != token@ && old(self).has_slot(t) ==> #[trigger] final(self).slot_spec(t) == old(
                    self,
                ).slot_spec(t),
    {
        match self.find_slot(token) {
            Some(i) => {
                let slot = &mut self.slots[i];
                slot.link.__init(instance);
                proof {
                    self.lemma_slots_update_frame(*old(self), i as int);
                }
                true
            },
            None => false,
        }
    }

    /// Frame lemma for updating the slot at `k` in place (same token).
    proof fn lemma_slots_update_frame(self, prev: InstanceRecord, k: int)
        requires
            prev.wf(),
            0 <= k < prev.slots_seq().len(),
            self.slots_seq().len() == prev.slots_seq().len(),
            self.slots_seq()[k].token@ == prev.slots_seq()[k].token@,
            forall|i: int|
                0 <= i < prev.slots_seq().len() && i != k ==> #[trigger] self.slots_seq()[i]
                    == prev.slots_seq()[i],
        ensures
            self.wf(),
            forall|t: Seq<char>| #[trigger] self.has_slot(t) == prev.has_slot(t),
            self.has_slot(prev.slots_seq()[k].token@) && self.slot_spec(
                prev.slots_seq()[k].token@,
            ) == self.slots_seq()[k].link,
            forall|t: Seq<char>|
                t != prev.slots_seq()[k].token@ && prev.has_slot(t) ==> #[trigger] self.slot_spec(
                    t,
                ) == prev.slot_spec(t),
    {
        assert forall|i: int, j: int|
            0 <= i < j < self.slots_seq().len() implies self.slots_seq()[i].token@
            != self.slots_seq()[j].token@ by {
            assert(self.slots_seq()[i].token@ == prev.slots_seq()[i].token@);
            assert(self.slots_seq()[j].token@ == prev.slots_seq()[j].token@);
        }
        assert forall|t: Seq<char>| #[trigger] self.has_slot(t) == prev.has_slot(t) by {
            if prev.has_slot(t) {
                let i = choose|i: int|
                    0 <= i < prev.slots_seq().len() && prev.slots_seq()[i].token@ == t;
                assert(self.slots_seq()[i].token@ == t);
            }
            if self.has_slot(t) {
                let i = choose|i: int|
                    0 <= i < self.slots_seq().len() && self.slots_seq()[i].token@ == t;
                assert(prev.slots_seq()[i].token@ == t);
            }
        }
        let tk = prev.slots_seq()[k].token@;
        assert(self.slots_seq()[k].token@ == tk);
        let kk = self.slot_index_spec(tk);
        assert(0 <= kk < self.slots_seq().len() && self.slots_seq()[kk].token@ == tk);
        if kk != k {
            assert(prev.slots_seq()[kk].token@ == tk);
            assert(false);
        }
        assert forall|t: Seq<char>|
            t != tk && prev.has_slot(t) implies #[trigger] self.slot_spec(t) == prev.slot_spec(
            t,
        ) by {
            let j2 = choose|j: int| 0 <= j < prev.slots_seq().len() && prev.slots_seq()[j].token@ == t;
            assert(j2 != k);
            assert(self.slots_seq()[j2].token@ == t);
            let j1 = self.slot_index_spec(t);
            assert(0 <= j1 < self.slots_seq().len() && self.slots_seq()[j1].token@ == t);
            assert(j1 != k);
            assert(prev.slots_seq()[j1].token@ == t);
            let j3 = prev.slot_index_spec(t);
            if j1 != j3 {
                assert(false);
            }
        }
    }
}

/// The arena: one record per created instance, keyed by instance id.
pub struct InstanceStore {
    records: Vec<InstanceRecord>,
}

impl InstanceStore {
    pub closed spec fn records_seq(self) -> Seq<InstanceRecord> {
        self.records@
    }

    pub open spec fn has_record(self, id: u64) -> bool {
        exists|i: int| 0 <= i < self.records_seq().len() && self.records_seq()[i].spec_id() == id
    }

    pub open spec fn record_index_spec(self, id: u64) -> int {
        choose|i: int| 0 <= i < self.records_seq().len() && self.records_seq()[i].spec_id() == id
    }

    /// The record of instance `id` (meaningful when present).
    pub open spec fn record_spec(self, id: u64) -> InstanceRecord {
        self.records_seq()[self.record_index_spec(id)]
    }

    /// The slot for `t` of instance `id` has been assigned.
    pub open spec fn slot_initialized(self, id: u64, t: Seq<char>) -> bool {
        self.has_record(id) && self.record_spec(id).has_slot(t) && self.record_spec(id).slot_spec(
            t,
        ).is_initialized()
    }

    /// The instance assigned to that slot.
    pub open spec fn slot_value(self, id: u64, t: Seq<char>) -> Handle {
        self.record_spec(id).slot_spec(t).spec_handle()
    }

    pub open spec fn wf(self) -> bool {
        &&& forall|i: int, j: int|
            0 <= i < j < self.records_seq().len() ==> self.records_seq()[i].spec_id()
                != self.records_seq()[j].spec_id()
        &&& forall|i: int|
            0 <= i < self.records_seq().len() ==> (#[trigger] self.records_seq()[i]).wf()
    }

    /// Every record's id is below `n`.
    pub open spec fn ids_below(self, n: u64) -> bool {
        forall|i: int|
            0 <= i < self.records_seq().len() ==> (#[trigger] self.records_seq()[i]).spec_id() < n
    }

    pub fn new() -> (s: InstanceStore)
        ensures
            s.wf(),
            s.records_seq().len() == 0,
            s.ids_below(0),
    {
        InstanceStore { records: Vec::new() }
    }

    fn find_record(&self, id: u64) -> (r: Option<usize>)
        ensures
            r is Some <==> self.has_record(id),
            r is Some ==> 0 <= r->0 < self.records_seq().len()
                && self.records_seq()[r->0 as int].spec_id() == id,
    {
        let mut i: usize = 0;
        while i < self.records.len()
            invariant
                i <= self.records@.len(),
                forall|j: int| 0 <= j < i ==> self.records@[j].spec_id() != id,
            decreases self.records@.len() - i,
        {
            if self.records[i].get_id() == id {
                proof {
                    assert(self.records_seq()[i as int].spec_id() == id);
                    assert(self.has_record(id));
                }
                return Some(i);
            }
            i += 1;
        }
        None
    }

    pub fn get_record(&self, id: u64) -> (r: Option<&InstanceRecord>)
        requires
            self.wf(),
        ensures
            r is Some <==> self.has_record(id),
            r is Some ==> *r->0 == self.record_spec(id),
    {
        match self.find_record(id) {
            Some(i) => {
                proof {
                    let j = self.record_index_spec(id);
                    if j != i as int {
                        assert(false);
                    }
                }
                Some(&self.records[i])
            },
            None => None,
        }
    }

    /// The instance assigned to the slot for `token` of instance `id`, or
    /// `None` when that slot does not exist or is still unassigned.
    pub fn get_slot(&self, id: u64, token: &String) -> (r: Option<Handle>)
        requires
            self.wf(),
        ensures
            r is Some <==> self.slot_initialized(id, token@),
            r is Some ==> r->0 == self.slot_value(id, token@),
    {
        match self.get_record(id) {
            Some(rec) => rec.get_slot(token),
            None => None,
        }
    }

    /// Create the record for a freshly constructed instance: one
    /// unassigned slot per distinct dependency token.
    pub fn create_record(&mut self, id: u64, concrete: TypeKey, dep_tokens: &Vec<String>)
        requires
            old(self).wf(),
            !old(self).has_record(id),
        ensures
            final(self).wf(),
            final(self).has_record(id),
            final(self).record_spec(id).spec_id() == id,
            final(self).record_spec(id).spec_concrete() == concrete,
            forall|t: Seq<char>|
                #[trigger] final(self).record_spec(id).has_slot(t) <==> (exists|i: int|
                    0 <= i < dep_tokens@.len() && dep_tokens@[i]@ == t),
            forall|t: Seq<char>|
                #[trigger] final(self).record_spec(id).has_slot(t) ==> !final(self).record_spec(
                    id,
                ).slot_spec(t).is_initialized(),
            forall|i: u64| #[trigger] final(self).has_record(i) <==> (old(self).has_record(i) || i == id),
            forall|i: u64|
                i != id && old(self).has_record(i) ==> #[trigger] final(self).record_spec(i) == old(
                    self,
                ).record_spec(i),
            forall|n: u64| old(self).ids_below(n) && id < n ==> #[trigger] final(self).ids_below(n),
    {
        let mut slots: Vec<DepSlot> = Vec::new();
        let mut k: usize = 0;
        while k < dep_tokens.len()
            invariant
                k <= dep_tokens@.len(),
                forall|i: int, j: int|
                    0 <= i < j < slots@.len() ==> slots@[i].token@ != slots@[j].token@,
                forall|t: Seq<char>|
                    #[trigger] seq_has_token(slots@, t) <==> (exists|i: int|
                        0 <= i < k && dep_tokens@[i]@ == t),
                forall|i: int|
                    0 <= i < slots@.len() ==> !(#[trigger] slots@[i]).link.is_initialized(),
            decreases dep_tokens@.len() - k,
        {
            let tok = &dep_tokens[k];
            let mut present = false;
            let mut s: usize = 0;
            while s < slots.len()
                invariant
                    s <= slots@.len(),
                    present <==> exists|j: int| 0 <= j < s && slots@[j].token@ == tok@,
                decreases slots@.len() - s,
            {
                if slots[s].token == *tok {
                    present = true;
                }
                s += 1;
            }
            proof {
                assert(present <==> seq_has_token(slots@, tok@));
            }
            if !present {
                let ghost prev = slots@;
                slots.push(DepSlot { token: tok.clone(), link: Ref::empty() });
                proof {
                    let n = prev.len() as int;
                    assert(slots@[n].token@ == dep_tokens@[k as int]@);
                    assert forall|i: int, j: int|
                        0 <= i < j < slots@.len() implies slots@[i].token@ != slots@[j].token@ by {
                        if j < n {
                            assert(prev[i].token@ != prev[j].token@);
                        } else {
                            assert(slots@[i] == prev[i]);
                            if slots@[i].token@ == tok@ {
                                assert(seq_has_token(prev, tok@));
                            }
                        }
                    }
                    assert forall|t: Seq<char>| #[trigger]
                        seq_has_token(slots@, t) <==> (exists|i: int|
                        0 <= i < k + 1 && dep_tokens@[i]@ == t) by {
                        if seq_has_token(slots@, t) {
                            let i = choose|i: int| 0 <= i < slots@.len() && slots@[i].token@ == t;
                            if i < n {
                                assert(prev[i].token@ == t);
                                assert(seq_has_token(prev, t));
                            } else {
                                assert(dep_tokens@[k as int]@ == t);
                            }
                        }
                        if exists|i: int| 0 <= i < k + 1 && dep_tokens@[i]@ == t {
                            let i = choose|i: int| 0 <= i < k + 1 && dep_tokens@[i]@ == t;
                            if i < k {
                                assert(seq_has_token(prev, t));
                                let j = choose|j: int| 0 <= j < prev.len() && prev[j].token@ == t;
                                assert(slots@[j] == prev[j]);
                            } else {
                                assert(slots@[n].token@ == t);
                            }
                        }
                    }
                }
            } else {
                proof {
                    assert forall|t: Seq<char>| #[trigger]
                        seq_has_token(slots@, t) <==> (exists|i: int|
                        0 <= i < k + 1 && dep_tokens@[i]@ == t) by {
                        if exists|i: int| 0 <= i < k + 1 && dep_tokens@[i]@ == t {
                            let i = choose|i: int| 0 <= i < k + 1 && dep_tokens@[i]@ == t;
                            if i == k {
                                assert(t == tok@);
                                assert(seq_has_token(slots@, t));
                            }
                        }
                    }
                }
            }
            k += 1;
        }
        let ghost sl = slots@;
        let record = InstanceRecord { id, concrete, slots };
        proof {
            assert(record.wf());
            assert(record.slots_seq() == sl);
            assert forall|t: Seq<char>| #[trigger]
                record.has_slot(t) <==> (exists|i: int|
                0 <= i < dep_tokens@.len() && dep_tokens@[i]@ == t) by {
                if record.has_slot(t) {
                    let i = choose|i: int|
                        0 <= i < record.slots_seq().len() && record.slots_seq()[i].token@ == t;
                    assert(sl[i].token@ == t);
                    assert(seq_has_token(sl, t));
                }
                if seq_has_token(sl, t) {
                    let i = choose|i: int| 0 <= i < sl.len() && sl[i].token@ == t;
                    assert(record.slots_seq()[i].token@ == t);
                }
            }
            assert forall|t: Seq<char>| #[trigger]
                record.has_slot(t) implies !record.slot_spec(t).is_initialized() by {
                let i = record.slot_index_spec(t);
                assert(0 <= i < record.slots_seq().len());
                assert(!sl[i].link.is_initialized());
            }
        }
        self.records.push(record);
        proof {
            self.lemma_records_push_frame(*old(self), record);
        }
    }

    /// Two stores with the same record sequence agree on every lookup.
    pub proof fn lemma_same_records(a: InstanceStore, b: InstanceStore)
        requires
            a.records_seq() == b.records_seq(),
            a.wf(),
        ensures
            forall|id: u64|
                #![trigger a.has_record(id)]
                #![trigger b.has_record(id)]
                a.has_record(id) == b.has_record(id),
            forall|id: u64, t: Seq<char>|
                #![trigger a.slot_initialized(id, t)]
                #![trigger b.slot_initialized(id, t)]
                a.slot_initialized(id, t) == b.slot_initialized(id, t),
            forall|id: u64|
                #![trigger a.record_spec(id)]
                #![trigger b.record_spec(id)]
                a.has_record(id) ==> a.record_spec(id) == b.record_spec(id),
    {
        assert forall|id: u64| a.has_record(id) == b.has_record(id) by {
            if a.has_record(id) {
                let i = choose|i: int|
                    0 <= i < a.records_seq().len() && a.records_seq()[i].spec_id() == id;
                assert(b.records_seq()[i].spec_id() == id);
            }
            if b.has_record(id) {
                let i = choose|i: int|
                    0 <= i < b.records_seq().len() && b.records_seq()[i].spec_id() == id;
                assert(a.records_seq()[i].spec_id() == id);
            }
        }
        assert forall|id: u64| a.has_record(id) implies a.record_spec(id) == b.record_spec(id) by {
            let i = a.record_index_spec(id);
            assert(0 <= i < a.records_seq().len() && a.records_seq()[i].spec_id() == id);
            let j = b.record_index_spec(id);
            assert(b.has_record(id));
            assert(0 <= j < b.records_seq().len() && b.records_seq()[j].spec_id() == id);
            assert(a.records_seq()[j].spec_id() == id);
            if i != j {
                assert(false);
            }
            assert(a.records_seq()[i] == b.records_seq()[j]);
        }
        assert forall|id: u64, t: Seq<char>|
            a.slot_initialized(id, t) == b.slot_initialized(id, t) by {
            if a.has_record(id) {
                assert(a.record_spec(id) == b.record_spec(id));
            }
        }
    }

    /// Whether every slot of the record of instance `id` is assigned; an
    /// instance with no record has nothing to assign.
    pub fn all_slots_assigned_for(&self, id: u64) -> (r: bool)
        requires
            self.wf(),
        ensures
            r ==> forall|t: Seq<char>|
                self.has_record(id) && (#[trigger] self.record_spec(id).has_slot(t))
                    ==> self.slot_initialized(id, t),
            !r ==> self.has_record(id) && (exists|t: Seq<char>|
                (#[trigger] self.record_spec(id).has_slot(t)) && !self.slot_initialized(id, t)),
    {
        match self.get_record(id) {
            Some(rec) => rec.all_slots_assigned(),
            None => true,
        }
    }

    /// Assign the dependency slot for `token` of instance `id`; reports
    /// whether both the record and the slot exist.
    pub fn set_slot(&mut self, id: u64, token: &String, instance: Handle) -> (ok: bool)
        requires
            old(self).wf(),
        ensures
            final(self).wf(),
            ok <==> old(self).has_record(id) && old(self).record_spec(id).has_slot(token@),
            !ok ==> final(self).records_seq() == old(self).records_seq(),
            forall|i: u64| #[trigger] final(self).has_record(i) == old(self).has_record(i),
            ok ==> final(self).slot_initialized(id, token@) && final(self).slot_value(id, token@)
                == instance,
            ok ==> final(self).record_spec(id).spec_id() == old(self).record_spec(id).spec_id()
                && final(self).record_spec(id).spec_concrete() == old(self).record_spec(
                id,
            ).spec_concrete(),
            ok ==> forall|t: Seq<char>|
                #[trigger] final(self).record_spec(id).has_slot(t) == old(self).record_spec(
                    id,
                ).has_slot(t),
            ok ==> forall|t: Seq<char>|
                t != token@ && old(self).record_spec(id).has_slot(t)
                    ==> #[trigger] final(self).record_spec(id).slot_spec(t) == old(
                    self,
                ).record_spec(id).slot_spec(t),
            forall|i: u64|
                i != id && old(self).has_record(i) ==> #[trigger] final(self).record_spec(i) == old(
                    self,
                ).record_spec(i),
            forall|n: u64| old(self).ids_below(n) ==> #[trigger] final(self).ids_below(n),
    {
        match self.find_record(id) {
            Some(ri) => {
                proof {
                    let j = self.record_index_spec(id);
                    if j != ri as int {
                        assert(false);
                    }
                }
                let rec = &mut self.records[ri];
                let ok = rec.set_slot(token, instance);
                proof {
                    self.lemma_records_update_frame(*old(self), ri as int);
                    if !ok {
                        assert(self.records_seq() =~= old(self).records_seq());
                    }
                }
                ok
            },
            None => false,
        }
    }

    /// Frame lemma for updating the record at `k` in place (same id).
    proof fn lemma_records_update_frame(self, prev: InstanceStore, k: int)
        requires
            prev.wf(),
            0 <= k < prev.records_seq().len(),
            self.records_seq().len() == prev.records_seq().len(),
            self.records_seq()[k].spec_id() == prev.records_seq()[k].spec_id(),
            self.records_seq()[k].wf(),
            forall|i: int|
                0 <= i < prev.records_seq().len() && i != k ==> #[trigger] self.records_seq()[i]
                    == prev.records_seq()[i],
        ensures
            self.wf(),
            forall|i: u64| #[trigger] self.has_record(i) == prev.has_record(i),
            self.has_record(prev.records_seq()[k].spec_id()) && self.record_spec(
                prev.records_seq()[k].spec_id(),
            ) == self.records_seq()[k],
            forall|i: u64|
                i != prev.records_seq()[k].spec_id() && prev.has_record(i)
                    ==> #[trigger] self.record_spec(i) == prev.record_spec(i),
            forall|n: u64| prev.ids_below(n) ==> #[trigger] self.ids_below(n),
    {
        assert forall|i: int, j: int|
            0 <= i < j < self.records_seq().len() implies self.records_seq()[i].spec_id()
            != self.records_seq()[j].spec_id() by {
            assert(self.records_seq()[i].spec_id() == prev.records_seq()[i].spec_id());
            assert(self.records_seq()[j].spec_id() == prev.records_seq()[j].spec_id());
        }
        assert forall|i: int|
            0 <= i < self.records_seq().len() implies (#[trigger] self.records_seq()[i]).wf() by {
            if i != k {
                assert(self.records_seq()[i] == prev.records_seq()[i]);
            }
        }
        assert forall|i: u64| #[trigger] self.has_record(i) == prev.has_record(i) by {
            if prev.has_record(i) {
                let j = choose|j: int|
                    0 <= j < prev.records_seq().len() && prev.records_seq()[j].spec_id() == i;
                assert(self.records_seq()[j].spec_id() == i);
            }
            if self.has_record(i) {
                let j = choose|j: int|
                    0 <= j < self.records_seq().len() && self.records_seq()[j].spec_id() == i;
                assert(prev.records_seq()[j].spec_id() == i);
            }
        }
        let rid = prev.records_seq()[k].spec_id();
        assert(self.records_seq()[k].spec_id() == rid);
        let kk = self.record_index_spec(rid);
        assert(self.has_record(rid));
        assert(0 <= kk < self.records_seq().len() && self.records_seq()[kk].spec_id() == rid);
        if kk != k {
            assert(prev.records_seq()[kk].spec_id() == rid);
            assert(false);
        }
        assert forall|i: u64|
            i != rid && prev.has_record(i) implies #[trigger] self.record_spec(i)
            == prev.record_spec(i) by {
            let j2 = choose|j: int|
                0 <= j < prev.records_seq().len() && prev.records_seq()[j].spec_id() == i;
            assert(j2 != k);
            assert(self.records_seq()[j2].spec_id() == i);
            let j1 = self.record_index_spec(i);
            assert(0 <= j1 < self.records_seq().len() && self.records_seq()[j1].spec_id() == i);
            assert(j1 != k);
            assert(prev.records_seq()[j1].spec_id() == i);
            let j3 = prev.record_index_spec(i);
            if j1 != j3 {
                assert(false);
            }
        }
        assert forall|n: u64| prev.ids_below(n) implies #[trigger] self.ids_below(n) by {
            assert forall|i: int|
                0 <= i < self.records_seq().len() implies (#[trigger] self.records_seq()[i]).spec_id()
                < n by {
                assert(self.records_seq()[i].spec_id() == prev.records_seq()[i].spec_id());
            }
        }
    }

    /// Frame lemma for appending a record with a fresh id.
    proof fn lemma_records_push_frame(self, prev: InstanceStore, record: InstanceRecord)
        requires
            prev.wf(),
            record.wf(),
            !prev.has_record(record.spec_id()),
            self.records_seq() == prev.records_seq().push(record),
        ensures
            self.wf(),
            self.has_record(record.spec_id()),
            self.record_spec(record.spec_id()) == record,
            forall|i: u64|
                #[trigger] self.has_record(i) <==> (prev.has_record(i) || i == record.spec_id()),
            forall|i: u64|
                i != record.spec_id() && prev.has_record(i) ==> #[trigger] self.record_spec(i)
                    == prev.record_spec(i),
            forall|n: u64|
                prev.ids_below(n) && record.spec_id() < n ==> #[trigger] self.ids_below(n),
    {
        let n = prev.records_seq().len() as int;
        assert(self.records_seq()[n] == record);
        assert forall|i: int, j: int|
            0 <= i < j < self.records_seq().len() implies self.records_seq()[i].spec_id()
            != self.records_seq()[j].spec_id() by {
            if j < n {
                assert(prev.records_seq()[i].spec_id() != prev.records_seq()[j].spec_id());
            } else {
                if self.records_seq()[i].spec_id() == record.spec_id() {
                    assert(prev.records_seq()[i].spec_id() == record.spec_id());
                    assert(prev.has_record(record.spec_id()));
                }
            }
        }
        assert forall|i: u64| #[trigger]
            self.has_record(i) <==> (prev.has_record(i) || i == record.spec_id()) by {
            if prev.has_record(i) {
                let j = choose|j: int|
                    0 <= j < prev.records_seq().len() && prev.records_seq()[j].spec_id() == i;
                assert(self.records_seq()[j].spec_id() == i);
            }
            if self.has_record(i) && i != record.spec_id() {
                let j = choose|j: int|
                    0 <= j < self.records_seq().len() && self.records_seq()[j].spec_id() == i;
                assert(j != n);
                assert(prev.records_seq()[j].spec_id() == i);
            }
        }
        assert forall|i: u64|
            i != record.spec_id() && prev.has_record(i) implies #[trigger] self.record_spec(i)
            == prev.record_spec(i) by {
            let j2 = choose|j: int|
                0 <= j < prev.records_seq().len() && prev.records_seq()[j].spec_id() == i;
            assert(self.records_seq()[j2].spec_id() == i);
            let j1 = self.record_index_spec(i);
            assert(0 <= j1 < self.records_seq().len() && self.records_seq()[j1].spec_id() == i);
            assert(j1 != n);
            assert(prev.records_seq()[j1].spec_id() == i);
            let j3 = prev.record_index_spec(i);
            if j1 != j3 {
                assert(false);
            }
        }
        let kk = self.record_index_spec(record.spec_id());
        assert(self.has_record(record.spec_id()));
        if kk != n {
            assert(prev.records_seq()[kk].spec_id() == record.spec_id());
            assert(false);
        }
        assert forall|m: u64|
            prev.ids_below(m) && record.spec_id() < m implies #[trigger] self.ids_below(m) by {
            assert forall|i: int|
                0 <= i < self.records_seq().len() implies (#[trigger] self.records_seq()[i]).spec_id()
                < m by {
                if i < n {
                    assert(prev.records_seq()[i].spec_id() < m);
                }
            }
        }
    }
}

/// Whether a slot sequence holds a slot for token `t`.
pub open spec fn seq_has_token(slots: Seq<DepSlot>, t: Seq<char>) -> bool {
    exists|i: int| 0 <= i < slots.len() && slots[i].token@ == t
}

} // verus!
