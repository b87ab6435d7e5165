//! One node of the DI graph: a module owns its providers, records which
//! modules it imports, and marks the subset of its providers it exports.

use vstd::prelude::*;

use crate::errors::DiError;
use crate::instance_wrapper::InstanceWrapper;

verus! {

/// A DI scope boundary. Invariant: a token may be marked exported only if
/// a provider with that token is registered here.
pub struct Module {
    id: u64,
    token: String,
    distance: u32,
    related_tokens: Vec<String>,
    providers: Vec<InstanceWrapper>,
    exported_tokens: Vec<String>,
}

impl Module {
    pub closed spec fn spec_id(self) -> u64 {
        self.id
    }

    pub closed spec fn spec_token(self) -> Seq<char> {
        self.token@
    }

    pub closed spec fn spec_distance(self) -> u32 {
        self.distance
    }

    pub closed spec fn providers_seq(self) -> Seq<InstanceWrapper> {
        self.providers@
    }

    /// Tokens of the modules this module imports.
    pub closed spec fn related_seq(self) -> Seq<Seq<char>> {
        self.related_tokens@.map_values(|s: String| s@)
    }

    pub closed spec fn exported_seq(self) -> Seq<Seq<char>> {
        self.exported_tokens@.map_values(|s: String| s@)
    }

    pub open spec fn has_provider_spec(self, t: Seq<char>) -> bool {
        exists|i: int| 0 <= i < self.providers_seq().len() && self.providers_seq()[i].spec_token() == t
    }

    pub open spec fn provider_index_spec(self, t: Seq<char>) -> int {
        choose|i: int|
            0 <= i < self.providers_seq().len() && self.providers_seq()[i].spec_token() == t
    }

    /// The provider registered under `t` (meaningful when present).
    pub open spec fn provider_spec(self, t: Seq<char>) -> InstanceWrapper {
        self.providers_seq()[self.provider_index_spec(t)]
    }

    pub open spec fn has_related_spec(self, t: Seq<char>) -> bool {
        self.related_seq().contains(t)
    }

    pub open spec fn is_exported_spec(self, t: Seq<char>) -> bool {
        self.exported_seq().contains(t)
    }

    /// The module exposes a provider with token `t` to its importers.
    pub open spec fn exports_spec(self, t: Seq<char>) -> bool {
        self.has_provider_spec(t) && self.is_exported_spec(t)
    }

    pub open spec fn wf(self) -> bool {
        &&& forall|i: int, j: int|
            0 <= i < j < self.providers_seq().len() ==> self.providers_seq()[i].spec_token()
                != self.providers_seq()[j].spec_token()
        &&& forall|i: int|
            0 <= i < self.providers_seq().len() ==> (#[trigger] self.providers_seq()[i]).wf()
                && self.providers_seq()[i].spec_host() == self.spec_token()
        &&& forall|t: Seq<char>| #[trigger] self.is_exported_spec(t) ==> self.has_provider_spec(t)
    }

    /// Two modules with the same provider sequence agree on every
    /// provider lookup.
    pub proof fn lemma_same_providers(a: Module, b: Module)
        requires
            a.providers_seq() == b.providers_seq(),
            a.wf(),
        ensures
            forall|t: Seq<char>|
                #![trigger a.has_provider_spec(t)]
                #![trigger b.has_provider_spec(t)]
                a.has_provider_spec(t) == b.has_provider_spec(t),
            forall|t: Seq<char>|
                #![trigger a.provider_spec(t)]
                #![trigger b.provider_spec(t)]
                a.has_provider_spec(t) ==> a.provider_spec(t) == b.provider_spec(t),
    {
        assert forall|t: Seq<char>| a.has_provider_spec(t) == b.has_provider_spec(t) by {
            if a.has_provider_spec(t) {
                let i = choose|i: int|
                    0 <= i < a.providers_seq().len() && a.providers_seq()[i].spec_token() == t;
                assert(b.providers_seq()[i].spec_token() == t);
            }
            if b.has_provider_spec(t) {
                let i = choose|i: int|
                    0 <= i < b.providers_seq().len() && b.providers_seq()[i].spec_token() == t;
                assert(a.providers_seq()[i].spec_token() == t);
            }
        }
        assert forall|t: Seq<char>| a.has_provider_spec(t) implies a.provider_spec(t)
            == b.provider_spec(t) by {
            let i = a.provider_index_spec(t);
            assert(0 <= i < a.providers_seq().len() && a.providers_seq()[i].spec_token() == t);
            let j = b.provider_index_spec(t);
            assert(b.has_provider_spec(t));
            assert(0 <= j < b.providers_seq().len() && b.providers_seq()[j].spec_token() == t);
            assert(a.providers_seq()[j].spec_token() == t);
            if i != j {
                assert(false);
            }
        }
    }

    /// With unique tokens, index `i` is the index of its own token.
    pub proof fn lemma_provider_at_token(self, i: int)
        requires
            self.wf(),
            0 <= i < self.providers_seq().len(),
        ensures
            self.has_provider_spec(self.providers_seq()[i].spec_token()),
            self.provider_index_spec(self.providers_seq()[i].spec_token()) == i,
            self.provider_spec(self.providers_seq()[i].spec_token()) == self.providers_seq()[i],
    {
        let t = self.providers_seq()[i].spec_token();
        assert(self.has_provider_spec(t));
        let j = self.provider_index_spec(t);
        if j != i {
            assert(self.providers_seq()[j].spec_token() == t);
            assert(false);
        }
    }

    /// Well-formedness survives changing one provider in place, keeping
    /// its token and host.
    pub proof fn lemma_wf_after_provider_update(pre: Module, post: Module, pi: int)
        requires
            pre.wf(),
            0 <= pi < pre.providers_seq().len(),
            post.providers_seq().len() == pre.providers_seq().len(),
            post.spec_token() == pre.spec_token(),
            post.exported_seq() == pre.exported_seq(),
            forall|k: int|
                0 <= k < pre.providers_seq().len() && k != pi ==> #[trigger] post.providers_seq()[k]
                    == pre.providers_seq()[k],
            post.providers_seq()[pi].spec_token() == pre.providers_seq()[pi].spec_token(),
            post.providers_seq()[pi].spec_host() == pre.providers_seq()[pi].spec_host(),
            post.providers_seq()[pi].wf(),
        ensures
            post.wf(),
            forall|t: Seq<char>|
                #[trigger] post.has_provider_spec(t) == pre.has_provider_spec(t),
            forall|t: Seq<char>|
                t != pre.providers_seq()[pi].spec_token() && pre.has_provider_spec(t)
                    ==> #[trigger] post.provider_spec(t) == pre.provider_spec(t),
            post.provider_spec(pre.providers_seq()[pi].spec_token()) == post.providers_seq()[pi],
    {
        assert forall|i: int, j: int|
            0 <= i < j < post.providers_seq().len() implies post.providers_seq()[i].spec_token()
            != post.providers_seq()[j].spec_token() by {
            assert(post.providers_seq()[i].spec_token() == pre.providers_seq()[i].spec_token());
            assert(post.providers_seq()[j].spec_token() == pre.providers_seq()[j].spec_token());
        }
        assert forall|i: int|
            0 <= i < post.providers_seq().len() implies (#[trigger] post.providers_seq()[i]).wf()
            && post.providers_seq()[i].spec_host() == post.spec_token() by {
            if i != pi {
                assert(post.providers_seq()[i] == pre.providers_seq()[i]);
                assert(pre.providers_seq()[i].wf());
                assert(pre.providers_seq()[i].spec_host() == pre.spec_token());
            } else {
                assert(pre.providers_seq()[pi].spec_host() == pre.spec_token());
            }
        }
        assert forall|t: Seq<char>|
            #[trigger] post.has_provider_spec(t) == pre.has_provider_spec(t) by {
            if pre.has_provider_spec(t) {
                let i = choose|i: int|
                    0 <= i < pre.providers_seq().len() && pre.providers_seq()[i].spec_token() == t;
                assert(post.providers_seq()[i].spec_token() == t);
            }
            if post.has_provider_spec(t) {
                let i = choose|i: int|
                    0 <= i < post.providers_seq().len() && post.providers_seq()[i].spec_token()
                        == t;
                assert(pre.providers_seq()[i].spec_token() == t);
            }
        }
        assert forall|t: Seq<char>| #[trigger]
            post.is_exported_spec(t) implies post.has_provider_spec(t) by {
            assert(pre.is_exported_spec(t));
        }
        assert forall|t: Seq<char>|
            t != pre.providers_seq()[pi].spec_token() && pre.has_provider_spec(t)
            implies #[trigger] post.provider_spec(t) == pre.provider_spec(t) by {
            let j2 = pre.provider_index_spec(t);
            assert(0 <= j2 < pre.providers_seq().len() && pre.providers_seq()[j2].spec_token()
                == t);
            assert(j2 != pi);
            assert(post.providers_seq()[j2].spec_token() == t);
            let j1 = post.provider_index_spec(t);
            assert(0 <= j1 < post.providers_seq().len() && post.providers_seq()[j1].spec_token()
                == t);
            if j1 != j2 {
                assert(false);
            }
            assert(post.providers_seq()[j1] == pre.providers_seq()[j2]);
        }
        let tk = pre.providers_seq()[pi].spec_token();
        assert(post.providers_seq()[pi].spec_token() == tk);
        let kk = post.provider_index_spec(tk);
        assert(post.has_provider_spec(tk));
        assert(0 <= kk < post.providers_seq().len() && post.providers_seq()[kk].spec_token() == tk);
        if kk != pi {
            assert(false);
        }
    }

    pub fn new(id: u64, token: String) -> (m: Module)
        ensures
            m.wf(),
            m.spec_id() == id,
            m.spec_token() == token@,
            m.spec_distance() == 0,
            m.providers_seq().len() == 0,
            m.related_seq().len() == 0,
            m.exported_seq().len() == 0,
    {
        let m = Module {
            id,
            token,
            distance: 0,
            related_tokens: Vec::new(),
            providers: Vec::new(),
            exported_tokens: Vec::new(),
        };
        proof {
            assert(m.related_seq() =~= Seq::<Seq<char>>::empty());
            assert(m.exported_seq() =~= Seq::<Seq<char>>::empty());
        }
        m
    }

    pub fn get_id(&self) -> (r: u64)
        ensures
            r == self.spec_id(),
    {
        self.id
    }

    pub fn get_token(&self) -> (r: String)
        ensures
            r@ == self.spec_token(),
    {
        self.token.clone()
    }

    pub fn get_distance(&self) -> (r: u32)
        ensures
            r == self.spec_distance(),
    {
        self.distance
    }

    pub fn set_distance(&mut self, value: u32)
        ensures
            final(self).spec_distance() == value,
            final(self).spec_id() == old(self).spec_id(),
            final(self).spec_token() == old(self).spec_token(),
            final(self).providers_seq() == old(self).providers_seq(),
            final(self).related_seq() == old(self).related_seq(),
            final(self).exported_seq() == old(self).exported_seq(),
    {
        self.distance = value;
    }

    /// Record that this module imports the module registered under `token`.
    /// Importing the same module again is a no-op.
    pub fn register_related_module(&mut self, token: String)
        ensures
            final(self).has_related_spec(token@),
            forall|t: Seq<char>|
                #[trigger] final(self).has_related_spec(t) <==> (old(self).has_related_spec(t) || t
                    == token@),
            final(self).spec_id() == old(self).spec_id(),
            final(self).spec_token() == old(self).spec_token(),
            final(self).spec_distance() == old(self).spec_distance(),
            final(self).providers_seq() == old(self).providers_seq(),
            final(self).exported_seq() == old(self).exported_seq(),
    {
        if !contains_token(&self.related_tokens, &token) {
            self.related_tokens.push(token);
            proof {
                assert(self.related_seq() =~= old(self).related_seq().push(
                    self.related_tokens@.last()@,
                ));
                assert forall|t: Seq<char>| #[trigger]
                    self.has_related_spec(t) <==> (old(self).has_related_spec(t) || t
                    == self.related_tokens@.last()@) by {
                    let n = old(self).related_seq().len() as int;
                    if old(self).has_related_spec(t) {
                        let i = choose|i: int|
                            0 <= i < old(self).related_seq().len() && old(self).related_seq()[i]
                                == t;
                        assert(self.related_seq()[i] == t);
                    }
                    if self.has_related_spec(t) {
                        let i = choose|i: int|
                            0 <= i < self.related_seq().len() && self.related_seq()[i] == t;
                        if i < n {
                            assert(old(self).related_seq()[i] == t);
                        }
                    }
                    assert(self.related_seq()[n] == self.related_tokens@.last()@);
                }
            }
        } else {
            proof {
                let i = choose|i: int|
                    0 <= i < self.related_tokens@.len() && self.related_tokens@[i]@ == token@;
                assert(self.related_seq()[i] == token@);
            }
        }
    }

    /// Register a provider under its own token; a provider already
    /// registered under that token is replaced.
    pub fn register_provider(&mut self, provider: InstanceWrapper)
        requires
            old(self).wf(),
            provider.wf(),
            provider.spec_host() == old(self).spec_token(),
        ensures
            final(self).wf(),
            final(self).has_provider_spec(provider.spec_token()),
            final(self).provider_spec(provider.spec_token()) == provider,
            forall|t: Seq<char>|
                #[trigger] final(self).has_provider_spec(t) <==> (old(self).has_provider_spec(t)
                    || t == provider.spec_token()),
            forall|t: Seq<char>|
                t != provider.spec_token() && old(self).has_provider_spec(t)
                    ==> #[trigger] final(self).provider_spec(t) == old(self).provider_spec(t),
            final(self).spec_id() == old(self).spec_id(),
            final(self).spec_token() == old(self).spec_token(),
            final(self).spec_distance() == old(self).spec_distance(),
            final(self).related_seq() == old(self).related_seq(),
            final(self).exported_seq() == old(self).exported_seq(),
    {
        let ghost ptok = provider.spec_token();
        match self.find_provider_index(&provider.get_token()) {
            Some(i) => {
                self.providers[i] = provider;
                proof {
                    self.lemma_providers_update_frame(*old(self), i as int, provider);
                }
            },
            None => {
                self.providers.push(provider);
                proof {
                    self.lemma_providers_push_frame(*old(self), provider);
                }
            },
        }
    }

    proof fn lemma_providers_update_frame(self, prev: Module, k: int, provider: InstanceWrapper)
        requires
            prev.wf(),
            provider.wf(),
            provider.spec_host() == prev.spec_token(),
            0 <= k < prev.providers_seq().len(),
            prev.providers_seq()[k].spec_token() == provider.spec_token(),
            self.providers_seq() == prev.providers_seq().update(k, provider),
            self.spec_token() == prev.spec_token(),
            self.exported_seq() == prev.exported_seq(),
        ensures
            self.wf(),
            self.has_provider_spec(provider.spec_token()),
            self.provider_spec(provider.spec_token()) == provider,
            forall|t: Seq<char>|
                #[trigger] self.has_provider_spec(t) <==> (prev.has_provider_spec(t) || t
                    == provider.spec_token()),
            forall|t: Seq<char>|
                t != provider.spec_token() && prev.has_provider_spec(t)
                    ==> #[trigger] self.provider_spec(t) == prev.provider_spec(t),
    {
        assert(self.providers_seq()[k].spec_token() == provider.spec_token());
        assert forall|t: Seq<char>| #[trigger]
            self.has_provider_spec(t) <==> (prev.has_provider_spec(t) || t
            == provider.spec_token()) by {
            if prev.has_provider_spec(t) {
                let i = choose|i: int|
                    0 <= i < prev.providers_seq().len() && prev.providers_seq()[i].spec_token()
                        == t;
                if i == k {
                    assert(self.providers_seq()[k].spec_token() == t);
                } else {
                    assert(self.providers_seq()[i].spec_token() == t);
                }
            }
            if self.has_provider_spec(t) && t != provider.spec_token() {
                let i = choose|i: int|
                    0 <= i < self.providers_seq().len() && self.providers_seq()[i].spec_token()
                        == t;
                assert(i != k);
                assert(prev.providers_seq()[i].spec_token() == t);
            }
        }
        assert forall|t: Seq<char>|
            t != provider.spec_token() && prev.has_provider_spec(t)
            implies #[trigger] self.provider_spec(t) == prev.provider_spec(t) by {
            let j2 = choose|j: int|
                0 <= j < prev.providers_seq().len() && prev.providers_seq()[j].spec_token() == t;
            assert(j2 != k);
            assert(self.providers_seq()[j2].spec_token() == t);
            let j1 = self.provider_index_spec(t);
            assert(0 <= j1 < self.providers_seq().len() && self.providers_seq()[j1].spec_token()
                == t);
            assert(j1 != k);
            assert(prev.providers_seq()[j1].spec_token() == t);
            let j3 = prev.provider_index_spec(t);
            if j1 != j3 {
                assert(false);
            }
        }
        let kk = self.provider_index_spec(provider.spec_token());
        if kk != k {
            assert(prev.providers_seq()[kk].spec_token() == provider.spec_token());
            assert(false);
        }
        assert forall|t: Seq<char>| #[trigger]
            self.is_exported_spec(t) implies self.has_provider_spec(t) by {
            assert(prev.is_exported_spec(t));
        }
    }

    proof fn lemma_providers_push_frame(self, prev: Module, provider: InstanceWrapper)
        requires
            prev.wf(),
            provider.wf(),
            provider.spec_host() == prev.spec_token(),
            !prev.has_provider_spec(provider.spec_token()),
            self.providers_seq() == prev.providers_seq().push(provider),
            self.spec_token() == prev.spec_token(),
            self.exported_seq() == prev.exported_seq(),
        ensures
            self.wf(),
            self.has_provider_spec(provider.spec_token()),
            self.provider_spec(provider.spec_token()) == provider,
            forall|t: Seq<char>|
                #[trigger] self.has_provider_spec(t) <==> (prev.has_provider_spec(t) || t
                    == provider.spec_token()),
            forall|t: Seq<char>|
                t != provider.spec_token() && prev.has_provider_spec(t)
                    ==> #[trigger] self.provider_spec(t) == prev.provider_spec(t),
    {
        let n = prev.providers_seq().len() as int;
        assert(self.providers_seq()[n] == provider);
        assert forall|i: int, j: int|
            0 <= i < j < self.providers_seq().len() implies self.providers_seq()[i].spec_token()
            != self.providers_seq()[j].spec_token() by {
            if j < n {
                assert(prev.providers_seq()[i].spec_token() != prev.providers_seq()[j].spec_token());
            } else {
                if self.providers_seq()[i].spec_token() == provider.spec_token() {
                    assert(prev.providers_seq()[i].spec_token() == provider.spec_token());
                    assert(prev.has_provider_spec(provider.spec_token()));
                }
            }
        }
        assert forall|t: Seq<char>| #[trigger]
            self.has_provider_spec(t) <==> (prev.has_provider_spec(t) || t
            == provider.spec_token()) by {
            if prev.has_provider_spec(t) {
                let i = choose|i: int|
                    0 <= i < prev.providers_seq().len() && prev.providers_seq()[i].spec_token()
                        == t;
                assert(self.providers_seq()[i].spec_token() == t);
            }
            if self.has_provider_spec(t) && t != provider.spec_token() {
                let i = choose|i: int|
                    0 <= i < self.providers_seq().len() && self.providers_seq()[i].spec_token()
                        == t;
                assert(i != n);
                assert(prev.providers_seq()[i].spec_token() == t);
            }
        }
        assert forall|t: Seq<char>|
            t != provider.spec_token() && prev.has_provider_spec(t)
            implies #[trigger] self.provider_spec(t) == prev.provider_spec(t) by {
            let j2 = choose|j: int|
                0 <= j < prev.providers_seq().len() && prev.providers_seq()[j].spec_token() == t;
            assert(self.providers_seq()[j2].spec_token() == t);
            let j1 = self.provider_index_spec(t);
            assert(0 <= j1 < self.providers_seq().len() && self.providers_seq()[j1].spec_token()
                == t);
            assert(j1 != n);
            assert(prev.providers_seq()[j1].spec_token() == t);
            let j3 = prev.provider_index_spec(t);
            if j1 != j3 {
                assert(false);
            }
        }
        let kk = self.provider_index_spec(provider.spec_token());
        if kk != n {
            assert(prev.providers_seq()[kk].spec_token() == provider.spec_token());
            assert(false);
        }
        assert forall|t: Seq<char>| #[trigger]
            self.is_exported_spec(t) implies self.has_provider_spec(t) by {
            assert(prev.is_exported_spec(t));
            let i = choose|i: int|
                0 <= i < prev.providers_seq().len() && prev.providers_seq()[i].spec_token() == t;
            assert(self.providers_seq()[i].spec_token() == t);
        }
    }

    /// Mark a provider of this module as exported to importers. Fails when
    /// no provider with that token is registered here.
    pub fn register_exported_provider(&mut self, token: String) -> (r: Result<(), DiError>)
        requires
            old(self).wf(),
        ensures
            final(self).wf(),
            r is Ok <==> old(self).has_provider_spec(token@),
            r is Ok ==> final(self).is_exported_spec(token@),
            r is Ok ==> forall|t: Seq<char>|
                #[trigger] final(self).is_exported_spec(t) <==> (old(self).is_exported_spec(t) || t
                    == token@),
            r is Err ==> *final(self) == *old(self),
            r is Err ==> (match r->Err_0 {
                DiError::ExportOfUnregistered { token: t, module: m } => t@ == token@ && m@ == old(
                    self,
                ).spec_token(),
                _ => false,
            }),
            final(self).spec_id() == old(self).spec_id(),
            final(self).spec_token() == old(self).spec_token(),
            final(self).spec_distance() == old(self).spec_distance(),
            final(self).providers_seq() == old(self).providers_seq(),
            final(self).related_seq() == old(self).related_seq(),
    {
        if self.find_provider_index(&token).is_none() {
            return Err(
                DiError::ExportOfUnregistered { token, module: self.token.clone() },
            );
        }
        let ghost tok = token@;
        if !contains_token(&self.exported_tokens, &token) {
            self.exported_tokens.push(token);
            proof {
                assert(self.exported_seq() =~= old(self).exported_seq().push(tok));
                let n = old(self).exported_seq().len() as int;
                assert forall|t: Seq<char>| #[trigger]
                    self.is_exported_spec(t) <==> (old(self).is_exported_spec(t) || t == tok) by {
                    if old(self).is_exported_spec(t) {
                        let i = choose|i: int|
                            0 <= i < old(self).exported_seq().len() && old(self).exported_seq()[i]
                                == t;
                        assert(self.exported_seq()[i] == t);
                    }
                    if self.is_exported_spec(t) {
                        let i = choose|i: int|
                            0 <= i < self.exported_seq().len() && self.exported_seq()[i] == t;
                        if i < n {
                            assert(old(self).exported_seq()[i] == t);
                        }
                    }
                    assert(self.exported_seq()[n] == tok);
                }
            }
        } else {
            proof {
                let i = choose|i: int|
                    0 <= i < self.exported_tokens@.len() && self.exported_tokens@[i]@ == tok;
                assert(self.exported_seq()[i] == tok);
            }
        }
        Ok(())
    }

    /// Index of the provider registered under `token`, if any.
    pub fn find_provider_index(&self, token: &String) -> (r: Option<usize>)
        ensures
            r is Some <==> self.has_provider_spec(token@),
            r is Some ==> 0 <= r->0 < self.providers_seq().len()
                && self.providers_seq()[r->0 as int].spec_token() == token@,
    {
        let mut i: usize = 0;
        while i < self.providers.len()
            invariant
                i <= self.providers@.len(),
                forall|j: int| 0 <= j < i ==> self.providers@[j].spec_token() != token@,
            decreases self.providers@.len() - i,
        {
            if self.providers[i].get_token() == *token {
                return Some(i);
            }
            i += 1;
        }
        None
    }

    pub fn get_provider(&self, token: &String) -> (r: Option<&InstanceWrapper>)
        requires
            self.wf(),
        ensures
            r is Some <==> self.has_provider_spec(token@),
            r is Some ==> *r->0 == self.provider_spec(token@),
    {
        match self.find_provider_index(token) {
            Some(i) => {
                proof {
                    let j = self.provider_index_spec(token@);
                    if j != i as int {
                        assert(false);
                    }
                }
                Some(&self.providers[i])
            },
            None => None,
        }
    }

    /// The provider under `token`, but only if this module exports it.
    pub fn get_exported_provider(&self, token: &String) -> (r: Option<&InstanceWrapper>)
        requires
            self.wf(),
        ensures
            r is Some <==> self.exports_spec(token@),
            r is Some ==> *r->0 == self.provider_spec(token@),
    {
        if contains_token(&self.exported_tokens, token) {
            proof {
                let i = choose|i: int|
                    0 <= i < self.exported_tokens@.len() && self.exported_tokens@[i]@ == token@;
                assert(self.exported_seq()[i] == token@);
            }
            self.get_provider(token)
        } else {
            proof {
                if self.is_exported_spec(token@) {
                    let i = choose|i: int|
                        0 <= i < self.exported_seq().len() && self.exported_seq()[i] == token@;
                    assert(self.exported_tokens@[i]@ == token@);
                }
            }
            None
        }
    }

    /// Index of the provider under `token`, but only if it is exported.
    pub fn find_exported_provider_index(&self, token: &String) -> (r: Option<usize>)
        requires
            self.wf(),
        ensures
            r is Some <==> self.exports_spec(token@),
            r is Some ==> 0 <= r->0 < self.providers_seq().len()
                && self.providers_seq()[r->0 as int].spec_token() == token@,
    {
        if contains_token(&self.exported_tokens, token) {
            proof {
                let i = choose|i: int|
                    0 <= i < self.exported_tokens@.len() && self.exported_tokens@[i]@ == token@;
                assert(self.exported_seq()[i] == token@);
            }
            self.find_provider_index(token)
        } else {
            proof {
                if self.is_exported_spec(token@) {
                    let i = choose|i: int|
                        0 <= i < self.exported_seq().len() && self.exported_seq()[i] == token@;
                    assert(self.exported_tokens@[i]@ == token@);
                }
            }
            None
        }
    }

    pub fn has_related_module(&self, token: &String) -> (r: bool)
        ensures
            r == self.has_related_spec(token@),
    {
        let r = contains_token(&self.related_tokens, token);
        proof {
            if r {
                let i = choose|i: int|
                    0 <= i < self.related_tokens@.len() && self.related_tokens@[i]@ == token@;
                assert(self.related_seq()[i] == token@);
            } else {
                if self.has_related_spec(token@) {
                    let i = choose|i: int|
                        0 <= i < self.related_seq().len() && self.related_seq()[i] == token@;
                    assert(self.related_tokens@[i]@ == token@);
                }
            }
        }
        r
    }

    /// Tokens of the imported modules, in import order.
    pub fn get_related_modules(&self) -> (r: &Vec<String>)
        ensures
            r@.map_values(|s: String| s@) == self.related_seq(),
    {
        &self.related_tokens
    }

    pub fn get_providers(&self) -> (r: &Vec<InstanceWrapper>)
        ensures
            r@ == self.providers_seq(),
    {
        &self.providers
    }

    /// Tokens of the exported providers.
    pub fn get_exported_providers(&self) -> (r: &Vec<String>)
        ensures
            r@.map_values(|s: String| s@) == self.exported_seq(),
    {
        &self.exported_tokens
    }

    /// Mutable access to the provider at `i`; everything else unchanged.
    pub fn provider_at_mut(&mut self, i: usize) -> (w: &mut InstanceWrapper)
        requires
            i < old(self).providers_seq().len(),
        ensures
            *w == old(self).providers_seq()[i as int],
            final(self).providers_seq() == old(self).providers_seq().update(i as int, *final(w)),
            final(self).spec_id() == old(self).spec_id(),
            final(self).spec_token() == old(self).spec_token(),
            final(self).spec_distance() == old(self).spec_distance(),
            final(self).related_seq() == old(self).related_seq(),
            final(self).exported_seq() == old(self).exported_seq(),
    {
        &mut self.providers[i]
    }

    pub fn provider_at(&self, i: usize) -> (w: &InstanceWrapper)
        requires
            i < self.providers_seq().len(),
        ensures
            *w == self.providers_seq()[i as int],
    {
        &self.providers[i]
    }
}

/// Whether `tokens` holds a string equal to `token`.
pub fn contains_token(tokens: &Vec<String>, token: &String) -> (r: bool)
    ensures
        r == exists|i: int| 0 <= i < tokens@.len() && tokens@[i]@ == token@,
{
    let mut i: usize = 0;
    while i < tokens.len()
        invariant
            i <= tokens@.len(),
            forall|j: int| 0 <= j < i ==> tokens@[j]@ != token@,
        decreases tokens@.len() - i,
    {
        if tokens[i] == *token {
            return true;
        }
        i += 1;
    }
    false
}

} // verus!
