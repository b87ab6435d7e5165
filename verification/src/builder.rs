//! The staging area of the two-phase build. During the build phase,
//! generated code declares modules, providers, scopes and dependency
//! edges here; the init phase then creates every instance, and the link
//! phase assigns every dependency slot. All process state — the
//! container, the instance arena, the cast registry, the id counter — is
//! threaded through one explicit context, so each test can construct its
//! own.

use vstd::prelude::*;

use crate::cast::{Handle, TypeKey, Vtable};
use crate::container::Container;
use crate::errors::DiError;
use crate::instance_store::InstanceStore;
use crate::instance_wrapper::{InstanceWrapper, Scope, STATIC_CONTEXT};
use crate::module::Module;

verus! {

/// Staging data of one provider: how to create it (the concrete type its
/// factory produces) and how to wire it (its dependency tokens, each
/// standing for a deferred assignment done in the link phase).
pub struct ProviderBuilder {
    token: String,
    host: String,
    factory: TypeKey,
    deps: Vec<String>,
}

impl ProviderBuilder {
    pub closed spec fn spec_token(self) -> Seq<char> {
        self.token@
    }

    /// Token of the module this provider is declared in.
    pub closed spec fn spec_host(self) -> Seq<char> {
        self.host@
    }

    /// The concrete type the factory creates.
    pub closed spec fn spec_factory(self) -> TypeKey {
        self.factory
    }

    pub closed spec fn deps_seq(self) -> Seq<Seq<char>> {
        self.deps@.map_values(|s: String| s@)
    }

    pub open spec fn has_dep(self, t: Seq<char>) -> bool {
        self.deps_seq().contains(t)
    }

    pub fn get_token(&self) -> (r: String)
        ensures
            r@ == self.spec_token(),
    {
        self.token.clone()
    }

    pub fn get_factory(&self) -> (r: TypeKey)
        ensures
            r == self.spec_factory(),
    {
        self.factory
    }

    /// The recorded dependency tokens, in registration order.
    pub fn get_deps(&self) -> (r: &Vec<String>)
        ensures
            r@.map_values(|s: String| s@) == self.deps_seq(),
    {
        &self.deps
    }

    /// Record a dependency edge; recording the same token again is a
    /// no-op.
    pub fn add_dep(&mut self, dep_token: String)
        ensures
            final(self).spec_token() == old(self).spec_token(),
            final(self).spec_host() == old(self).spec_host(),
            final(self).spec_factory() == old(self).spec_factory(),
            final(self).has_dep(dep_token@),
            forall|t: Seq<char>|
                #[trigger] final(self).has_dep(t) <==> (old(self).has_dep(t) || t == dep_token@),
    {
        let ghost tok = dep_token@;
        if !crate::module::contains_token(&self.deps, &dep_token) {
            self.deps.push(dep_token);
            proof {
                assert(self.deps_seq() =~= old(self).deps_seq().push(tok));
                let n = old(self).deps_seq().len() as int;
                assert forall|t: Seq<char>| #[trigger]
                    self.has_dep(t) <==> (old(self).has_dep(t) || t == tok) by {
                    if old(self).has_dep(t) {
                        let i = choose|i: int|
                            0 <= i < old(self).deps_seq().len() && old(self).deps_seq()[i] == t;
                        assert(self.deps_seq()[i] == t);
                    }
                    if self.has_dep(t) {
                        let i = choose|i: int|
                            0 <= i < self.deps_seq().len() && self.deps_seq()[i] == t;
                        if i < n {
                            assert(old(self).deps_seq()[i] == t);
                        }
                    }
                    assert(self.deps_seq()[n] == tok);
                }
            }
        } else {
            proof {
                let i = choose|i: int| 0 <= i < self.deps@.len() && self.deps@[i]@ == tok;
                assert(self.deps_seq()[i] == tok);
            }
        }
    }
}

/// Staging data of one module: its token and its provider builders.
pub struct ModuleBuilder {
    token: String,
    providers: Vec<ProviderBuilder>,
}

impl ModuleBuilder {
    pub closed spec fn spec_token(self) -> Seq<char> {
        self.token@
    }

    pub closed spec fn providers_seq(self) -> Seq<ProviderBuilder> {
        self.providers@
    }

    pub open spec fn has_pb(self, t: Seq<char>) -> bool {
        exists|p: int|
            0 <= p < self.providers_seq().len() && self.providers_seq()[p].spec_token() == t
    }

    pub open spec fn pb_index_spec(self, t: Seq<char>) -> int {
        choose|p: int|
            0 <= p < self.providers_seq().len() && self.providers_seq()[p].spec_token() == t
    }

    /// The provider builder staged under `t` (meaningful when present).
    pub open spec fn pb_spec(self, t: Seq<char>) -> ProviderBuilder {
        self.providers_seq()[self.pb_index_spec(t)]
    }

    pub open spec fn wf(self) -> bool {
        &&& forall|i: int, j: int|
            0 <= i < j < self.providers_seq().len() ==> self.providers_seq()[i].spec_token()
                != self.providers_seq()[j].spec_token()
        &&& forall|p: int|
            0 <= p < self.providers_seq().len() ==> (#[trigger] self.providers_seq()[p]).spec_host()
                == self.spec_token()
    }

    pub fn get_token(&self) -> (r: String)
        ensures
            r@ == self.spec_token(),
    {
        self.token.clone()
    }

    pub fn get_providers(&self) -> (r: &Vec<ProviderBuilder>)
        ensures
            r@ == self.providers_seq(),
    {
        &self.providers
    }

    pub fn find_pb(&self, token: &String) -> (r: Option<usize>)
        ensures
            r is Some <==> self.has_pb(token@),
            r is Some ==> 0 <= r->0 < self.providers_seq().len()
                && self.providers_seq()[r->0 as int].spec_token() == token@,
    {
        let mut p: usize = 0;
        while p < self.providers.len()
            invariant
                p <= self.providers@.len(),
                forall|j: int| 0 <= j < p ==> self.providers@[j].spec_token() != token@,
            decreases self.providers@.len() - p,
        {
            if self.providers[p].get_token() == *token {
                proof {
                    assert(self.providers_seq()[p as int].spec_token() == token@);
                    assert(self.has_pb(token@));
                }
                return Some(p);
            }
            p += 1;
        }
        None
    }

    /// Stage a provider builder under a token not staged here yet.
    pub fn push_pb(&mut self, pb: ProviderBuilder)
        requires
            old(self).wf(),
            !old(self).has_pb(pb.spec_token()),
            pb.spec_host() == old(self).spec_token(),
        ensures
            final(self).wf(),
            final(self).spec_token() == old(self).spec_token(),
            final(self).providers_seq() == old(self).providers_seq().push(pb),
            final(self).has_pb(pb.spec_token()),
            final(self).pb_spec(pb.spec_token()) == pb,
            forall|t: Seq<char>|
                #[trigger] final(self).has_pb(t) <==> (old(self).has_pb(t) || t
                    == pb.spec_token()),
            forall|t: Seq<char>|
                t != pb.spec_token() && old(self).has_pb(t) ==> #[trigger] final(self).pb_spec(t)
                    == old(self).pb_spec(t),
    {
        self.providers.push(pb);
        proof {
            let n = old(self).providers_seq().len() as int;
            assert(self.providers_seq()[n] == pb);
            assert forall|i: int, j: int|
                0 <= i < j < self.providers_seq().len() implies self.providers_seq()[i].spec_token()
                != self.providers_seq()[j].spec_token() by {
                if j < n {
                    assert(old(self).providers_seq()[i].spec_token() != old(
                        self,
                    ).providers_seq()[j].spec_token());
                } else {
                    if self.providers_seq()[i].spec_token() == pb.spec_token() {
                        assert(old(self).providers_seq()[i].spec_token() == pb.spec_token());
                        assert(old(self).has_pb(pb.spec_token()));
                    }
                }
            }
            assert forall|p: int|
                0 <= p < self.providers_seq().len() implies (#[trigger] self.providers_seq()[p]).spec_host()
                == self.spec_token() by {
                if p < n {
                    assert(old(self).providers_seq()[p].spec_host() == old(self).spec_token());
                }
            }
            assert forall|t: Seq<char>| #[trigger]
                self.has_pb(t) <==> (old(self).has_pb(t) || t == pb.spec_token()) by {
                if old(self).has_pb(t) {
                    let i = choose|i: int|
                        0 <= i < old(self).providers_seq().len() && old(
                            self,
                        ).providers_seq()[i].spec_token() == t;
                    assert(self.providers_seq()[i].spec_token() == t);
                }
                if self.has_pb(t) && t != pb.spec_token() {
                    let i = choose|i: int|
                        0 <= i < self.providers_seq().len() && self.providers_seq()[i].spec_token()
                            == t;
                    assert(i != n);
                    assert(old(self).providers_seq()[i].spec_token() == t);
                }
            }
            assert forall|t: Seq<char>|
                t != pb.spec_token() && old(self).has_pb(t) implies #[trigger] self.pb_spec(t)
                == old(self).pb_spec(t) by {
                let j2 = old(self).pb_index_spec(t);
                assert(0 <= j2 < old(self).providers_seq().len() && old(
                    self,
                ).providers_seq()[j2].spec_token() == t);
                assert(self.providers_seq()[j2].spec_token() == t);
                let j1 = self.pb_index_spec(t);
                assert(0 <= j1 < self.providers_seq().len() && self.providers_seq()[j1].spec_token()
                    == t);
                assert(j1 != n);
                assert(old(self).providers_seq()[j1].spec_token() == t);
                if j1 != j2 {
                    assert(false);
                }
            }
            let kk = self.pb_index_spec(pb.spec_token());
            assert(self.has_pb(pb.spec_token()));
            assert(0 <= kk < self.providers_seq().len() && self.providers_seq()[kk].spec_token()
                == pb.spec_token());
            if kk != n {
                assert(old(self).providers_seq()[kk].spec_token() == pb.spec_token());
                assert(false);
            }
        }
    }

    /// Record a dependency edge on the provider staged under
    /// `provider_token`; reports whether that provider is staged here.
    pub fn register_dep(&mut self, provider_token: &String, dep_token: String) -> (ok: bool)
        requires
            old(self).wf(),
        ensures
            final(self).wf(),
            final(self).spec_token() == old(self).spec_token(),
            ok <==> old(self).has_pb(provider_token@),
            !ok ==> *final(self) == *old(self),
            forall|t: Seq<char>| #[trigger] final(self).has_pb(t) == old(self).has_pb(t),
            ok ==> final(self).pb_spec(provider_token@).has_dep(dep_token@)
                && final(self).pb_spec(provider_token@).spec_token() == old(self).pb_spec(
                provider_token@,
            ).spec_token() && final(self).pb_spec(provider_token@).spec_host() == old(
                self,
            ).pb_spec(provider_token@).spec_host() && final(self).pb_spec(
                provider_token@,
            ).spec_factory() == old(self).pb_spec(provider_token@).spec_factory(),
            ok ==> forall|t: Seq<char>|
                #[trigger] final(self).pb_spec(provider_token@).has_dep(t) <==> (old(self).pb_spec(
                    provider_token@,
                ).has_dep(t) || t == dep_token@),
            forall|t: Seq<char>|
                t != provider_token@ && old(self).has_pb(t) ==> #[trigger] final(self).pb_spec(t)
                    == old(self).pb_spec(t),
    {
        match self.find_pb(provider_token) {
            Some(p) => {
                proof {
                    let j = self.pb_index_spec(provider_token@);
                    if j != p as int {
                        assert(false);
                    }
                }
                let pb = &mut self.providers[p];
                pb.add_dep(dep_token);
                proof {
                    self.lemma_pb_update_frame(*old(self), p as int);
                }
                true
            },
            None => false,
        }
    }

    /// Frame lemma for updating the provider builder at `k` in place
    /// (same token and host).
    proof fn lemma_pb_update_frame(self, prev: ModuleBuilder, k: int)
        requires
            prev.wf(),
            0 <= k < prev.providers_seq().len(),
            self.spec_token() == prev.spec_token(),
            self.providers_seq().len() == prev.providers_seq().len(),
            self.providers_seq()[k].spec_token() == prev.providers_seq()[k].spec_token(),
            self.providers_seq()[k].spec_host() == prev.providers_seq()[k].spec_host(),
            forall|i: int|
                0 <= i < prev.providers_seq().len() && i != k ==> #[trigger] self.providers_seq()[i]
                    == prev.providers_seq()[i],
        ensures
            self.wf(),
            forall|t: Seq<char>| #[trigger] self.has_pb(t) == prev.has_pb(t),
            self.pb_spec(prev.providers_seq()[k].spec_token()) == self.providers_seq()[k],
            forall|t: Seq<char>|
                t != prev.providers_seq()[k].spec_token() && prev.has_pb(t)
                    ==> #[trigger] self.pb_spec(t) == prev.pb_spec(t),
    {
        assert forall|i: int, j: int|
            0 <= i < j < self.providers_seq().len() implies self.providers_seq()[i].spec_token()
            != self.providers_seq()[j].spec_token() by {
            assert(self.providers_seq()[i].spec_token() == prev.providers_seq()[i].spec_token());
            assert(self.providers_seq()[j].spec_token() == prev.providers_seq()[j].spec_token());
        }
        assert forall|p: int|
            0 <= p < self.providers_seq().len() implies (#[trigger] self.providers_seq()[p]).spec_host()
            == self.spec_token() by {
            assert(self.providers_seq()[p].spec_host() == prev.providers_seq()[p].spec_host());
            assert(prev.providers_seq()[p].spec_host() == prev.spec_token());
        }
        assert forall|t: Seq<char>| #[trigger] self.has_pb(t) == prev.has_pb(t) by {
            if prev.has_pb(t) {
                let i = choose|i: int|
                    0 <= i < prev.providers_seq().len() && prev.providers_seq()[i].spec_token()
                        == t;
                assert(self.providers_seq()[i].spec_token() == t);
            }
            if self.has_pb(t) {
                let i = choose|i: int|
                    0 <= i < self.providers_seq().len() && self.providers_seq()[i].spec_token()
                        == t;
                assert(prev.providers_seq()[i].spec_token() == t);
            }
        }
        let tk = prev.providers_seq()[k].spec_token();
        assert(self.providers_seq()[k].spec_token() == tk);
        let kk = self.pb_index_spec(tk);
        assert(self.has_pb(tk));
        assert(0 <= kk < self.providers_seq().len() && self.providers_seq()[kk].spec_token() == tk);
        if kk != k {
            assert(prev.providers_seq()[kk].spec_token() == tk);
            assert(false);
        }
        assert forall|t: Seq<char>|
            t != tk && prev.has_pb(t) implies #[trigger] self.pb_spec(t) == prev.pb_spec(t) by {
            let j2 = prev.pb_index_spec(t);
            assert(0 <= j2 < prev.providers_seq().len() && prev.providers_seq()[j2].spec_token()
                == t);
            assert(j2 != k);
            assert(self.providers_seq()[j2].spec_token() == t);
            let j1 = self.pb_index_spec(t);
            assert(0 <= j1 < self.providers_seq().len() && self.providers_seq()[j1].spec_token()
                == t);
            assert(j1 != k);
            assert(prev.providers_seq()[j1].spec_token() == t);
            if j1 != j2 {
                assert(false);
            }
        }
    }
}

/// The staged builders have pairwise distinct module tokens.
pub open spec fn builders_unique_in(bs: Seq<ModuleBuilder>) -> bool {
    forall|i: int, j: int|
        0 <= i < j < bs.len() ==> (#[trigger] bs[i]).spec_token() != (#[trigger] bs[j]).spec_token()
}

pub open spec fn has_builder_in(bs: Seq<ModuleBuilder>, mt: Seq<char>) -> bool {
    exists|i: int| 0 <= i < bs.len() && (#[trigger] bs[i]).spec_token() == mt
}

pub open spec fn builder_index_in(bs: Seq<ModuleBuilder>, mt: Seq<char>) -> int {
    choose|i: int| 0 <= i < bs.len() && (#[trigger] bs[i]).spec_token() == mt
}

/// A staged provider builder exists for provider `pt` of module `mt`.
pub open spec fn has_builder_for_in(bs: Seq<ModuleBuilder>, mt: Seq<char>, pt: Seq<char>) -> bool {
    exists|i: int| 0 <= i < bs.len() && (#[trigger] bs[i]).spec_token() == mt && bs[i].has_pb(pt)
}

/// The staged builder of provider `pt` in module `mt` (meaningful when
/// present and unique).
pub open spec fn pb_in(bs: Seq<ModuleBuilder>, mt: Seq<char>, pt: Seq<char>) -> ProviderBuilder {
    bs[builder_index_in(bs, mt)].pb_spec(pt)
}

/// The staging area and the graph agree: every staged module and provider
/// is registered in the container, and every container provider has a
/// staged builder.
pub open spec fn staging_matches(c: Container, bs: Seq<ModuleBuilder>) -> bool {
    &&& builders_unique_in(bs)
    &&& forall|i: int| 0 <= i < bs.len() ==> (#[trigger] bs[i]).wf()
    &&& forall|i: int| 0 <= i < bs.len() ==> c.has_module_spec((#[trigger] bs[i]).spec_token())
    &&& forall|i: int, p: int|
        0 <= i < bs.len() && 0 <= p < bs[i].providers_seq().len() ==> c.module_spec(
            bs[i].spec_token(),
        ).has_provider_spec((#[trigger] bs[i].providers_seq()[p]).spec_token())
    &&& forall|i: int, p: int|
        0 <= i < c.modules_seq().len() && 0 <= p < c.modules_seq()[i].providers_seq().len()
            ==> has_builder_for_in(
            bs,
            c.modules_seq()[i].spec_token(),
            (#[trigger] c.modules_seq()[i].providers_seq()[p]).spec_token(),
        )
}

/// Transport of `staging_matches` to a container with the same modules.
pub proof fn lemma_staging_same_modules(c1: Container, c2: Container, bs: Seq<ModuleBuilder>)
    requires
        staging_matches(c1, bs),
        c1.wf(),
        c2.wf(),
        c2.modules_seq() == c1.modules_seq(),
    ensures
        staging_matches(c2, bs),
{
    Container::lemma_same_modules(c2, c1);
    assert forall|i: int|
        0 <= i < bs.len() implies c2.has_module_spec((#[trigger] bs[i]).spec_token()) by {
        assert(c1.has_module_spec(bs[i].spec_token()));
    }
    assert forall|i: int, p: int|
        0 <= i < bs.len() && 0 <= p < bs[i].providers_seq().len() implies c2.module_spec(
        bs[i].spec_token(),
    ).has_provider_spec((#[trigger] bs[i].providers_seq()[p]).spec_token()) by {
        let mt = bs[i].spec_token();
        assert(c1.has_module_spec(mt));
        assert(c1.module_spec(mt).has_provider_spec(bs[i].providers_seq()[p].spec_token()));
        assert(c2.module_spec(mt) == c1.module_spec(mt));
    }
}

/// Transport of `staging_matches` to a container in which one module was
/// changed in place, keeping its token and its set of provider tokens.
pub proof fn lemma_staging_module_update(
    c1: Container,
    c2: Container,
    bs: Seq<ModuleBuilder>,
    mi: int,
)
    requires
        staging_matches(c1, bs),
        c1.wf(),
        c2.wf(),
        c2.modules_seq().len() == c1.modules_seq().len(),
        0 <= mi < c1.modules_seq().len(),
        forall|k: int|
            0 <= k < c1.modules_seq().len() && k != mi ==> #[trigger] c2.modules_seq()[k]
                == c1.modules_seq()[k],
        c2.modules_seq()[mi].spec_token() == c1.modules_seq()[mi].spec_token(),
        forall|pt: Seq<char>|
            #[trigger] c2.modules_seq()[mi].has_provider_spec(pt) == c1.modules_seq()[mi].has_provider_spec(
                pt,
            ),
    ensures
        staging_matches(c2, bs),
{
    let mt0 = c1.modules_seq()[mi].spec_token();
    assert forall|t: Seq<char>|
        #![trigger c1.has_module_spec(t)]
        #![trigger c2.has_module_spec(t)]
        c1.has_module_spec(t) <==> c2.has_module_spec(t) by {
        if c1.has_module_spec(t) {
            let i = choose|i: int|
                0 <= i < c1.modules_seq().len() && c1.modules_seq()[i].spec_token() == t;
            assert(c2.modules_seq()[i].spec_token() == t);
        }
        if c2.has_module_spec(t) {
            let i = choose|i: int|
                0 <= i < c2.modules_seq().len() && c2.modules_seq()[i].spec_token() == t;
            assert(c1.modules_seq()[i].spec_token() == t);
        }
    }
    assert forall|i: int|
        0 <= i < bs.len() implies c2.has_module_spec((#[trigger] bs[i]).spec_token()) by {
        assert(c1.has_module_spec(bs[i].spec_token()));
    }
    assert forall|i: int, p: int|
        0 <= i < bs.len() && 0 <= p < bs[i].providers_seq().len() implies c2.module_spec(
        bs[i].spec_token(),
    ).has_provider_spec((#[trigger] bs[i].providers_seq()[p]).spec_token()) by {
        let mt = bs[i].spec_token();
        let pt = bs[i].providers_seq()[p].spec_token();
        assert(c1.module_spec(mt).has_provider_spec(pt));
        let j1 = c1.module_index_spec(mt);
        assert(0 <= j1 < c1.modules_seq().len() && c1.modules_seq()[j1].spec_token() == mt);
        assert(c2.modules_seq()[j1].spec_token() == mt);
        c2.lemma_module_at_token(j1);
        if j1 == mi {
            assert(c2.modules_seq()[mi].has_provider_spec(pt));
        } else {
            assert(c2.modules_seq()[j1] == c1.modules_seq()[j1]);
        }
    }
    assert forall|i: int, p: int|
        0 <= i < c2.modules_seq().len() && 0 <= p
            < c2.modules_seq()[i].providers_seq().len() implies has_builder_for_in(
        bs,
        c2.modules_seq()[i].spec_token(),
        (#[trigger] c2.modules_seq()[i].providers_seq()[p]).spec_token(),
    ) by {
        if i == mi {
            let pt = c2.modules_seq()[mi].providers_seq()[p].spec_token();
            assert(c2.modules_seq()[mi].has_provider_spec(pt));
            assert(c1.modules_seq()[mi].has_provider_spec(pt));
            let q = choose|q: int|
                0 <= q < c1.modules_seq()[mi].providers_seq().len()
                    && c1.modules_seq()[mi].providers_seq()[q].spec_token() == pt;
            assert(has_builder_for_in(bs, mt0, pt));
        } else {
            assert(c2.modules_seq()[i] == c1.modules_seq()[i]);
            assert(has_builder_for_in(
                bs,
                c1.modules_seq()[i].spec_token(),
                c1.modules_seq()[i].providers_seq()[p].spec_token(),
            ));
        }
    }
}

/// Effect of the init phase registering an instance of the provider at
/// (mi, pi), requested by the inquirer whose wrapper id is `inquirer_id`.
/// A singleton populates its own static cell; a transient populates one
/// cell per inquirer. A cell already populated makes the whole operation
/// a no-op — the idempotence that makes shared diamond dependencies safe.
/// Otherwise a fresh instance id is drawn, a record with one unassigned
/// slot per declared dependency enters the arena, and the cell receives
/// the new handle; nothing else changes.
pub open spec fn register_instance_effect(
    pre: BuilderContext,
    post: BuilderContext,
    mi: int,
    pi: int,
    inquirer_id: u64,
) -> bool {
    let w_pre = pre.container.modules_seq()[mi].providers_seq()[pi];
    let w_post = post.container.modules_seq()[mi].providers_seq()[pi];
    let key = w_pre.cell_key_inq(inquirer_id);
    let mt = pre.container.modules_seq()[mi].spec_token();
    let pb = pb_in(pre.modules@, mt, w_pre.spec_token());
    let h = Handle {
        instance_id: pre.next_id,
        concrete: pb.spec_factory(),
        view: pb.spec_factory(),
    };
    &&& w_pre.spec_scope() != Scope::ContextDependent
    &&& w_post.has_cell(key, STATIC_CONTEXT)
    &&& if w_pre.has_cell(key, STATIC_CONTEXT) {
        post == pre
    } else {
        &&& post.next_id == pre.next_id + 1
        &&& w_post.same_identity(w_pre)
        &&& w_post.cell_value(key, STATIC_CONTEXT) == h
        &&& forall|i2: u64, c2: u64|
            !(i2 == key && c2 == STATIC_CONTEXT) ==> #[trigger] w_post.has_cell(i2, c2)
                == w_pre.has_cell(i2, c2)
        &&& forall|i2: u64, c2: u64|
            !(i2 == key && c2 == STATIC_CONTEXT) && w_pre.has_cell(i2, c2)
                ==> #[trigger] w_post.cell_value(i2, c2) == w_pre.cell_value(i2, c2)
        &&& post.container.modules_seq().len() == pre.container.modules_seq().len()
        &&& forall|k: int|
            0 <= k < pre.container.modules_seq().len() && k != mi
                ==> #[trigger] post.container.modules_seq()[k] == pre.container.modules_seq()[k]
        &&& post.container.modules_seq()[mi].spec_token() == pre.container.modules_seq()[mi].spec_token()
        &&& post.container.modules_seq()[mi].related_seq() == pre.container.modules_seq()[mi].related_seq()
        &&& post.container.modules_seq()[mi].exported_seq() == pre.container.modules_seq()[mi].exported_seq()
        &&& post.container.modules_seq()[mi].providers_seq().len() == pre.container.modules_seq()[mi].providers_seq().len()
        &&& forall|p2: int|
            0 <= p2 < pre.container.modules_seq()[mi].providers_seq().len() && p2 != pi
                ==> #[trigger] post.container.modules_seq()[mi].providers_seq()[p2]
                == pre.container.modules_seq()[mi].providers_seq()[p2]
        &&& post.container.globals_seq() == pre.container.globals_seq()
        &&& post.store.has_record(pre.next_id)
        &&& post.store.record_spec(pre.next_id).spec_concrete() == pb.spec_factory()
        &&& forall|t: Seq<char>|
            #[trigger] post.store.record_spec(pre.next_id).has_slot(t) <==> pb.has_dep(t)
        &&& forall|t: Seq<char>|
            #[trigger] post.store.record_spec(pre.next_id).has_slot(t)
                ==> !post.store.record_spec(pre.next_id).slot_spec(t).is_initialized()
        &&& forall|i2: u64|
            #[trigger] post.store.has_record(i2) <==> (pre.store.has_record(i2) || i2
                == pre.next_id)
        &&& forall|i2: u64|
            i2 != pre.next_id && pre.store.has_record(i2) ==> #[trigger] post.store.record_spec(i2)
                == pre.store.record_spec(i2)
        &&& post.modules@ == pre.modules@
        &&& post.vtable == pre.vtable
    }
}

/// Effect of the link phase wiring the dependency `t` of the instance
/// `self_instance`: the scope-appropriate cell of the resolved wrapper at
/// (mi, pi) is read and assigned into the matching slot of the
/// dependent's record; nothing else changes.
pub open spec fn link_instance_effect(
    pre: BuilderContext,
    post: BuilderContext,
    mi: int,
    pi: int,
    inquirer_id: u64,
    self_instance: Handle,
    t: Seq<char>,
) -> bool {
    let w = pre.container.modules_seq()[mi].providers_seq()[pi];
    let key = w.cell_key_inq(inquirer_id);
    &&& w.spec_scope() != Scope::ContextDependent
    &&& w.has_cell(key, STATIC_CONTEXT)
    &&& post.store.slot_initialized(self_instance.instance_id, t)
    &&& post.store.slot_value(self_instance.instance_id, t) == w.cell_value(key, STATIC_CONTEXT)
    &&& forall|i2: u64| #[trigger] post.store.has_record(i2) == pre.store.has_record(i2)
    &&& forall|i2: u64|
        i2 != self_instance.instance_id && pre.store.has_record(i2)
            ==> #[trigger] post.store.record_spec(i2) == pre.store.record_spec(i2)
    &&& forall|t2: Seq<char>|
        #[trigger] post.store.record_spec(self_instance.instance_id).has_slot(t2)
            == pre.store.record_spec(self_instance.instance_id).has_slot(t2)
    &&& forall|t2: Seq<char>|
        t2 != t && pre.store.record_spec(self_instance.instance_id).has_slot(t2)
            ==> #[trigger] post.store.record_spec(self_instance.instance_id).slot_spec(t2)
            == pre.store.record_spec(self_instance.instance_id).slot_spec(t2)
}

/// The explicit build context: the container under construction, the
/// instance arena, the cast registry, the staged module builders and the
/// id counter every fresh identity is drawn from.
pub struct BuilderContext {
    pub container: Container,
    pub modules: Vec<ModuleBuilder>,
    pub store: InstanceStore,
    pub vtable: Vtable,
    pub next_id: u64,
}

impl BuilderContext {
    pub open spec fn has_builder(self, mt: Seq<char>) -> bool {
        has_builder_in(self.modules@, mt)
    }

    pub open spec fn has_builder_for(self, mt: Seq<char>, pt: Seq<char>) -> bool {
        has_builder_for_in(self.modules@, mt, pt)
    }

    pub open spec fn pb_for(self, mt: Seq<char>, pt: Seq<char>) -> ProviderBuilder {
        pb_in(self.modules@, mt, pt)
    }

    pub open spec fn wf(self) -> bool {
        &&& self.container.wf()
        &&& self.store.wf()
        &&& self.store.ids_below(self.next_id)
        &&& staging_matches(self.container, self.modules@)
    }

    pub fn new() -> (ctx: BuilderContext)
        ensures
            ctx.wf(),
            ctx.container.modules_seq().len() == 0,
            ctx.container.globals_seq().len() == 0,
            ctx.modules@.len() == 0,
            ctx.store.records_seq().len() == 0,
            forall|t: TypeKey, s: TypeKey| !ctx.vtable.has_caster(t, s),
            ctx.next_id == 0,
    {
        BuilderContext {
            container: Container::new(),
            modules: Vec::new(),
            store: InstanceStore::new(),
            vtable: Vtable::new(),
            next_id: 0,
        }
    }

    pub fn find_builder(&self, token: &String) -> (r: Option<usize>)
        ensures
            r is Some <==> self.has_builder(token@),
            r is Some ==> 0 <= r->0 < self.modules@.len()
                && self.modules@[r->0 as int].spec_token() == token@,
    {
        let mut i: usize = 0;
        while i < self.modules.len()
            invariant
                i <= self.modules@.len(),
                forall|j: int| 0 <= j < i ==> self.modules@[j].spec_token() != token@,
            decreases self.modules@.len() - i,
        {
            if self.modules[i].get_token() == *token {
                proof {
                    assert(self.modules@[i as int].spec_token() == token@);
                    assert(self.has_builder(token@));
                }
                return Some(i);
            }
            i += 1;
        }
        None
    }

    pub fn is_module_exists(&self, token: &String) -> (r: bool)
        ensures
            r == self.has_builder(token@),
    {
        self.find_builder(token).is_some()
    }

    /// Register a cast capability in the context's registry.
    pub fn register_caster(&mut self, target: TypeKey, source: TypeKey)
        requires
            old(self).wf(),
        ensures
            final(self).wf(),
            final(self).container == old(self).container,
            final(self).modules@ == old(self).modules@,
            final(self).store == old(self).store,
            final(self).next_id == old(self).next_id,
            forall|t: TypeKey, s: TypeKey|
                #[trigger] final(self).vtable.has_caster(t, s) <==> (old(self).vtable.has_caster(
                    t,
                    s,
                ) || (t == target && s == source)),
    {
        self.vtable.register(target, source);
    }

    /// Declare a module: a fresh graph node and an empty staging entry.
    /// Declaring an already declared module is a no-op — the cycle
    /// protection of the build phase: a module reached again through an
    /// import cycle is not rebuilt.
    pub fn register_module(&mut self, token: String)
        requires
            old(self).wf(),
            old(self).next_id < u64::MAX,
        ensures
            final(self).wf(),
            final(self).has_builder(token@),
            final(self).container.has_module_spec(token@),
            old(self).has_builder(token@) ==> *final(self) == *old(self),
            !old(self).has_builder(token@) ==> final(self).container.module_spec(
                token@,
            ).providers_seq().len() == 0 && final(self).container.module_spec(token@).spec_token()
                == token@ && final(self).modules@.len() == old(self).modules@.len() + 1
                && final(self).next_id == old(self).next_id + 1 && final(self).store == old(
                self,
            ).store && final(self).vtable == old(self).vtable,
            forall|t: Seq<char>|
                #[trigger] final(self).container.has_module_spec(t) <==> (old(
                    self,
                ).container.has_module_spec(t) || t == token@),
            forall|t: Seq<char>|
                t != token@ && old(self).container.has_module_spec(t)
                    ==> #[trigger] final(self).container.module_spec(t) == old(
                    self,
                ).container.module_spec(t),
            forall|t: Seq<char>|
                #[trigger] final(self).has_builder(t) <==> (old(self).has_builder(t) || t
                    == token@),
            final(self).container.globals_seq() == old(self).container.globals_seq(),
            final(self).next_id >= old(self).next_id,
            final(self).next_id <= old(self).next_id + 1,
    {
        if self.is_module_exists(&token) {
            proof {
                let i = choose|i: int|
                    0 <= i < self.modules@.len() && (#[trigger] self.modules@[i]).spec_token()
                        == token@;
                assert(self.container.has_module_spec(self.modules@[i].spec_token()));
            }
            return ;
        }
        let id = self.next_id;
        self.next_id = id + 1;
        let module = Module::new(id, token.clone());
        self.container.register_module(token.clone(), module);
        let ghost mid = *self;
        self.modules.push(ModuleBuilder { token, providers: Vec::new() });
        proof {
            let bs0 = old(self).modules@;
            let bs = self.modules@;
            let n = bs0.len() as int;
            assert(bs == bs0.push(bs[n]));
            let tok = bs[n].spec_token();
            assert(tok == token@);
            assert forall|t: Seq<char>| #[trigger]
                self.has_builder(t) <==> (old(self).has_builder(t) || t == tok) by {
                if has_builder_in(bs0, t) {
                    let i = choose|i: int| 0 <= i < bs0.len() && (#[trigger] bs0[i]).spec_token() == t;
                    assert(bs[i].spec_token() == t);
                }
                if has_builder_in(bs, t) {
                    let i = choose|i: int| 0 <= i < bs.len() && (#[trigger] bs[i]).spec_token() == t;
                    if i < n {
                        assert(bs0[i].spec_token() == t);
                    }
                }
            }
            assert(staging_matches(self.container, bs)) by {
                assert forall|i: int, j: int|
                    0 <= i < j < bs.len() implies (#[trigger] bs[i]).spec_token() != (
                #[trigger] bs[j]).spec_token() by {
                    if j < n {
                        assert(bs0[i].spec_token() != bs0[j].spec_token());
                    } else {
                        if bs[i].spec_token() == tok {
                            assert(bs0[i].spec_token() == tok);
                            assert(has_builder_in(bs0, tok));
                        }
                    }
                }
                assert forall|i: int| 0 <= i < bs.len() implies (#[trigger] bs[i]).wf()
                    && self.container.has_module_spec(bs[i].spec_token()) by {
                    if i < n {
                        assert(bs[i] == bs0[i]);
                        assert(bs0[i].wf());
                        assert(old(self).container.has_module_spec(bs0[i].spec_token()));
                    } else {
                        assert(bs[i].providers_seq().len() == 0);
                    }
                }
                assert forall|i: int, p: int|
                    0 <= i < bs.len() && 0 <= p
                        < bs[i].providers_seq().len() implies self.container.module_spec(
                    bs[i].spec_token(),
                ).has_provider_spec((#[trigger] bs[i].providers_seq()[p]).spec_token()) by {
                    assert(i < n);
                    assert(bs[i] == bs0[i]);
                    let mt = bs0[i].spec_token();
                    assert(old(self).container.module_spec(mt).has_provider_spec(
                        bs0[i].providers_seq()[p].spec_token(),
                    ));
                    assert(mt != token@) by {
                        if mt == token@ {
                            assert(has_builder_in(bs0, token@));
                        }
                    }
                    assert(self.container.module_spec(mt) == old(self).container.module_spec(mt));
                }
                assert forall|i: int, p: int|
                    0 <= i < self.container.modules_seq().len() && 0 <= p
                        < self.container.modules_seq()[i].providers_seq().len() implies has_builder_for_in(
                    bs,
                    self.container.modules_seq()[i].spec_token(),
                    (#[trigger] self.container.modules_seq()[i].providers_seq()[p]).spec_token(),
                ) by {
                    let mt = self.container.modules_seq()[i].spec_token();
                    let pt = self.container.modules_seq()[i].providers_seq()[p].spec_token();
                    self.container.lemma_module_at_token(i);
                    if mt == token@ {
                        assert(self.container.module_spec(token@).providers_seq().len() == 0);
                        assert(false);
                    } else {
                        assert(self.container.has_module_spec(mt));
                        assert(old(self).container.has_module_spec(mt));
                        assert(self.container.module_spec(mt) == old(self).container.module_spec(
                            mt,
                        ));
                        let j = old(self).container.module_index_spec(mt);
                        assert(0 <= j < old(self).container.modules_seq().len() && old(
                            self,
                        ).container.modules_seq()[j].spec_token() == mt);
                        old(self).container.lemma_module_at_token(j);
                        assert(old(self).container.modules_seq()[j]
                            == self.container.modules_seq()[i]);
                        assert(has_builder_for_in(
                            bs0,
                            mt,
                            old(self).container.modules_seq()[j].providers_seq()[p].spec_token(),
                        ));
                        let bi = choose|bi: int|
                            0 <= bi < bs0.len() && (#[trigger] bs0[bi]).spec_token() == mt
                                && bs0[bi].has_pb(pt);
                        assert(bs[bi].spec_token() == mt && bs[bi].has_pb(pt));
                    }
                }
            }
        }
    }

    /// Mark a declared module as global.
    pub fn should_be_global(&mut self, module_token: &String)
        requires
            old(self).wf(),
        ensures
            final(self).wf(),
            final(self).container.modules_seq() == old(self).container.modules_seq(),
            final(self).modules@ == old(self).modules@,
            final(self).store == old(self).store,
            final(self).vtable == old(self).vtable,
            final(self).next_id == old(self).next_id,
            old(self).container.has_module_spec(module_token@) ==> forall|t: Seq<char>|
                #[trigger] final(self).container.is_global_spec(t) <==> (old(
                    self,
                ).container.is_global_spec(t) || t == module_token@),
            !old(self).container.has_module_spec(module_token@)
                ==> final(self).container.globals_seq() == old(self).container.globals_seq(),
    {
        let ghost pre = *self;
        self.container.register_global_module_by_token(module_token.clone());
        proof {
            lemma_staging_same_modules(pre.container, self.container, self.modules@);
        }
    }

    /// Record a module's distance from the root of the import graph; an
    /// unknown token is ignored.
    pub fn set_distance(&mut self, module_token: &String, distance: u32)
        requires
            old(self).wf(),
        ensures
            final(self).wf(),
            final(self).modules@ == old(self).modules@,
            final(self).store == old(self).store,
            final(self).vtable == old(self).vtable,
            final(self).next_id == old(self).next_id,
            final(self).container.globals_seq() == old(self).container.globals_seq(),
            forall|t: Seq<char>|
                #[trigger] final(self).container.has_module_spec(t) == old(
                    self,
                ).container.has_module_spec(t),
            old(self).container.has_module_spec(module_token@) ==> final(self).container.module_spec(module_token@).spec_distance() == distance,
            old(self).container.has_module_spec(module_token@) ==> final(self).container.module_spec(module_token@).providers_seq() == old(
                self,
            ).container.module_spec(module_token@).providers_seq(),
            old(self).container.has_module_spec(module_token@) ==> final(self).container.module_spec(module_token@).related_seq() == old(
                self,
            ).container.module_spec(module_token@).related_seq(),
            forall|t: Seq<char>|
                t != module_token@ && old(self).container.has_module_spec(t)
                    ==> #[trigger] final(self).container.module_spec(t) == old(
                    self,
                ).container.module_spec(t),
    {
        let ghost pre = *self;
        match self.container.find_module(module_token) {
            Some(mi) => {
                proof {
                    self.container.lemma_module_at_token(mi as int);
                }
                let m = self.container.module_at_mut(mi);
                m.set_distance(distance);
                proof {
                    assert(self.container.modules_seq()[mi as int].wf()) by {
                        let m1 = pre.container.modules_seq()[mi as int];
                        let m2 = self.container.modules_seq()[mi as int];
                        assert(m2.providers_seq() == m1.providers_seq());
                        assert(m2.exported_seq() == m1.exported_seq());
                        assert forall|t: Seq<char>| #[trigger]
                            m2.is_exported_spec(t) implies m2.has_provider_spec(t) by {
                            assert(m1.is_exported_spec(t));
                            assert(m1.has_provider_spec(t));
                        }
                    }
                    Container::lemma_wf_after_module_update(pre.container, self.container, mi as int);
                    assert forall|pt: Seq<char>|
                        #[trigger] self.container.modules_seq()[mi as int].has_provider_spec(pt)
                        == pre.container.modules_seq()[mi as int].has_provider_spec(pt) by {}
                    lemma_staging_module_update(
                        pre.container,
                        self.container,
                        self.modules@,
                        mi as int,
                    );
                }
            },
            None => {},
        }
    }

    /// Mark one provider of a module as exported to importers.
    pub fn should_be_exported(&mut self, module_token: &String, provider_token: &String) -> (r:
        Result<(), DiError>)
        requires
            old(self).wf(),
        ensures
            final(self).wf(),
            final(self).modules@ == old(self).modules@,
            final(self).store == old(self).store,
            final(self).vtable == old(self).vtable,
            final(self).next_id == old(self).next_id,
            final(self).container.globals_seq() == old(self).container.globals_seq(),
            forall|t: Seq<char>|
                #[trigger] final(self).container.has_module_spec(t) == old(
                    self,
                ).container.has_module_spec(t),
            r is Ok <==> old(self).container.has_module_spec(module_token@) && old(
                self,
            ).container.module_spec(module_token@).has_provider_spec(provider_token@),
            r is Ok ==> final(self).container.module_spec(module_token@).exports_spec(
                provider_token@,
            ),
            r is Err ==> final(self).container.modules_seq() == old(self).container.modules_seq(),
            forall|t: Seq<char>|
                t != module_token@ && old(self).container.has_module_spec(t)
                    ==> #[trigger] final(self).container.module_spec(t) == old(
                    self,
                ).container.module_spec(t),
            r is Ok ==> final(self).container.module_spec(module_token@).providers_seq() == old(
                self,
            ).container.module_spec(module_token@).providers_seq(),
    {
        let ghost pre = *self;
        match self.container.find_module(module_token) {
            Some(mi) => {
                proof {
                    self.container.lemma_module_at_token(mi as int);
                }
                let m = self.container.module_at_mut(mi);
                let res = m.register_exported_provider(provider_token.clone());
                proof {
                    Container::lemma_wf_after_module_update(pre.container, self.container, mi as int);
                    assert forall|pt: Seq<char>|
                        #[trigger] self.container.modules_seq()[mi as int].has_provider_spec(pt)
                        == pre.container.modules_seq()[mi as int].has_provider_spec(pt) by {}
                    lemma_staging_module_update(
                        pre.container,
                        self.container,
                        self.modules@,
                        mi as int,
                    );
                    if res is Err {
                        assert(self.container.modules_seq() =~= pre.container.modules_seq());
                    }
                }
                match res {
                    Ok(()) => Ok(()),
                    Err(e) => Err(e),
                }
            },
            None => {
                Err(
                    DiError::ProviderNotFound {
                        token: provider_token.clone(),
                        module: module_token.clone(),
                    },
                )
            },
        }
    }

    /// Record that `parent_token` imports `child_token`. A child module
    /// not declared yet is declared fresh, one hop further from the root
    /// than its importer; a child already under construction is linked
    /// as-is — the cycle protection that makes import cycles safe.
    pub fn register_related_module(&mut self, parent_token: &String, child_token: &String) -> (r:
        Result<(), DiError>)
        requires
            old(self).wf(),
            old(self).next_id < u64::MAX,
        ensures
            final(self).wf(),
            r is Ok <==> old(self).has_builder(parent_token@),
            r is Err ==> *final(self) == *old(self),
            r is Ok ==> final(self).container.has_module_spec(child_token@) && final(self).has_builder(child_token@) && final(self).container.module_spec(
                parent_token@,
            ).has_related_spec(child_token@),
            forall|t: Seq<char>|
                old(self).container.has_module_spec(t) ==> #[trigger] final(self).container.has_module_spec(t),
            forall|t: Seq<char>, pt: Seq<char>|
                old(self).container.has_module_spec(t) && #[trigger] old(
                    self,
                ).container.module_spec(t).has_provider_spec(pt) ==> final(self).container.has_module_spec(t) && #[trigger] final(self).container.module_spec(
                    t,
                ).has_provider_spec(pt),
            final(self).store == old(self).store,
            final(self).vtable == old(self).vtable,
            final(self).next_id >= old(self).next_id,
            final(self).next_id <= old(self).next_id + 1,
            r is Ok && !old(self).has_builder(child_token@) ==> final(self).container.module_spec(
                child_token@,
            ).spec_distance() == (if old(self).container.module_spec(
                parent_token@,
            ).spec_distance() < u32::MAX {
                (old(self).container.module_spec(parent_token@).spec_distance() + 1) as u32
            } else {
                u32::MAX
            }) && final(self).container.module_spec(child_token@).providers_seq().len() == 0
                && final(self).modules@.len() == old(self).modules@.len() + 1
                && final(self).next_id == old(self).next_id + 1,
            r is Ok && old(self).has_builder(child_token@) ==> final(self).modules@ == old(
                self,
            ).modules@ && final(self).next_id == old(self).next_id,
            r is Ok ==> forall|t: Seq<char>|
                t != parent_token@ && t != child_token@ && old(self).container.has_module_spec(t)
                    ==> #[trigger] final(self).container.module_spec(t) == old(
                    self,
                ).container.module_spec(t),
            r is Ok && old(self).has_builder(child_token@) ==> forall|t: Seq<char>|
                t != parent_token@ && old(self).container.has_module_spec(t)
                    ==> #[trigger] final(self).container.module_spec(t) == old(
                    self,
                ).container.module_spec(t),
            r is Ok ==> final(self).container.module_spec(parent_token@).providers_seq() == old(
                self,
            ).container.module_spec(parent_token@).providers_seq() && final(self).container.module_spec(parent_token@).exported_seq() == old(
                self,
            ).container.module_spec(parent_token@).exported_seq() && final(self).container.module_spec(parent_token@).spec_distance() == old(
                self,
            ).container.module_spec(parent_token@).spec_distance() && final(self).container.module_spec(parent_token@).spec_token() == parent_token@,
            r is Ok ==> forall|t: Seq<char>|
                #[trigger] final(self).container.module_spec(parent_token@).has_related_spec(t)
                    <==> (old(self).container.module_spec(parent_token@).has_related_spec(t) || t
                    == child_token@),
            final(self).container.globals_seq() == old(self).container.globals_seq(),
            forall|t: Seq<char>| old(self).has_builder(t) ==> #[trigger] final(self).has_builder(t),
    {
        if !self.is_module_exists(parent_token) {
            return Err(DiError::ModuleNotFound { token: parent_token.clone() });
        }
        let parent_idx = match self.container.find_module(parent_token) {
            Some(mi) => mi,
            None => {
                proof {
                    let i = choose|i: int|
                        0 <= i < self.modules@.len() && (#[trigger] self.modules@[i]).spec_token()
                            == parent_token@;
                    assert(self.container.has_module_spec(self.modules@[i].spec_token()));
                    assert(false);
                }
                return Err(DiError::ModuleNotFound { token: parent_token.clone() });
            },
        };
        proof {
            self.container.lemma_module_at_token(parent_idx as int);
        }
        let parent_distance = self.container.module_at(parent_idx).get_distance();
        let ghost s0 = *self;
        let fresh = !self.is_module_exists(child_token);
        self.register_module(child_token.clone());
        let ghost s1 = *self;
        if fresh {
            let child_distance = if parent_distance < u32::MAX {
                parent_distance + 1
            } else {
                parent_distance
            };
            self.set_distance(child_token, child_distance);
        }
        let ghost s2 = *self;
        proof {
            assert(self.container.has_module_spec(parent_token@));
            assert forall|t: Seq<char>, pt: Seq<char>|
                s0.container.has_module_spec(t) && #[trigger] s0.container.module_spec(
                    t,
                ).has_provider_spec(pt) implies self.container.has_module_spec(t)
                && #[trigger] self.container.module_spec(t).has_provider_spec(pt) by {
                assert(s1.container.has_module_spec(t));
                if t == child_token@ {
                    if fresh {
                        assert(s1.container.module_spec(t).providers_seq().len() == 0);
                        assert(s0.has_builder(child_token@) == false);
                        assert(false);
                    } else {
                        assert(s1.container.module_spec(t) == s0.container.module_spec(t));
                    }
                } else {
                    assert(s1.container.module_spec(t) == s0.container.module_spec(t));
                }
                assert(s1.container.module_spec(t).has_provider_spec(pt));
                if t == child_token@ && fresh {
                    assert(false);
                } else {
                    if fresh {
                        if t == child_token@ {
                            assert(false);
                        } else {
                            assert(s2.container.module_spec(t) == s1.container.module_spec(t));
                        }
                    } else {
                        assert(s2 == s1);
                    }
                }
                assert(s2.container.module_spec(t).has_provider_spec(pt));
            }
        }
        let mi = match self.container.find_module(parent_token) {
            Some(mi) => mi,
            None => {
                proof {
                    assert(false);
                }
                return Err(DiError::ModuleNotFound { token: parent_token.clone() });
            },
        };
        proof {
            self.container.lemma_module_at_token(mi as int);
        }
        let ghost s3 = *self;
        let m = self.container.module_at_mut(mi);
        m.register_related_module(child_token.clone());
        proof {
            assert(self.container.modules_seq()[mi as int].wf()) by {
                let m1 = s3.container.modules_seq()[mi as int];
                let m2 = self.container.modules_seq()[mi as int];
                assert(m2.providers_seq() == m1.providers_seq());
                assert(m2.exported_seq() == m1.exported_seq());
                assert forall|t: Seq<char>| #[trigger]
                    m2.is_exported_spec(t) implies m2.has_provider_spec(t) by {
                    assert(m1.is_exported_spec(t));
                    assert(m1.has_provider_spec(t));
                }
            }
            Container::lemma_wf_after_module_update(s3.container, self.container, mi as int);
            assert forall|pt: Seq<char>|
                #[trigger] self.container.modules_seq()[mi as int].has_provider_spec(pt)
                == s3.container.modules_seq()[mi as int].has_provider_spec(pt) by {}
            lemma_staging_module_update(s3.container, self.container, self.modules@, mi as int);
            assert(self.container.module_spec(parent_token@).has_related_spec(child_token@));
            assert forall|t: Seq<char>, pt: Seq<char>|
                s0.container.has_module_spec(t) && #[trigger] s0.container.module_spec(
                    t,
                ).has_provider_spec(pt) implies self.container.has_module_spec(t)
                && #[trigger] self.container.module_spec(t).has_provider_spec(pt) by {
                assert(s3.container.has_module_spec(t) && s3.container.module_spec(
                    t,
                ).has_provider_spec(pt));
                if t == parent_token@ {
                    assert(self.container.modules_seq()[mi as int].has_provider_spec(pt));
                } else {
                    assert(self.container.module_spec(t) == s3.container.module_spec(t));
                }
            }
            // Frame for modules other than the parent and a fresh child.
            assert forall|t: Seq<char>|
                t != parent_token@ && t != child_token@ && s0.container.has_module_spec(t)
                implies #[trigger] self.container.module_spec(t) == s0.container.module_spec(
                t,
            ) by {
                assert(s1.container.module_spec(t) == s0.container.module_spec(t));
                assert(s2.container.module_spec(t) == s1.container.module_spec(t));
                assert(s2.container.has_module_spec(t));
                assert(self.container.module_spec(t) == s3.container.module_spec(t));
            }
            if s0.has_builder(child_token@) {
                assert(s1 == s0);
                assert(s2 == s1);
                assert forall|t: Seq<char>|
                    t != parent_token@ && s0.container.has_module_spec(t)
                    implies #[trigger] self.container.module_spec(t) == s0.container.module_spec(
                    t,
                ) by {
                    assert(self.container.module_spec(t) == s3.container.module_spec(t));
                }
            }
            // A fresh child carries the parent's distance plus one.
            if fresh {
                assert(child_token@ != parent_token@);
                assert(s2.container.module_spec(child_token@).spec_distance() == (
                if s0.container.module_spec(parent_token@).spec_distance() < u32::MAX {
                    (s0.container.module_spec(parent_token@).spec_distance() + 1) as u32
                } else {
                    u32::MAX
                }));
                assert(s2.container.module_spec(child_token@).providers_seq().len() == 0);
                assert(self.container.module_spec(child_token@) == s3.container.module_spec(
                    child_token@,
                ));
            }
            // The parent keeps its providers, exports and distance; only
            // its import list gains the child.
            assert(s2.container.module_spec(parent_token@) == s0.container.module_spec(
                parent_token@,
            )) by {
                if fresh {
                    assert(child_token@ != parent_token@);
                    assert(s1.container.module_spec(parent_token@) == s0.container.module_spec(
                        parent_token@,
                    ));
                } else {
                    assert(s2 == s0);
                }
            }
            assert(self.container.module_spec(parent_token@)
                == self.container.modules_seq()[mi as int]);
            assert(s3.container.modules_seq()[mi as int] == s3.container.module_spec(
                parent_token@,
            ));
            assert forall|t: Seq<char>|
                #[trigger] self.container.module_spec(parent_token@).has_related_spec(t) <==> (
            s0.container.module_spec(parent_token@).has_related_spec(t) || t == child_token@) by {
                assert(s3.container.module_spec(parent_token@).has_related_spec(t)
                    == s0.container.module_spec(parent_token@).has_related_spec(t));
            }
            assert forall|t: Seq<char>| s0.has_builder(t) implies #[trigger] self.has_builder(
                t,
            ) by {
                assert(s1.has_builder(t));
                assert(s2.has_builder(t) == s1.has_builder(t));
                assert(self.has_builder(t) == s2.has_builder(t));
            }
        }
        Ok(())
    }

    /// Declare a provider in a module: a fresh instance wrapper in the
    /// graph and a staged builder recording its factory. Declaring the
    /// same provider token twice in one module is a configuration error.
    pub fn register_provider(&mut self, module_token: &String, token: String, factory: TypeKey)
        -> (r: Result<(), DiError>)
        requires
            old(self).wf(),
            old(self).next_id < u64::MAX,
        ensures
            final(self).wf(),
            r is Ok <==> old(self).has_builder(module_token@) && !old(self).has_builder_for(
                module_token@,
                token@,
            ),
            r is Err ==> final(self).container.modules_seq() == old(self).container.modules_seq()
                && final(self).modules@ == old(self).modules@ && final(self).store == old(
                self,
            ).store && final(self).next_id == old(self).next_id,
            r is Ok ==> final(self).container.has_module_spec(module_token@) && final(self).container.module_spec(module_token@).has_provider_spec(token@),
            r is Ok ==> final(self).container.module_spec(module_token@).provider_spec(
                token@,
            ).spec_id() == old(self).next_id && final(self).container.module_spec(
                module_token@,
            ).provider_spec(token@).spec_token() == token@ && final(self).container.module_spec(
                module_token@,
            ).provider_spec(token@).spec_host() == module_token@ && final(self).container.module_spec(module_token@).provider_spec(token@).spec_scope()
                == Scope::Singleton && final(self).container.module_spec(
                module_token@,
            ).provider_spec(token@).cells_seq().len() == 0,
            r is Ok ==> final(self).has_builder_for(module_token@, token@) && final(self).pb_for(
                module_token@,
                token@,
            ).spec_factory() == factory && final(self).pb_for(module_token@, token@).deps_seq()
                =~= Seq::<Seq<char>>::empty(),
            r is Ok ==> forall|pt: Seq<char>|
                #[trigger] final(self).container.module_spec(module_token@).has_provider_spec(pt)
                    <==> (old(self).container.module_spec(module_token@).has_provider_spec(pt)
                    || pt == token@),
            forall|t: Seq<char>| #[trigger] final(self).has_builder(t) == old(self).has_builder(t),
            r is Ok ==> final(self).next_id == old(self).next_id + 1 && final(self).store == old(
                self,
            ).store,
            forall|t: Seq<char>|
                #[trigger] final(self).container.has_module_spec(t) == old(
                    self,
                ).container.has_module_spec(t),
            forall|t: Seq<char>|
                t != module_token@ && old(self).container.has_module_spec(t)
                    ==> #[trigger] final(self).container.module_spec(t) == old(
                    self,
                ).container.module_spec(t),
            forall|pt: Seq<char>|
                pt != token@ && old(self).container.has_module_spec(module_token@) && old(
                    self,
                ).container.module_spec(module_token@).has_provider_spec(pt)
                    ==> #[trigger] final(self).container.module_spec(module_token@).provider_spec(
                    pt,
                ) == old(self).container.module_spec(module_token@).provider_spec(pt),
            final(self).container.globals_seq() == old(self).container.globals_seq(),
            final(self).vtable == old(self).vtable,
    {
        let bi = match self.find_builder(module_token) {
            Some(bi) => bi,
            None => {
                proof {
                    self.lemma_no_builder_no_pb(module_token@, token@);
                }
                return Err(DiError::ModuleNotFound { token: module_token.clone() });
            },
        };
        proof {
            if old(self).has_builder_for(module_token@, token@) {
                let i = choose|i: int|
                    0 <= i < self.modules@.len() && (#[trigger] self.modules@[i]).spec_token()
                        == module_token@ && self.modules@[i].has_pb(token@);
                if i != bi as int {
                    assert(false);
                }
            }
        }
        if self.modules[bi].find_pb(&token).is_some() {
            return Err(DiError::DuplicateProvider { token, module: module_token.clone() });
        }
        proof {
            if old(self).has_builder_for(module_token@, token@) {
                assert(false);
            }
        }
        let mi = match self.container.find_module(module_token) {
            Some(mi) => mi,
            None => {
                proof {
                    assert(self.container.has_module_spec(self.modules@[bi as int].spec_token()));
                    assert(false);
                }
                return Err(DiError::ModuleNotFound { token: module_token.clone() });
            },
        };
        proof {
            self.container.lemma_module_at_token(mi as int);
        }
        let id = self.next_id;
        self.next_id = id + 1;
        let wrapper = InstanceWrapper::new(id, token.clone(), module_token.clone());
        let ghost w = wrapper;
        let ghost pre = *old(self);
        let m = self.container.module_at_mut(mi);
        m.register_provider(wrapper);
        proof {
            Container::lemma_wf_after_module_update(pre.container, self.container, mi as int);
        }
        let pb = ProviderBuilder { token, host: module_token.clone(), factory, deps: Vec::new() };
        let ghost pbg = pb;
        let mb = &mut self.modules[bi];
        mb.push_pb(pb);
        proof {
            assert(pbg.deps_seq() =~= Seq::<Seq<char>>::empty());
            let bs0 = pre.modules@;
            let bs = self.modules@;
            let c = self.container;
            let mt = module_token@;
            let tk = pbg.spec_token();
            assert(c.module_spec(mt) == c.modules_seq()[mi as int]);
            assert(c.module_spec(mt).provider_spec(tk) == w);
            assert forall|t: Seq<char>| #[trigger]
                has_builder_in(bs, t) == has_builder_in(bs0, t) by {
                if has_builder_in(bs0, t) {
                    let i = choose|i: int| 0 <= i < bs0.len() && (#[trigger] bs0[i]).spec_token() == t;
                    assert(bs[i].spec_token() == t);
                }
                if has_builder_in(bs, t) {
                    let i = choose|i: int| 0 <= i < bs.len() && (#[trigger] bs[i]).spec_token() == t;
                    assert(bs0[i].spec_token() == t);
                }
            }
            assert(staging_matches(c, bs)) by {
                assert forall|i: int, j: int|
                    0 <= i < j < bs.len() implies (#[trigger] bs[i]).spec_token() != (
                #[trigger] bs[j]).spec_token() by {
                    assert(bs[i].spec_token() == bs0[i].spec_token());
                    assert(bs[j].spec_token() == bs0[j].spec_token());
                }
                assert forall|i: int| 0 <= i < bs.len() implies (#[trigger] bs[i]).wf() by {
                    if i != bi as int {
                        assert(bs[i] == bs0[i]);
                    }
                }
                assert forall|i: int|
                    0 <= i < bs.len() implies c.has_module_spec((#[trigger] bs[i]).spec_token()) by {
                    assert(bs[i].spec_token() == bs0[i].spec_token());
                    assert(pre.container.has_module_spec(bs0[i].spec_token()));
                }
                assert forall|i: int, p: int|
                    0 <= i < bs.len() && 0 <= p < bs[i].providers_seq().len() implies c.module_spec(
                    bs[i].spec_token(),
                ).has_provider_spec((#[trigger] bs[i].providers_seq()[p]).spec_token()) by {
                    if i != bi as int {
                        assert(bs[i] == bs0[i]);
                        let t2 = bs0[i].spec_token();
                        assert(pre.container.module_spec(t2).has_provider_spec(
                            bs0[i].providers_seq()[p].spec_token(),
                        ));
                        if t2 == mt {
                            assert(bs0[bi as int].spec_token() == mt);
                            assert(false);
                        }
                        assert(c.module_spec(t2) == pre.container.module_spec(t2));
                    } else {
                        let n = bs0[bi as int].providers_seq().len() as int;
                        if p < n {
                            assert(bs[bi as int].providers_seq()[p] == bs0[
                                bi as int
                            ].providers_seq()[p]);
                            assert(pre.container.module_spec(mt).has_provider_spec(
                                bs0[bi as int].providers_seq()[p].spec_token(),
                            ));
                            assert(c.module_spec(mt).has_provider_spec(
                                bs0[bi as int].providers_seq()[p].spec_token(),
                            ));
                        } else {
                            assert(bs[bi as int].providers_seq()[p] == pbg);
                            assert(c.module_spec(mt).has_provider_spec(tk));
                        }
                    }
                }
                assert forall|i: int, p: int|
                    0 <= i < c.modules_seq().len() && 0 <= p
                        < c.modules_seq()[i].providers_seq().len() implies has_builder_for_in(
                    bs,
                    c.modules_seq()[i].spec_token(),
                    (#[trigger] c.modules_seq()[i].providers_seq()[p]).spec_token(),
                ) by {
                    let t2 = c.modules_seq()[i].spec_token();
                    let pt = c.modules_seq()[i].providers_seq()[p].spec_token();
                    if i != mi as int {
                        assert(c.modules_seq()[i] == pre.container.modules_seq()[i]);
                        assert(has_builder_for_in(bs0, t2, pt));
                        let bj = choose|bj: int|
                            0 <= bj < bs0.len() && (#[trigger] bs0[bj]).spec_token() == t2
                                && bs0[bj].has_pb(pt);
                        if bj == bi as int {
                            assert(bs[bj].spec_token() == t2 && bs[bj].has_pb(pt));
                        } else {
                            assert(bs[bj] == bs0[bj]);
                        }
                        assert(has_builder_for_in(bs, t2, pt));
                    } else {
                        assert(t2 == mt);
                        c.lemma_module_at_token(mi as int);
                        assert(c.modules_seq()[mi as int].has_provider_spec(pt));
                        if pt == tk {
                            assert(bs[bi as int].spec_token() == mt && bs[bi as int].has_pb(tk));
                        } else {
                            assert(pre.container.modules_seq()[mi as int].has_provider_spec(pt));
                            pre.container.lemma_module_at_token(mi as int);
                            assert(has_builder_for_in(bs0, mt, pt));
                            let bj = choose|bj: int|
                                0 <= bj < bs0.len() && (#[trigger] bs0[bj]).spec_token() == mt
                                    && bs0[bj].has_pb(pt);
                            if bj == bi as int {
                                assert(bs[bj].spec_token() == mt && bs[bj].has_pb(pt));
                            } else {
                                assert(bs[bj] == bs0[bj]);
                            }
                        }
                    }
                }
            }
            let bj = builder_index_in(bs, mt);
            assert(has_builder_in(bs, mt)) by {
                assert(bs[bi as int].spec_token() == mt);
            }
            assert(0 <= bj < bs.len() && bs[bj].spec_token() == mt);
            if bj != bi as int {
                assert(bs0[bj].spec_token() == mt);
                assert(bs0[bi as int].spec_token() == mt);
                assert(false);
            }
            assert(pb_in(bs, mt, tk) == pbg);
        }
        Ok(())
    }

    /// Set the scope policy of a declared provider.
    pub fn set_scope(&mut self, module_token: &String, provider_token: &String, scope: Scope) -> (r:
        Result<(), DiError>)
        requires
            old(self).wf(),
        ensures
            final(self).wf(),
            r is Ok <==> old(self).container.has_module_spec(module_token@) && old(
                self,
            ).container.module_spec(module_token@).has_provider_spec(provider_token@),
            r is Err ==> final(self).container.modules_seq() == old(self).container.modules_seq(),
            r is Ok ==> final(self).container.module_spec(module_token@).provider_spec(
                provider_token@,
            ).spec_scope() == scope,
            r is Ok ==> final(self).container.module_spec(module_token@).provider_spec(
                provider_token@,
            ).spec_id() == old(self).container.module_spec(module_token@).provider_spec(
                provider_token@,
            ).spec_id() && final(self).container.module_spec(module_token@).provider_spec(
                provider_token@,
            ).cells_seq() == old(self).container.module_spec(module_token@).provider_spec(
                provider_token@,
            ).cells_seq(),
            forall|t: Seq<char>|
                #[trigger] final(self).container.has_module_spec(t) == old(
                    self,
                ).container.has_module_spec(t),
            forall|t: Seq<char>|
                t != module_token@ && old(self).container.has_module_spec(t)
                    ==> #[trigger] final(self).container.module_spec(t) == old(
                    self,
                ).container.module_spec(t),
            r is Ok ==> forall|pt: Seq<char>|
                pt != provider_token@ && old(self).container.module_spec(
                    module_token@,
                ).has_provider_spec(pt) ==> #[trigger] final(self).container.module_spec(
                    module_token@,
                ).provider_spec(pt) == old(self).container.module_spec(module_token@).provider_spec(
                    pt,
                ),
            r is Ok ==> forall|pt: Seq<char>|
                #[trigger] final(self).container.module_spec(module_token@).has_provider_spec(pt)
                    == old(self).container.module_spec(module_token@).has_provider_spec(pt),
            final(self).modules@ == old(self).modules@,
            final(self).store == old(self).store,
            final(self).vtable == old(self).vtable,
            final(self).next_id == old(self).next_id,
            final(self).container.globals_seq() == old(self).container.globals_seq(),
    {
        let ghost pre = *self;
        let mi = match self.container.find_module(module_token) {
            Some(mi) => mi,
            None => {
                return Err(DiError::ModuleNotFound { token: module_token.clone() });
            },
        };
        proof {
            self.container.lemma_module_at_token(mi as int);
        }
        let m = self.container.module_at_mut(mi);
        let pi = match m.find_provider_index(provider_token) {
            Some(pi) => pi,
            None => {
                proof {
                    assert(self.container.modules_seq() =~= pre.container.modules_seq());
                    Container::lemma_wf_after_module_update(
                        pre.container,
                        self.container,
                        mi as int,
                    );
                    lemma_staging_module_update(
                        pre.container,
                        self.container,
                        self.modules@,
                        mi as int,
                    );
                }
                return Err(
                    DiError::ProviderNotFound {
                        token: provider_token.clone(),
                        module: module_token.clone(),
                    },
                );
            },
        };
        let w = m.provider_at_mut(pi);
        w.set_scope(scope);
        proof {
            let m1 = pre.container.modules_seq()[mi as int];
            let m2 = self.container.modules_seq()[mi as int];
            Module::lemma_wf_after_provider_update(m1, m2, pi as int);
            Container::lemma_wf_after_module_update(pre.container, self.container, mi as int);
            lemma_staging_module_update(pre.container, self.container, self.modules@, mi as int);
            let j = m1.provider_index_spec(provider_token@);
            if j != pi as int {
                assert(false);
            }
        }
        Ok(())
    }

    /// Record a dependency edge of a declared provider: a deferred
    /// assignment of the dependency's instance, performed in the link
    /// phase under the dependency's token.
    pub fn register_dependency(
        &mut self,
        module_token: &String,
        provider_token: &String,
        dep_token: String,
    ) -> (r: Result<(), DiError>)
        requires
            old(self).wf(),
        ensures
            final(self).wf(),
            r is Ok <==> old(self).has_builder_for(module_token@, provider_token@),
            r is Err ==> final(self).modules@ == old(self).modules@,
            r is Ok ==> final(self).has_builder_for(module_token@, provider_token@) && final(self).pb_for(module_token@, provider_token@).has_dep(dep_token@),
            r is Ok ==> forall|t: Seq<char>|
                #[trigger] final(self).pb_for(module_token@, provider_token@).has_dep(t) <==> (old(
                    self,
                ).pb_for(module_token@, provider_token@).has_dep(t) || t == dep_token@),
            r is Ok ==> final(self).pb_for(module_token@, provider_token@).spec_factory() == old(
                self,
            ).pb_for(module_token@, provider_token@).spec_factory(),
            final(self).container == old(self).container,
            final(self).store == old(self).store,
            final(self).vtable == old(self).vtable,
            final(self).next_id == old(self).next_id,
            forall|t: Seq<char>| #[trigger] final(self).has_builder(t) == old(self).has_builder(t),
            forall|mt: Seq<char>, pt: Seq<char>|
                #[trigger] final(self).has_builder_for(mt, pt) == old(self).has_builder_for(
                    mt,
                    pt,
                ),
            forall|mt: Seq<char>, pt: Seq<char>|
                !(mt == module_token@ && pt == provider_token@) && old(self).has_builder_for(
                    mt,
                    pt,
                ) ==> #[trigger] final(self).pb_for(mt, pt) == old(self).pb_for(mt, pt),
    {
        let ghost pre = *self;
        let bi = match self.find_builder(module_token) {
            Some(bi) => bi,
            None => {
                proof {
                    self.lemma_no_builder_no_pb(module_token@, provider_token@);
                }
                return Err(DiError::ModuleNotFound { token: module_token.clone() });
            },
        };
        let mb = &mut self.modules[bi];
        let ok = mb.register_dep(provider_token, dep_token);
        proof {
            let bs0 = pre.modules@;
            let bs = self.modules@;
            assert forall|t: Seq<char>| #[trigger]
                has_builder_in(bs, t) == has_builder_in(bs0, t) by {
                if has_builder_in(bs0, t) {
                    let i = choose|i: int| 0 <= i < bs0.len() && (#[trigger] bs0[i]).spec_token() == t;
                    assert(bs[i].spec_token() == t);
                }
                if has_builder_in(bs, t) {
                    let i = choose|i: int| 0 <= i < bs.len() && (#[trigger] bs[i]).spec_token() == t;
                    assert(bs0[i].spec_token() == t);
                }
            }
            assert forall|mt: Seq<char>, pt: Seq<char>|
                #[trigger] has_builder_for_in(bs, mt, pt) == has_builder_for_in(bs0, mt, pt) by {
                if has_builder_for_in(bs0, mt, pt) {
                    let i = choose|i: int|
                        0 <= i < bs0.len() && (#[trigger] bs0[i]).spec_token() == mt
                            && bs0[i].has_pb(pt);
                    assert(bs[i].spec_token() == mt && bs[i].has_pb(pt));
                }
                if has_builder_for_in(bs, mt, pt) {
                    let i = choose|i: int|
                        0 <= i < bs.len() && (#[trigger] bs[i]).spec_token() == mt && bs[i].has_pb(
                            pt,
                        );
                    assert(bs0[i].spec_token() == mt && bs0[i].has_pb(pt));
                }
            }
            assert forall|i: int, j: int|
                0 <= i < j < bs.len() implies (#[trigger] bs[i]).spec_token() != (
            #[trigger] bs[j]).spec_token() by {
                assert(bs[i].spec_token() == bs0[i].spec_token());
                assert(bs[j].spec_token() == bs0[j].spec_token());
            }
            assert forall|i: int| 0 <= i < bs.len() implies (#[trigger] bs[i]).wf() by {
                if i != bi as int {
                    assert(bs[i] == bs0[i]);
                }
            }
            assert forall|i: int|
                0 <= i < bs.len() implies self.container.has_module_spec(
                (#[trigger] bs[i]).spec_token(),
            ) by {
                assert(bs[i].spec_token() == bs0[i].spec_token());
                assert(pre.container.has_module_spec(bs0[i].spec_token()));
            }
            assert forall|i: int, p: int|
                0 <= i < bs.len() && 0 <= p
                    < bs[i].providers_seq().len() implies self.container.module_spec(
                bs[i].spec_token(),
            ).has_provider_spec((#[trigger] bs[i].providers_seq()[p]).spec_token()) by {
                if i != bi as int {
                    assert(bs[i] == bs0[i]);
                    assert(pre.container.module_spec(bs0[i].spec_token()).has_provider_spec(
                        bs0[i].providers_seq()[p].spec_token(),
                    ));
                } else {
                    assert(bs[i].spec_token() == bs0[i].spec_token());
                    let pt = bs[i].providers_seq()[p].spec_token();
                    assert(bs0[bi as int].has_pb(pt)) by {
                        assert(bs[i].has_pb(pt));
                    }
                    let q = bs0[bi as int].pb_index_spec(pt);
                    assert(0 <= q < bs0[bi as int].providers_seq().len() && bs0[
                        bi as int
                    ].providers_seq()[q].spec_token() == pt);
                    assert(pre.container.module_spec(bs0[bi as int].spec_token()).has_provider_spec(
                        bs0[bi as int].providers_seq()[q].spec_token(),
                    ));
                }
            }
            assert forall|i: int, p: int|
                0 <= i < self.container.modules_seq().len() && 0 <= p
                    < self.container.modules_seq()[i].providers_seq().len() implies has_builder_for_in(
                bs,
                self.container.modules_seq()[i].spec_token(),
                (#[trigger] self.container.modules_seq()[i].providers_seq()[p]).spec_token(),
            ) by {
                assert(has_builder_for_in(
                    bs0,
                    self.container.modules_seq()[i].spec_token(),
                    self.container.modules_seq()[i].providers_seq()[p].spec_token(),
                ));
            }
            if !ok {
                assert(!pre.has_builder_for(module_token@, provider_token@)) by {
                    if pre.has_builder_for(module_token@, provider_token@) {
                        let i = choose|i: int|
                            0 <= i < bs0.len() && (#[trigger] bs0[i]).spec_token() == module_token@
                                && bs0[i].has_pb(provider_token@);
                        if i != bi as int {
                            assert(false);
                        }
                    }
                }
                assert(bs =~= bs0);
            } else {
                assert(pre.has_builder_for(module_token@, provider_token@)) by {
                    assert(bs0[bi as int].spec_token() == module_token@ && bs0[bi as int].has_pb(
                        provider_token@,
                    ));
                }
                let bj = builder_index_in(bs, module_token@);
                assert(has_builder_in(bs, module_token@)) by {
                    assert(bs[bi as int].spec_token() == module_token@);
                }
                assert(0 <= bj < bs.len() && bs[bj].spec_token() == module_token@);
                if bj != bi as int {
                    assert(bs0[bj].spec_token() == module_token@);
                    assert(false);
                }
                let bj0 = builder_index_in(bs0, module_token@);
                assert(has_builder_in(bs0, module_token@)) by {
                    assert(bs0[bi as int].spec_token() == module_token@);
                }
                assert(0 <= bj0 < bs0.len() && bs0[bj0].spec_token() == module_token@);
                if bj0 != bi as int {
                    assert(false);
                }
                assert forall|mt: Seq<char>, pt: Seq<char>|
                    !(mt == module_token@ && pt == provider_token@) && pre.has_builder_for(mt, pt)
                    implies #[trigger] pb_in(bs, mt, pt) == pb_in(bs0, mt, pt) by {
                    let i = choose|i: int|
                        0 <= i < bs0.len() && (#[trigger] bs0[i]).spec_token() == mt
                            && bs0[i].has_pb(pt);
                    let j1 = builder_index_in(bs, mt);
                    assert(has_builder_in(bs, mt)) by {
                        assert(bs[i].spec_token() == mt);
                    }
                    assert(0 <= j1 < bs.len() && bs[j1].spec_token() == mt);
                    let j0 = builder_index_in(bs0, mt);
                    assert(has_builder_in(bs0, mt)) by {
                        assert(bs0[i].spec_token() == mt);
                    }
                    assert(0 <= j0 < bs0.len() && bs0[j0].spec_token() == mt);
                    if j1 != j0 {
                        assert(bs0[j1].spec_token() == mt);
                        assert(false);
                    }
                    if j0 != bi as int {
                        assert(bs[j1] == bs0[j0]);
                    } else {
                        assert(mt == module_token@);
                        assert(pt != provider_token@);
                        if j0 != i {
                            assert(false);
                        }
                        assert(bs0[bi as int].has_pb(pt));
                        assert(bs[bi as int].pb_spec(pt) == bs0[bi as int].pb_spec(pt));
                    }
                }
            }
        }
        if ok {
            Ok(())
        } else {
            Err(
                DiError::ProviderNotFound {
                    token: provider_token.clone(),
                    module: module_token.clone(),
                },
            )
        }
    }

    /// Init phase: ensure the provider resolved for `token`, as seen from
    /// the inquiring provider `inquirer` of module `host`, has an instance
    /// in its scope-appropriate cell, creating one — with a fresh identity
    /// and all dependency slots unassigned — only when the cell is empty.
    pub fn register_instance_by_token(&mut self, host: &String, inquirer: &String, token: &String)
        -> (r: Result<(), DiError>)
        requires
            old(self).wf(),
            old(self).next_id < u64::MAX,
        ensures
            final(self).wf(),
            Container::same_shape(old(self).container, final(self).container),
            Container::cells_monotone(old(self).container, final(self).container),
            final(self).modules@ == old(self).modules@,
            final(self).next_id >= old(self).next_id,
            final(self).next_id <= old(self).next_id + 1,
            forall|id: u64, t: Seq<char>|
                #[trigger] final(self).store.slot_initialized(id, t) == old(
                    self,
                ).store.slot_initialized(id, t),
            r is Err ==> *final(self) == *old(self),
            r is Ok && old(self).container.found_in_own(host@, token@) ==> final(self).container.has_module_spec(host@) && final(self).container.module_spec(
                host@,
            ).has_provider_spec(token@) && final(self).container.module_spec(host@).provider_spec(
                token@,
            ).has_cell(
                final(self).container.module_spec(host@).provider_spec(token@).cell_key_inq(
                    old(self).container.module_spec(host@).provider_spec(inquirer@).spec_id(),
                ),
                STATIC_CONTEXT,
            ),
            r is Ok ==> exists|mi: int, pi: int|
                old(self).container.lookup_consistent(host@, token@, mi, pi)
                    && #[trigger] register_instance_effect(
                    *old(self),
                    *final(self),
                    mi,
                    pi,
                    old(self).container.module_spec(host@).provider_spec(inquirer@).spec_id(),
                ),
            r is Err ==> !(old(self).container.has_module_spec(host@) && old(
                self,
            ).container.module_spec(host@).has_provider_spec(inquirer@)) || !old(
                self,
            ).container.provider_reachable(host@, token@) || (exists|mi: int, pi: int|
                #[trigger] old(self).container.lookup_consistent(host@, token@, mi, pi) && old(
                    self,
                ).container.modules_seq()[mi].providers_seq()[pi].spec_scope()
                    == Scope::ContextDependent),
            r matches Err(e) ==> (match e {
                DiError::ModuleNotFound { token: t } => t@ == host@,
                DiError::ProviderNotFound { token: t, module: m } => (t@ == inquirer@ || t@
                    == token@) && m@ == host@,
                DiError::InvalidScope { token: t } => t@ == token@,
                _ => false,
            }),
    {
        let mih = match self.container.find_module(host) {
            Some(x) => x,
            None => {
                return Err(DiError::ModuleNotFound { token: host.clone() });
            },
        };
        proof {
            self.container.lemma_module_at_token(mih as int);
        }
        let pih = match self.container.module_at(mih).find_provider_index(inquirer) {
            Some(x) => x,
            None => {
                return Err(
                    DiError::ProviderNotFound { token: inquirer.clone(), module: host.clone() },
                );
            },
        };
        let inquirer_id = self.container.module_at(mih).provider_at(pih).get_id();
        proof {
            self.container.modules_seq()[mih as int].lemma_provider_at_token(pih as int);
            assert(self.container.module_spec(host@).provider_spec(inquirer@).spec_id()
                == inquirer_id);
        }
        let loc = match self.container.get_provider_in_module(token, host) {
            Some(l) => l,
            None => {
                return Err(
                    DiError::ProviderNotFound { token: token.clone(), module: host.clone() },
                );
            },
        };
        let mt = self.container.module_at(loc.module_index).get_token();
        proof {
            self.container.lemma_module_at_token(loc.module_index as int);
            assert(has_builder_for_in(self.modules@, mt@, token@));
        }
        let bi = match self.find_builder(&mt) {
            Some(b) => b,
            None => {
                proof {
                    let i = choose|i: int|
                        0 <= i < self.modules@.len() && (#[trigger] self.modules@[i]).spec_token()
                            == mt@ && self.modules@[i].has_pb(token@);
                    assert(has_builder_in(self.modules@, mt@));
                    assert(false);
                }
                return Err(DiError::ProviderNotFound { token: token.clone(), module: mt });
            },
        };
        let pbi = match self.modules[bi].find_pb(token) {
            Some(p) => p,
            None => {
                proof {
                    let i = choose|i: int|
                        0 <= i < self.modules@.len() && (#[trigger] self.modules@[i]).spec_token()
                            == mt@ && self.modules@[i].has_pb(token@);
                    if i != bi as int {
                        assert(false);
                    }
                    assert(false);
                }
                return Err(DiError::ProviderNotFound { token: token.clone(), module: mt });
            },
        };
        let factory = self.modules[bi].providers[pbi].get_factory();
        proof {
            // The staged builder found is the one `pb_in` denotes.
            let bs = self.modules@;
            let bj = builder_index_in(bs, mt@);
            assert(has_builder_in(bs, mt@)) by {
                assert(bs[bi as int].spec_token() == mt@);
            }
            assert(0 <= bj < bs.len() && bs[bj].spec_token() == mt@);
            if bj != bi as int {
                assert(false);
            }
            let q = bs[bi as int].pb_index_spec(token@);
            assert(bs[bi as int].has_pb(token@)) by {
                assert(bs[bi as int].providers_seq()[pbi as int].spec_token() == token@);
            }
            assert(0 <= q < bs[bi as int].providers_seq().len() && bs[bi as int].providers_seq()[q].spec_token()
                == token@);
            if q != pbi as int {
                assert(false);
            }
            assert(pb_in(bs, mt@, token@) == bs[bi as int].providers_seq()[pbi as int]);
        }
        let scope = self.container.module_at(loc.module_index).provider_at(
            loc.provider_index,
        ).get_scope();
        let key = match scope {
            Scope::ContextDependent => {
                return Err(DiError::InvalidScope { token: token.clone() });
            },
            Scope::Transient => inquirer_id,
            Scope::Singleton => {
                self.container.module_at(loc.module_index).provider_at(loc.provider_index).get_id()
            },
        };
        let has = self.container.module_at(loc.module_index).provider_at(
            loc.provider_index,
        ).has_instance_by_inquirer_id(key, STATIC_CONTEXT);
        if has {
            proof {
                let mi = loc.module_index as int;
                let pi = loc.provider_index as int;
                assert(register_instance_effect(*self, *self, mi, pi, inquirer_id));
                if self.container.found_in_own(host@, token@) {
                    assert(self.container.modules_seq()[mi].spec_token() == host@);
                    self.container.lemma_module_at_token(mi);
                    self.container.modules_seq()[mi].lemma_provider_at_token(pi);
                }
            }
            return Ok(());
        }
        let id = self.next_id;
        proof {
            if self.store.has_record(id) {
                let k = choose|k: int|
                    0 <= k < self.store.records_seq().len()
                        && self.store.records_seq()[k].spec_id() == id;
                assert(self.store.records_seq()[k].spec_id() < self.next_id);
                assert(false);
            }
        }
        self.store.create_record(id, factory, &self.modules[bi].providers[pbi].deps);
        self.next_id = id + 1;
        let h = Handle::new(id, factory);
        let m = self.container.module_at_mut(loc.module_index);
        let w = m.provider_at_mut(loc.provider_index);
        w.set_instance_by_inquirer_id(key, STATIC_CONTEXT, h);
        proof {
            let mi = loc.module_index as int;
            let pi = loc.provider_index as int;
            let pre = *old(self);
            let m1 = pre.container.modules_seq()[mi];
            let m2 = self.container.modules_seq()[mi];
            Module::lemma_wf_after_provider_update(m1, m2, pi);
            Container::lemma_wf_after_module_update(pre.container, self.container, mi);
            lemma_staging_module_update(pre.container, self.container, self.modules@, mi);
            assert(self.store.ids_below(self.next_id)) by {
                assert(pre.store.ids_below(self.next_id)) by {
                    assert forall|k: int|
                        0 <= k < pre.store.records_seq().len() implies (
                    #[trigger] pre.store.records_seq()[k]).spec_id() < self.next_id by {
                        assert(pre.store.records_seq()[k].spec_id() < id);
                    }
                }
            }
            let w_pre = m1.providers_seq()[pi];
            let pb = pb_in(pre.modules@, mt@, w_pre.spec_token());
            assert(w_pre.spec_token() == token@);
            assert(pb.spec_factory() == factory);
            assert(Container::same_shape(pre.container, self.container)) by {
                assert forall|k: int, p: int|
                    0 <= k < pre.container.modules_seq().len() && 0 <= p
                        < pre.container.modules_seq()[k].providers_seq().len() implies (
                #[trigger] self.container.modules_seq()[k].providers_seq()[p]).same_identity(
                    pre.container.modules_seq()[k].providers_seq()[p],
                ) by {
                    if k != mi || p != pi {
                        if k != mi {
                            assert(self.container.modules_seq()[k]
                                == pre.container.modules_seq()[k]);
                        } else {
                            assert(self.container.modules_seq()[k].providers_seq()[p]
                                == pre.container.modules_seq()[k].providers_seq()[p]);
                        }
                    }
                }
            }
            assert(Container::cells_monotone(pre.container, self.container)) by {
                assert forall|k: int, p: int, i2: u64, c2: u64|
                    0 <= k < pre.container.modules_seq().len() && 0 <= p
                        < pre.container.modules_seq()[k].providers_seq().len() && (
                #[trigger] pre.container.modules_seq()[k].providers_seq()[p].has_cell(
                    i2,
                    c2,
                )) implies self.container.modules_seq()[k].providers_seq()[p].has_cell(
                    i2,
                    c2,
                ) by {
                    if k != mi {
                        assert(self.container.modules_seq()[k] == pre.container.modules_seq()[k]);
                    } else {
                        if p != pi {
                            assert(self.container.modules_seq()[k].providers_seq()[p]
                                == pre.container.modules_seq()[k].providers_seq()[p]);
                        }
                    }
                }
            }
            if pre.container.found_in_own(host@, token@) {
                assert(pre.container.modules_seq()[mi].spec_token() == host@);
                assert(self.container.modules_seq()[mi].spec_token() == host@);
                self.container.lemma_module_at_token(mi);
                self.container.modules_seq()[mi].lemma_provider_at_token(pi);
            }
            // Creation assigns no dependency slot: the fresh record's
            // slots are all unassigned and every other record is framed.
            assert forall|id2: u64, t: Seq<char>|
                #[trigger] self.store.slot_initialized(id2, t) == pre.store.slot_initialized(
                id2,
                t,
            ) by {
                if id2 == id {
                    if pre.store.has_record(id2) {
                        let k2 = choose|k2: int|
                            0 <= k2 < pre.store.records_seq().len()
                                && pre.store.records_seq()[k2].spec_id() == id2;
                        assert(pre.store.records_seq()[k2].spec_id() < id);
                        assert(false);
                    }
                    if self.store.record_spec(id2).has_slot(t) {
                        assert(!self.store.record_spec(id2).slot_spec(t).is_initialized());
                    }
                } else {
                    if pre.store.has_record(id2) {
                        assert(self.store.record_spec(id2) == pre.store.record_spec(id2));
                    }
                }
            }
            let dv = pre.modules@[bi as int].providers_seq()[pbi as int];
            assert(pb == dv);
            assert forall|t: Seq<char>|
                #[trigger] self.store.record_spec(id).has_slot(t) <==> pb.has_dep(t) by {
                if self.store.record_spec(id).has_slot(t) {
                    let i = choose|i: int| 0 <= i < dv.deps@.len() && dv.deps@[i]@ == t;
                    assert(dv.deps_seq()[i] == t);
                }
                if pb.has_dep(t) {
                    let i = choose|i: int| 0 <= i < dv.deps_seq().len() && dv.deps_seq()[i] == t;
                    assert(dv.deps@[i]@ == t);
                }
            }
            assert(register_instance_effect(pre, *self, mi, pi, inquirer_id));
        }
        Ok(())
    }

    /// Link phase: read the scope-appropriate instance of the provider
    /// resolved for `token` and assign it into the matching dependency
    /// slot of `self_instance`'s record. Every instance already exists
    /// when this runs, which is what makes mutual dependencies wirable.
    pub fn link_instance_by_token(
        &mut self,
        host: &String,
        inquirer: &String,
        token: &String,
        self_instance: Handle,
    ) -> (r: Result<(), DiError>)
        requires
            old(self).wf(),
        ensures
            final(self).wf(),
            final(self).container == old(self).container,
            final(self).modules@ == old(self).modules@,
            final(self).vtable == old(self).vtable,
            final(self).next_id == old(self).next_id,
            forall|i: u64|
                #[trigger] final(self).store.has_record(i) == old(self).store.has_record(i),
            r is Err ==> final(self).store.records_seq() == old(self).store.records_seq(),
            forall|id: u64, t2: Seq<char>|
                #[trigger] old(self).store.slot_initialized(id, t2) ==> final(self).store.slot_initialized(id, t2),
            forall|id: u64|
                id != self_instance.instance_id && old(self).store.has_record(id)
                    ==> #[trigger] final(self).store.record_spec(id) == old(self).store.record_spec(
                    id,
                ),
            forall|t2: Seq<char>|
                old(self).store.has_record(self_instance.instance_id) ==> (#[trigger] final(self).store.record_spec(self_instance.instance_id).has_slot(t2)) == old(
                    self,
                ).store.record_spec(self_instance.instance_id).has_slot(t2),
            r is Ok ==> final(self).store.slot_initialized(self_instance.instance_id, token@),
            r is Ok ==> exists|mi: int, pi: int|
                old(self).container.lookup_consistent(host@, token@, mi, pi)
                    && #[trigger] link_instance_effect(
                    *old(self),
                    *final(self),
                    mi,
                    pi,
                    old(self).container.module_spec(host@).provider_spec(inquirer@).spec_id(),
                    self_instance,
                    token@,
                ),
            r is Err ==> !(old(self).container.has_module_spec(host@) && old(
                self,
            ).container.module_spec(host@).has_provider_spec(inquirer@)) || !old(
                self,
            ).container.provider_reachable(host@, token@) || (exists|mi: int, pi: int|
                #[trigger] old(self).container.lookup_consistent(host@, token@, mi, pi) && (old(
                    self,
                ).container.modules_seq()[mi].providers_seq()[pi].spec_scope()
                    == Scope::ContextDependent || !old(
                    self,
                ).container.modules_seq()[mi].providers_seq()[pi].has_cell(
                    old(self).container.modules_seq()[mi].providers_seq()[pi].cell_key_inq(
                        old(self).container.module_spec(host@).provider_spec(inquirer@).spec_id(),
                    ),
                    STATIC_CONTEXT,
                ))) || !(old(self).store.has_record(self_instance.instance_id) && old(
                self,
            ).store.record_spec(self_instance.instance_id).has_slot(token@)),
            r matches Err(e) ==> (match e {
                DiError::ModuleNotFound { token: t } => t@ == host@,
                DiError::ProviderNotFound { token: t, module: m } => (t@ == inquirer@ || t@
                    == token@) && m@ == host@,
                DiError::InvalidScope { token: t } => t@ == token@,
                DiError::InstanceNotFound { token: t } => t@ == token@,
                DiError::SlotNotFound { token: t } => t@ == token@,
                _ => false,
            }),
    {
        let mih = match self.container.find_module(host) {
            Some(x) => x,
            None => {
                return Err(DiError::ModuleNotFound { token: host.clone() });
            },
        };
        proof {
            self.container.lemma_module_at_token(mih as int);
        }
        let pih = match self.container.module_at(mih).find_provider_index(inquirer) {
            Some(x) => x,
            None => {
                return Err(
                    DiError::ProviderNotFound { token: inquirer.clone(), module: host.clone() },
                );
            },
        };
        let inquirer_id = self.container.module_at(mih).provider_at(pih).get_id();
        proof {
            self.container.modules_seq()[mih as int].lemma_provider_at_token(pih as int);
            assert(self.container.module_spec(host@).provider_spec(inquirer@).spec_id()
                == inquirer_id);
        }
        let loc = match self.container.get_provider_in_module(token, host) {
            Some(l) => l,
            None => {
                return Err(
                    DiError::ProviderNotFound { token: token.clone(), module: host.clone() },
                );
            },
        };
        let scope = self.container.module_at(loc.module_index).provider_at(
            loc.provider_index,
        ).get_scope();
        let dep = match scope {
            Scope::ContextDependent => {
                return Err(DiError::InvalidScope { token: token.clone() });
            },
            Scope::Transient => {
                match self.container.module_at(loc.module_index).provider_at(
                    loc.provider_index,
                ).get_instance_by_inquirer_id(inquirer_id, STATIC_CONTEXT) {
                    Some(d) => d,
                    None => {
                        return Err(DiError::InstanceNotFound { token: token.clone() });
                    },
                }
            },
            Scope::Singleton => {
                match self.container.module_at(loc.module_index).provider_at(
                    loc.provider_index,
                ).get_instance() {
                    Some(d) => d,
                    None => {
                        return Err(DiError::InstanceNotFound { token: token.clone() });
                    },
                }
            },
        };
        let ok = self.store.set_slot(self_instance.instance_id, token, dep);
        proof {
            assert forall|id: u64, t2: Seq<char>| #[trigger]
                old(self).store.slot_initialized(id, t2) implies self.store.slot_initialized(
                id,
                t2,
            ) by {
                if ok {
                    if id != self_instance.instance_id {
                        assert(self.store.record_spec(id) == old(self).store.record_spec(id));
                    } else {
                        if t2 != token@ {
                            assert(self.store.record_spec(id).slot_spec(t2) == old(
                                self,
                            ).store.record_spec(id).slot_spec(t2));
                        }
                    }
                } else {
                    InstanceStore::lemma_same_records(old(self).store, self.store);
                }
            }
        }
        if ok {
            proof {
                let mi = loc.module_index as int;
                let pi = loc.provider_index as int;
                assert(link_instance_effect(
                    *old(self),
                    *self,
                    mi,
                    pi,
                    inquirer_id,
                    self_instance,
                    token@,
                ));
            }
            Ok(())
        } else {
            Err(DiError::SlotNotFound { token: token.clone() })
        }
    }

    /// Without a builder for the module there is no staged provider in
    /// it.
    proof fn lemma_no_builder_no_pb(self, mt: Seq<char>, pt: Seq<char>)
        requires
            !has_builder_in(self.modules@, mt),
        ensures
            !has_builder_for_in(self.modules@, mt, pt),
    {
        if has_builder_for_in(self.modules@, mt, pt) {
            let i = choose|i: int|
                0 <= i < self.modules@.len() && (#[trigger] self.modules@[i]).spec_token() == mt
                    && self.modules@[i].has_pb(pt);
            assert(has_builder_in(self.modules@, mt));
        }
    }
}

/// The top of the build phase: owns the context that generated module
/// code populates.
pub struct Builder {
    pub context: BuilderContext,
}

impl Builder {
    pub fn new() -> (b: Builder)
        ensures
            b.context.wf(),
            b.context.container.modules_seq().len() == 0,
            b.context.modules@.len() == 0,
            b.context.next_id == 0,
    {
        Builder { context: BuilderContext::new() }
    }

    /// Declare a module (see `BuilderContext::register_module`).
    pub fn register_module(&mut self, token: String)
        requires
            old(self).context.wf(),
            old(self).context.next_id < u64::MAX,
        ensures
            final(self).context.wf(),
            final(self).context.has_builder(token@),
            final(self).context.container.has_module_spec(token@),
            final(self).context.next_id <= old(self).context.next_id + 1,
    {
        self.context.register_module(token);
    }

    /// The staged module builders.
    pub fn get_modules(&self) -> (r: &Vec<ModuleBuilder>)
        ensures
            r@ == self.context.modules@,
    {
        &self.context.modules
    }
}

/// Singleton identity law: once a singleton-scoped provider has an
/// instance, a second registration — from any inquirer — changes nothing,
/// so every resolution yields identically the same backing instance.
pub proof fn lemma_singleton_identity(
    s0: BuilderContext,
    s1: BuilderContext,
    s2: BuilderContext,
    mi: int,
    pi: int,
    inq1: u64,
    inq2: u64,
)
    requires
        0 <= mi < s0.container.modules_seq().len(),
        0 <= pi < s0.container.modules_seq()[mi].providers_seq().len(),
        s0.container.modules_seq()[mi].providers_seq()[pi].spec_scope() == Scope::Singleton,
        register_instance_effect(s0, s1, mi, pi, inq1),
        register_instance_effect(s1, s2, mi, pi, inq2),
    ensures
        s2 == s1,
        s2.container.modules_seq()[mi].providers_seq()[pi].cell_value(
            s0.container.modules_seq()[mi].providers_seq()[pi].spec_id(),
            STATIC_CONTEXT,
        ) == s1.container.modules_seq()[mi].providers_seq()[pi].cell_value(
            s0.container.modules_seq()[mi].providers_seq()[pi].spec_id(),
            STATIC_CONTEXT,
        ),
{
    let w0 = s0.container.modules_seq()[mi].providers_seq()[pi];
    let w1 = s1.container.modules_seq()[mi].providers_seq()[pi];
    if w0.has_cell(w0.spec_id(), STATIC_CONTEXT) {
        assert(s1 == s0);
    } else {
        assert(w1.same_identity(w0));
    }
    assert(w1.spec_scope() == Scope::Singleton);
    assert(w1.has_cell(w1.spec_id(), STATIC_CONTEXT));
}

/// Scope-cell invariant: the init phase never populates anything but the
/// (own id, static context) cell of a singleton-scoped wrapper, whoever
/// asked.
pub proof fn lemma_singleton_cells_invariant(
    s0: BuilderContext,
    s1: BuilderContext,
    mi: int,
    pi: int,
    inq: u64,
)
    requires
        0 <= mi < s0.container.modules_seq().len(),
        0 <= pi < s0.container.modules_seq()[mi].providers_seq().len(),
        s0.container.modules_seq()[mi].providers_seq()[pi].scope_cells_ok(),
        register_instance_effect(s0, s1, mi, pi, inq),
    ensures
        s1.container.modules_seq()[mi].providers_seq()[pi].scope_cells_ok(),
{
    let w0 = s0.container.modules_seq()[mi].providers_seq()[pi];
    let w1 = s1.container.modules_seq()[mi].providers_seq()[pi];
    if w0.has_cell(if w0.spec_scope() == Scope::Transient {
        inq
    } else {
        w0.spec_id()
    }, STATIC_CONTEXT) {
        assert(s1 == s0);
    } else {
        if w1.spec_scope() == Scope::Singleton {
            assert forall|i: u64, c: u64| #[trigger]
                w1.has_cell(i, c) implies i == w1.spec_id() && c == STATIC_CONTEXT by {
                if !(i == w0.spec_id() && c == STATIC_CONTEXT) {
                    assert(w0.has_cell(i, c));
                }
            }
        }
    }
}

/// Transient distinctness law, first half: two distinct inquirers whose
/// cells were both still empty receive two distinct instances — the
/// identities created for them differ.
pub proof fn lemma_transient_distinctness(
    s0: BuilderContext,
    s1: BuilderContext,
    s2: BuilderContext,
    mi: int,
    pi: int,
    inq1: u64,
    inq2: u64,
)
    requires
        0 <= mi < s0.container.modules_seq().len(),
        0 <= pi < s0.container.modules_seq()[mi].providers_seq().len(),
        s0.container.modules_seq()[mi].providers_seq()[pi].spec_scope() == Scope::Transient,
        !s0.container.modules_seq()[mi].providers_seq()[pi].has_cell(inq1, STATIC_CONTEXT),
        !s0.container.modules_seq()[mi].providers_seq()[pi].has_cell(inq2, STATIC_CONTEXT),
        inq1 != inq2,
        s0.next_id < u64::MAX,
        register_instance_effect(s0, s1, mi, pi, inq1),
        register_instance_effect(s1, s2, mi, pi, inq2),
    ensures
        s2.container.modules_seq()[mi].providers_seq()[pi].has_cell(inq1, STATIC_CONTEXT),
        s2.container.modules_seq()[mi].providers_seq()[pi].has_cell(inq2, STATIC_CONTEXT),
        s2.container.modules_seq()[mi].providers_seq()[pi].cell_value(
            inq1,
            STATIC_CONTEXT,
        ).instance_id != s2.container.modules_seq()[mi].providers_seq()[pi].cell_value(
            inq2,
            STATIC_CONTEXT,
        ).instance_id,
{
    let w0 = s0.container.modules_seq()[mi].providers_seq()[pi];
    let w1 = s1.container.modules_seq()[mi].providers_seq()[pi];
    let w2 = s2.container.modules_seq()[mi].providers_seq()[pi];
    assert(w1.cell_value(inq1, STATIC_CONTEXT).instance_id == s0.next_id);
    assert(w1.spec_scope() == Scope::Transient);
    assert(!w1.has_cell(inq2, STATIC_CONTEXT));
    assert(w2.cell_value(inq2, STATIC_CONTEXT).instance_id == s1.next_id);
    assert(w2.cell_value(inq1, STATIC_CONTEXT) == w1.cell_value(inq1, STATIC_CONTEXT));
}

/// Transient distinctness law, second half: the same inquirer resolving
/// twice receives the cached instance — the second registration changes
/// nothing.
pub proof fn lemma_transient_cached(
    s0: BuilderContext,
    s1: BuilderContext,
    s2: BuilderContext,
    mi: int,
    pi: int,
    inq: u64,
)
    requires
        0 <= mi < s0.container.modules_seq().len(),
        0 <= pi < s0.container.modules_seq()[mi].providers_seq().len(),
        s0.container.modules_seq()[mi].providers_seq()[pi].spec_scope() == Scope::Transient,
        register_instance_effect(s0, s1, mi, pi, inq),
        register_instance_effect(s1, s2, mi, pi, inq),
    ensures
        s2 == s1,
{
    let w0 = s0.container.modules_seq()[mi].providers_seq()[pi];
    let w1 = s1.container.modules_seq()[mi].providers_seq()[pi];
    if w0.has_cell(inq, STATIC_CONTEXT) {
        assert(s1 == s0);
    } else {
        assert(w1.same_identity(w0));
    }
    assert(w1.spec_scope() == Scope::Transient);
    assert(w1.has_cell(inq, STATIC_CONTEXT));
}

/// Cycle-safety law: after the link phase wires instance `a`'s slot for
/// `tb` to `b`'s wrapper cell and then instance `b`'s slot for `ta` to
/// `a`'s wrapper cell, both records exist and mutually reference each
/// other — the second wiring never unwires the first, because every
/// instance already existed before any cross-reference was assigned.
pub proof fn lemma_cycle_wiring(
    s0: BuilderContext,
    s1: BuilderContext,
    s2: BuilderContext,
    mi_b: int,
    pi_b: int,
    mi_a: int,
    pi_a: int,
    inq_a: u64,
    inq_b: u64,
    a: Handle,
    b: Handle,
    ta: Seq<char>,
    tb: Seq<char>,
)
    requires
        link_instance_effect(s0, s1, mi_b, pi_b, inq_a, a, tb),
        link_instance_effect(s1, s2, mi_a, pi_a, inq_b, b, ta),
        a.instance_id != b.instance_id,
        s0.store.has_record(a.instance_id),
    ensures
        s2.store.slot_initialized(a.instance_id, tb),
        s2.store.slot_value(a.instance_id, tb) == s1.store.slot_value(a.instance_id, tb),
        s2.store.slot_initialized(b.instance_id, ta),
{
    assert(s1.store.has_record(a.instance_id));
    assert(s2.store.record_spec(a.instance_id) == s1.store.record_spec(a.instance_id));
}

} // verus!
