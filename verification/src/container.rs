//! Process-wide registry of modules, the global-module set, and the
//! multi-hop provider lookup across the import graph.

use vstd::prelude::*;

use crate::module::{contains_token, Module};

verus! {

/// Position of a provider inside the container: which module (by index)
/// and which of its providers.
#[derive(Clone, Copy, PartialEq, Eq, Structural, Debug)]
pub struct ProviderLoc {
    pub module_index: usize,
    pub provider_index: usize,
}

/// The registry of all modules by token. A distinguished subset of module
/// tokens is global: those modules are searched by every lookup regardless
/// of the requesting module's imports.
pub struct Container {
    modules: Vec<Module>,
    global_tokens: Vec<String>,
}

impl Container {
    pub closed spec fn modules_seq(self) -> Seq<Module> {
        self.modules@
    }

    pub closed spec fn globals_seq(self) -> Seq<Seq<char>> {
        self.global_tokens@.map_values(|s: String| s@)
    }

    pub open spec fn has_module_spec(self, t: Seq<char>) -> bool {
        exists|i: int| 0 <= i < self.modules_seq().len() && self.modules_seq()[i].spec_token() == t
    }

    pub open spec fn module_index_spec(self, t: Seq<char>) -> int {
        choose|i: int| 0 <= i < self.modules_seq().len() && self.modules_seq()[i].spec_token() == t
    }

    /// The module registered under `t` (meaningful when present).
    pub open spec fn module_spec(self, t: Seq<char>) -> Module {
        self.modules_seq()[self.module_index_spec(t)]
    }

    pub open spec fn is_global_spec(self, t: Seq<char>) -> bool {
        self.globals_seq().contains(t)
    }

    pub open spec fn wf(self) -> bool {
        &&& forall|i: int, j: int|
            0 <= i < j < self.modules_seq().len() ==> self.modules_seq()[i].spec_token()
                != self.modules_seq()[j].spec_token()
        &&& forall|i: int|
            0 <= i < self.modules_seq().len() ==> (#[trigger] self.modules_seq()[i]).wf()
        &&& forall|t: Seq<char>| #[trigger] self.is_global_spec(t) ==> self.has_module_spec(t)
    }

    /// The module registered under `m` exports a provider with token `t`.
    pub open spec fn exports_via(self, m: Seq<char>, t: Seq<char>) -> bool {
        self.has_module_spec(m) && self.module_spec(m).exports_spec(t)
    }

    /// Search phase 1: the requesting module's own providers.
    pub open spec fn found_in_own(self, root: Seq<char>, t: Seq<char>) -> bool {
        self.has_module_spec(root) && self.module_spec(root).has_provider_spec(t)
    }

    /// Search phase 2: exported providers of the modules the requester
    /// directly imports.
    pub open spec fn found_in_related(self, root: Seq<char>, t: Seq<char>) -> bool {
        self.has_module_spec(root) && exists|i: int|
            0 <= i < self.module_spec(root).related_seq().len() && self.exports_via(
                #[trigger] self.module_spec(root).related_seq()[i],
                t,
            )
    }

    /// Search phase 3: exported providers of the global modules.
    pub open spec fn found_in_globals(self, t: Seq<char>) -> bool {
        exists|i: int|
            0 <= i < self.globals_seq().len() && self.exports_via(
                #[trigger] self.globals_seq()[i],
                t,
            )
    }

    /// The module registered under `g` imports a module exporting `t`.
    pub open spec fn related_of_exports(self, g: Seq<char>, t: Seq<char>) -> bool {
        self.has_module_spec(g) && exists|j: int|
            0 <= j < self.module_spec(g).related_seq().len() && self.exports_via(
                #[trigger] self.module_spec(g).related_seq()[j],
                t,
            )
    }

    /// Search phase 4: exported providers of the modules imported by the
    /// global modules.
    pub open spec fn found_in_global_related(self, t: Seq<char>) -> bool {
        exists|i: int|
            0 <= i < self.globals_seq().len() && self.related_of_exports(
                #[trigger] self.globals_seq()[i],
                t,
            )
    }

    /// A provider with token `t` is reachable from the module registered
    /// under `root`, by any of the four search phases.
    pub open spec fn provider_reachable(self, root: Seq<char>, t: Seq<char>) -> bool {
        ||| self.found_in_own(root, t)
        ||| self.found_in_related(root, t)
        ||| self.found_in_globals(t)
        ||| self.found_in_global_related(t)
    }

    /// What the hierarchical lookup may resolve `t` to, as seen from
    /// `root`: a provider with token `t`, found in the earliest applicable
    /// search phase. Local declarations shadow imports; imports shadow
    /// globals; globals shadow global imports.
    pub open spec fn lookup_consistent(self, root: Seq<char>, t: Seq<char>, mi: int, pi: int) -> bool {
        &&& 0 <= mi < self.modules_seq().len()
        &&& 0 <= pi < self.modules_seq()[mi].providers_seq().len()
        &&& self.modules_seq()[mi].providers_seq()[pi].spec_token() == t
        &&& (self.found_in_own(root, t) ==> self.modules_seq()[mi].spec_token() == root)
        &&& (!self.found_in_own(root, t) ==> self.modules_seq()[mi].exports_spec(t))
        &&& (!self.found_in_own(root, t) && self.found_in_related(root, t) ==> self.module_spec(
            root,
        ).has_related_spec(self.modules_seq()[mi].spec_token()))
        &&& (!self.found_in_own(root, t) && !self.found_in_related(root, t)
            && self.found_in_globals(t) ==> self.is_global_spec(
            self.modules_seq()[mi].spec_token(),
        ))
        &&& (!self.found_in_own(root, t) && !self.found_in_related(root, t)
            && !self.found_in_globals(t) ==> exists|g: Seq<char>|
            #[trigger] self.is_global_spec(g) && self.module_spec(g).has_related_spec(
                self.modules_seq()[mi].spec_token(),
            ))
    }

    /// With unique tokens, index `i` is the index of its own token.
    pub proof fn lemma_module_at_token(self, i: int)
        requires
            self.wf(),
            0 <= i < self.modules_seq().len(),
        ensures
            self.has_module_spec(self.modules_seq()[i].spec_token()),
            self.module_index_spec(self.modules_seq()[i].spec_token()) == i,
            self.module_spec(self.modules_seq()[i].spec_token()) == self.modules_seq()[i],
    {
        let t = self.modules_seq()[i].spec_token();
        assert(self.has_module_spec(t));
        let j = self.module_index_spec(t);
        if j != i {
            assert(self.modules_seq()[j].spec_token() == t);
            assert(false);
        }
    }

    /// The graph shapes agree: same modules (token, identity, imports,
    /// exports, distance) and same providers (identity, token, host,
    /// scope); only the instance cells inside the wrappers may differ.
    /// The container keeps its shape once the build phase completes —
    /// init and link only populate cells.
    pub open spec fn same_shape(a: Container, b: Container) -> bool {
        &&& b.modules_seq().len() == a.modules_seq().len()
        &&& b.globals_seq() == a.globals_seq()
        &&& forall|k: int|
            0 <= k < a.modules_seq().len() ==> (#[trigger] b.modules_seq()[k]).spec_token()
                == a.modules_seq()[k].spec_token() && b.modules_seq()[k].spec_id()
                == a.modules_seq()[k].spec_id() && b.modules_seq()[k].spec_distance()
                == a.modules_seq()[k].spec_distance() && b.modules_seq()[k].related_seq()
                == a.modules_seq()[k].related_seq() && b.modules_seq()[k].exported_seq()
                == a.modules_seq()[k].exported_seq() && b.modules_seq()[k].providers_seq().len()
                == a.modules_seq()[k].providers_seq().len()
        &&& forall|k: int, p: int|
            0 <= k < a.modules_seq().len() && 0 <= p < a.modules_seq()[k].providers_seq().len()
                ==> (#[trigger] b.modules_seq()[k].providers_seq()[p]).same_identity(
                a.modules_seq()[k].providers_seq()[p],
            )
    }

    /// No populated cell is lost between `a` and `b`: instance creation
    /// only adds cells.
    pub open spec fn cells_monotone(a: Container, b: Container) -> bool {
        forall|k: int, p: int, i2: u64, c2: u64|
            0 <= k < a.modules_seq().len() && 0 <= p < a.modules_seq()[k].providers_seq().len()
                && (#[trigger] a.modules_seq()[k].providers_seq()[p].has_cell(i2, c2))
                ==> b.modules_seq()[k].providers_seq()[p].has_cell(i2, c2)
    }

    /// `same_shape` preserves module and provider membership.
    pub proof fn lemma_same_shape_preserves(a: Container, b: Container)
        requires
            Container::same_shape(a, b),
            b.wf(),
        ensures
            forall|t: Seq<char>| #[trigger] a.has_module_spec(t) ==> b.has_module_spec(t),
            forall|t: Seq<char>, pt: Seq<char>|
                a.has_module_spec(t) && #[trigger] a.module_spec(t).has_provider_spec(pt)
                    ==> b.has_module_spec(t) && b.module_spec(t).has_provider_spec(pt),
    {
        assert forall|t: Seq<char>| #[trigger] a.has_module_spec(t) implies b.has_module_spec(
            t,
        ) by {
            let k = choose|k: int|
                0 <= k < a.modules_seq().len() && a.modules_seq()[k].spec_token() == t;
            assert(b.modules_seq()[k].spec_token() == t);
        }
        assert forall|t: Seq<char>, pt: Seq<char>|
            a.has_module_spec(t) && #[trigger] a.module_spec(t).has_provider_spec(pt)
            implies b.has_module_spec(t) && b.module_spec(t).has_provider_spec(pt) by {
            let k = a.module_index_spec(t);
            assert(0 <= k < a.modules_seq().len() && a.modules_seq()[k].spec_token() == t);
            assert(b.modules_seq()[k].spec_token() == t);
            b.lemma_module_at_token(k);
            let pj = a.modules_seq()[k].provider_index_spec(pt);
            assert(0 <= pj < a.modules_seq()[k].providers_seq().len()
                && a.modules_seq()[k].providers_seq()[pj].spec_token() == pt);
            assert(b.modules_seq()[k].providers_seq()[pj].same_identity(
                a.modules_seq()[k].providers_seq()[pj],
            ));
            assert(b.modules_seq()[k].providers_seq()[pj].spec_token() == pt);
        }
    }

    /// Containers of the same shape agree on reachability: the four
    /// search phases read only tokens, imports, exports and globals, all
    /// of which the shape fixes. Callers use this to carry a failure
    /// cause stated at one pipeline state back to another.
    pub proof fn lemma_same_shape_reachable(a: Container, b: Container)
        requires
            Container::same_shape(a, b),
            a.wf(),
            b.wf(),
        ensures
            forall|root: Seq<char>, t: Seq<char>|
                #[trigger] a.provider_reachable(root, t) == b.provider_reachable(root, t),
    {
        assert forall|t: Seq<char>|
            #![trigger a.has_module_spec(t)]
            #![trigger b.has_module_spec(t)]
            a.has_module_spec(t) == b.has_module_spec(t) by {
            if a.has_module_spec(t) {
                let k = choose|k: int|
                    0 <= k < a.modules_seq().len() && a.modules_seq()[k].spec_token() == t;
                assert(b.modules_seq()[k].spec_token() == t);
            }
            if b.has_module_spec(t) {
                let k = choose|k: int|
                    0 <= k < b.modules_seq().len() && b.modules_seq()[k].spec_token() == t;
                assert(a.modules_seq()[k].spec_token() == t);
            }
        }
        assert forall|t: Seq<char>, pt: Seq<char>|
            #![trigger a.module_spec(t).has_provider_spec(pt)]
            #![trigger b.module_spec(t).has_provider_spec(pt)]
            a.has_module_spec(t) ==> (a.module_spec(t).has_provider_spec(pt) == b.module_spec(
                t,
            ).has_provider_spec(pt) && a.module_spec(t).related_seq() == b.module_spec(
                t,
            ).related_seq() && a.module_spec(t).exported_seq() == b.module_spec(
                t,
            ).exported_seq()) by {
            if a.has_module_spec(t) {
                let k = a.module_index_spec(t);
                assert(0 <= k < a.modules_seq().len() && a.modules_seq()[k].spec_token() == t);
                assert(b.modules_seq()[k].spec_token() == t);
                b.lemma_module_at_token(k);
                if a.module_spec(t).has_provider_spec(pt) {
                    let pj = a.modules_seq()[k].provider_index_spec(pt);
                    assert(0 <= pj < a.modules_seq()[k].providers_seq().len()
                        && a.modules_seq()[k].providers_seq()[pj].spec_token() == pt);
                    assert(b.modules_seq()[k].providers_seq()[pj].same_identity(
                        a.modules_seq()[k].providers_seq()[pj],
                    ));
                    assert(b.modules_seq()[k].providers_seq()[pj].spec_token() == pt);
                }
                if b.module_spec(t).has_provider_spec(pt) {
                    let pj = b.modules_seq()[k].provider_index_spec(pt);
                    assert(0 <= pj < b.modules_seq()[k].providers_seq().len()
                        && b.modules_seq()[k].providers_seq()[pj].spec_token() == pt);
                    assert(b.modules_seq()[k].providers_seq()[pj].same_identity(
                        a.modules_seq()[k].providers_seq()[pj],
                    ));
                    assert(a.modules_seq()[k].providers_seq()[pj].spec_token() == pt);
                }
            }
        }
        assert forall|m: Seq<char>, t: Seq<char>|
            #![trigger a.exports_via(m, t)]
            #![trigger b.exports_via(m, t)]
            a.exports_via(m, t) == b.exports_via(m, t) by {
            if a.has_module_spec(m) {
                assert(a.module_spec(m).has_provider_spec(t) == b.module_spec(
                    m,
                ).has_provider_spec(t));
                assert(a.module_spec(m).exported_seq() == b.module_spec(m).exported_seq());
            }
        }
        assert forall|root: Seq<char>, t: Seq<char>|
            #[trigger] a.provider_reachable(root, t) == b.provider_reachable(root, t) by {
            assert(a.found_in_own(root, t) == b.found_in_own(root, t));
            assert(a.found_in_related(root, t) == b.found_in_related(root, t)) by {
                if a.has_module_spec(root) {
                    assert(a.module_spec(root).related_seq() == b.module_spec(root).related_seq());
                    if a.found_in_related(root, t) {
                        let i = choose|i: int|
                            0 <= i < a.module_spec(root).related_seq().len() && a.exports_via(
                                #[trigger] a.module_spec(root).related_seq()[i],
                                t,
                            );
                        assert(b.exports_via(b.module_spec(root).related_seq()[i], t));
                    }
                    if b.found_in_related(root, t) {
                        let i = choose|i: int|
                            0 <= i < b.module_spec(root).related_seq().len() && b.exports_via(
                                #[trigger] b.module_spec(root).related_seq()[i],
                                t,
                            );
                        assert(a.exports_via(a.module_spec(root).related_seq()[i], t));
                    }
                }
            }
            assert(a.found_in_globals(t) == b.found_in_globals(t)) by {
                if a.found_in_globals(t) {
                    let i = choose|i: int|
                        0 <= i < a.globals_seq().len() && a.exports_via(
                            #[trigger] a.globals_seq()[i],
                            t,
                        );
                    assert(b.exports_via(b.globals_seq()[i], t));
                }
                if b.found_in_globals(t) {
                    let i = choose|i: int|
                        0 <= i < b.globals_seq().len() && b.exports_via(
                            #[trigger] b.globals_seq()[i],
                            t,
                        );
                    assert(a.exports_via(a.globals_seq()[i], t));
                }
            }
            assert(a.found_in_global_related(t) == b.found_in_global_related(t)) by {
                assert forall|g: Seq<char>|
                    #![trigger a.related_of_exports(g, t)]
                    #![trigger b.related_of_exports(g, t)]
                    a.related_of_exports(g, t) == b.related_of_exports(g, t) by {
                    if a.has_module_spec(g) {
                        assert(a.module_spec(g).related_seq() == b.module_spec(g).related_seq());
                        if a.related_of_exports(g, t) {
                            let j = choose|j: int|
                                0 <= j < a.module_spec(g).related_seq().len() && a.exports_via(
                                    #[trigger] a.module_spec(g).related_seq()[j],
                                    t,
                                );
                            assert(b.exports_via(b.module_spec(g).related_seq()[j], t));
                        }
                        if b.related_of_exports(g, t) {
                            let j = choose|j: int|
                                0 <= j < b.module_spec(g).related_seq().len() && b.exports_via(
                                    #[trigger] b.module_spec(g).related_seq()[j],
                                    t,
                                );
                            assert(a.exports_via(a.module_spec(g).related_seq()[j], t));
                        }
                    }
                }
                if a.found_in_global_related(t) {
                    let i = choose|i: int|
                        0 <= i < a.globals_seq().len() && a.related_of_exports(
                            #[trigger] a.globals_seq()[i],
                            t,
                        );
                    assert(b.related_of_exports(b.globals_seq()[i], t));
                }
                if b.found_in_global_related(t) {
                    let i = choose|i: int|
                        0 <= i < b.globals_seq().len() && b.related_of_exports(
                            #[trigger] b.globals_seq()[i],
                            t,
                        );
                    assert(a.related_of_exports(a.globals_seq()[i], t));
                }
            }
        }
    }

    /// `same_shape` is reflexive and transitive.
    pub proof fn lemma_same_shape_trans(a: Container, b: Container, c: Container)
        requires
            Container::same_shape(a, b),
            Container::same_shape(b, c),
        ensures
            Container::same_shape(a, c),
    {
    }

    /// Two containers with the same module sequence agree on module
    /// lookup, whatever their global sets.
    pub proof fn lemma_same_modules(a: Container, b: Container)
        requires
            a.modules_seq() == b.modules_seq(),
            b.wf(),
        ensures
            forall|t: Seq<char>|
                #![trigger a.has_module_spec(t)]
                #![trigger b.has_module_spec(t)]
                a.has_module_spec(t) <==> b.has_module_spec(t),
            forall|t: Seq<char>|
                #![trigger a.module_spec(t)]
                #![trigger b.module_spec(t)]
                b.has_module_spec(t) ==> a.module_spec(t) == b.module_spec(t),
    {
        assert forall|t: Seq<char>| a.has_module_spec(t) <==> b.has_module_spec(t) by {
            if a.has_module_spec(t) {
                let i = choose|i: int|
                    0 <= i < a.modules_seq().len() && a.modules_seq()[i].spec_token() == t;
                assert(b.modules_seq()[i].spec_token() == t);
            }
            if b.has_module_spec(t) {
                let i = choose|i: int|
                    0 <= i < b.modules_seq().len() && b.modules_seq()[i].spec_token() == t;
                assert(a.modules_seq()[i].spec_token() == t);
            }
        }
        assert forall|t: Seq<char>| b.has_module_spec(t) implies a.module_spec(t)
            == b.module_spec(t) by {
            let j1 = a.module_index_spec(t);
            let j2 = b.module_index_spec(t);
            assert(a.has_module_spec(t));
            assert(0 <= j1 < a.modules_seq().len() && a.modules_seq()[j1].spec_token() == t);
            assert(0 <= j2 < b.modules_seq().len() && b.modules_seq()[j2].spec_token() == t);
            assert(b.modules_seq()[j1].spec_token() == t);
            if j1 != j2 {
                assert(false);
            }
        }
    }

    /// Well-formedness survives changing one module in place, keeping its
    /// token.
    pub proof fn lemma_wf_after_module_update(pre: Container, post: Container, mi: int)
        requires
            pre.wf(),
            0 <= mi < pre.modules_seq().len(),
            post.modules_seq().len() == pre.modules_seq().len(),
            post.globals_seq() == pre.globals_seq(),
            forall|k: int|
                0 <= k < pre.modules_seq().len() && k != mi ==> #[trigger] post.modules_seq()[k]
                    == pre.modules_seq()[k],
            post.modules_seq()[mi].spec_token() == pre.modules_seq()[mi].spec_token(),
            post.modules_seq()[mi].wf(),
        ensures
            post.wf(),
            forall|t: Seq<char>|
                #[trigger] post.has_module_spec(t) == pre.has_module_spec(t),
            forall|t: Seq<char>|
                t != pre.modules_seq()[mi].spec_token() && pre.has_module_spec(t)
                    ==> #[trigger] post.module_spec(t) == pre.module_spec(t),
            post.module_spec(pre.modules_seq()[mi].spec_token()) == post.modules_seq()[mi],
    {
        assert forall|i: int, j: int|
            0 <= i < j < post.modules_seq().len() implies post.modules_seq()[i].spec_token()
            != post.modules_seq()[j].spec_token() by {
            assert(post.modules_seq()[i].spec_token() == pre.modules_seq()[i].spec_token());
            assert(post.modules_seq()[j].spec_token() == pre.modules_seq()[j].spec_token());
        }
        assert forall|i: int|
            0 <= i < post.modules_seq().len() implies (#[trigger] post.modules_seq()[i]).wf() by {
            if i != mi {
                assert(post.modules_seq()[i] == pre.modules_seq()[i]);
            }
        }
        assert forall|t: Seq<char>|
            #[trigger] post.has_module_spec(t) == pre.has_module_spec(t) by {
            if pre.has_module_spec(t) {
                let i = choose|i: int|
                    0 <= i < pre.modules_seq().len() && pre.modules_seq()[i].spec_token() == t;
                assert(post.modules_seq()[i].spec_token() == t);
            }
            if post.has_module_spec(t) {
                let i = choose|i: int|
                    0 <= i < post.modules_seq().len() && post.modules_seq()[i].spec_token() == t;
                assert(pre.modules_seq()[i].spec_token() == t);
            }
        }
        assert forall|t: Seq<char>| #[trigger]
            post.is_global_spec(t) implies post.has_module_spec(t) by {
            assert(pre.is_global_spec(t));
        }
        assert forall|t: Seq<char>|
            t != pre.modules_seq()[mi].spec_token() && pre.has_module_spec(t)
            implies #[trigger] post.module_spec(t) == pre.module_spec(t) by {
            let j2 = pre.module_index_spec(t);
            assert(0 <= j2 < pre.modules_seq().len() && pre.modules_seq()[j2].spec_token() == t);
            assert(j2 != mi);
            assert(post.modules_seq()[j2].spec_token() == t);
            post.lemma_module_at_token(j2);
            assert(post.modules_seq()[j2] == pre.modules_seq()[j2]);
        }
        post.lemma_module_at_token(mi);
    }

    pub fn new() -> (c: Container)
        ensures
            c.wf(),
            c.modules_seq().len() == 0,
            c.globals_seq().len() == 0,
    {
        let c = Container { modules: Vec::new(), global_tokens: Vec::new() };
        proof {
            assert(c.globals_seq() =~= Seq::<Seq<char>>::empty());
        }
        c
    }

    pub fn find_module(&self, token: &String) -> (r: Option<usize>)
        ensures
            r is Some <==> self.has_module_spec(token@),
            r is Some ==> 0 <= r->0 < self.modules_seq().len()
                && self.modules_seq()[r->0 as int].spec_token() == token@,
    {
        let mut i: usize = 0;
        while i < self.modules.len()
            invariant
                i <= self.modules@.len(),
                forall|j: int| 0 <= j < i ==> self.modules@[j].spec_token() != token@,
            decreases self.modules@.len() - i,
        {
            if self.modules[i].get_token() == *token {
                proof {
                    assert(self.modules_seq()[i as int].spec_token() == token@);
                    assert(self.has_module_spec(token@));
                }
                return Some(i);
            }
            i += 1;
        }
        None
    }

    pub fn has_module(&self, token: &String) -> (r: bool)
        ensures
            r == self.has_module_spec(token@),
    {
        self.find_module(token).is_some()
    }

    pub fn get_module(&self, token: &String) -> (r: Option<&Module>)
        requires
            self.wf(),
        ensures
            r is Some <==> self.has_module_spec(token@),
            r is Some ==> *r->0 == self.module_spec(token@),
    {
        match self.find_module(token) {
            Some(i) => {
                proof {
                    self.lemma_module_at_token(i as int);
                }
                Some(&self.modules[i])
            },
            None => None,
        }
    }

    pub fn get_modules(&self) -> (r: &Vec<Module>)
        ensures
            r@ == self.modules_seq(),
    {
        &self.modules
    }

    /// Tokens of the registered global modules.
    pub fn get_global_modules(&self) -> (r: &Vec<String>)
        ensures
            r@.map_values(|s: String| s@) == self.globals_seq(),
    {
        &self.global_tokens
    }

    pub fn module_at(&self, i: usize) -> (m: &Module)
        requires
            i < self.modules_seq().len(),
        ensures
            *m == self.modules_seq()[i as int],
    {
        &self.modules[i]
    }

    /// Mutable access to the module at `i`; the caller re-establishes
    /// well-formedness of the container.
    pub fn module_at_mut(&mut self, i: usize) -> (m: &mut Module)
        requires
            i < old(self).modules_seq().len(),
        ensures
            *m == old(self).modules_seq()[i as int],
            final(self).modules_seq() == old(self).modules_seq().update(i as int, *final(m)),
            final(self).globals_seq() == old(self).globals_seq(),
    {
        &mut self.modules[i]
    }

    /// Register a module under its token; a module already registered
    /// under that token is replaced.
    pub fn register_module(&mut self, token: String, module: Module)
        requires
            old(self).wf(),
            module.wf(),
            module.spec_token() == token@,
        ensures
            final(self).wf(),
            final(self).has_module_spec(token@),
            final(self).module_spec(token@) == module,
            forall|t: Seq<char>|
                #[trigger] final(self).has_module_spec(t) <==> (old(self).has_module_spec(t) || t
                    == token@),
            forall|t: Seq<char>|
                t != token@ && old(self).has_module_spec(t) ==> #[trigger] final(self).module_spec(
                    t,
                ) == old(self).module_spec(t),
            final(self).globals_seq() == old(self).globals_seq(),
    {
        match self.find_module(&token) {
            Some(i) => {
                self.modules[i] = module;
                proof {
                    self.lemma_modules_update_frame(*old(self), i as int, module);
                }
            },
            None => {
                self.modules.push(module);
                proof {
                    self.lemma_modules_push_frame(*old(self), module);
                }
            },
        }
    }

    proof fn lemma_modules_update_frame(self, prev: Container, k: int, module: Module)
        requires
            prev.wf(),
            module.wf(),
            0 <= k < prev.modules_seq().len(),
            prev.modules_seq()[k].spec_token() == module.spec_token(),
            self.modules_seq() == prev.modules_seq().update(k, module),
            self.globals_seq() == prev.globals_seq(),
        ensures
            self.wf(),
            self.has_module_spec(module.spec_token()),
            self.module_spec(module.spec_token()) == module,
            forall|t: Seq<char>|
                #[trigger] self.has_module_spec(t) <==> (prev.has_module_spec(t) || t
                    == module.spec_token()),
            forall|t: Seq<char>|
                t != module.spec_token() && prev.has_module_spec(t)
                    ==> #[trigger] self.module_spec(t) == prev.module_spec(t),
    {
        assert(self.modules_seq()[k].spec_token() == module.spec_token());
        assert forall|t: Seq<char>| #[trigger]
            self.has_module_spec(t) <==> (prev.has_module_spec(t) || t
            == module.spec_token()) by {
            if prev.has_module_spec(t) {
                let i = choose|i: int|
                    0 <= i < prev.modules_seq().len() && prev.modules_seq()[i].spec_token() == t;
                if i == k {
                    assert(self.modules_seq()[k].spec_token() == t);
                } else {
                    assert(self.modules_seq()[i].spec_token() == t);
                }
            }
            if self.has_module_spec(t) && t != module.spec_token() {
                let i = choose|i: int|
                    0 <= i < self.modules_seq().len() && self.modules_seq()[i].spec_token() == t;
                assert(i != k);
                assert(prev.modules_seq()[i].spec_token() == t);
            }
        }
        assert forall|t: Seq<char>|
            t != module.spec_token() && prev.has_module_spec(t)
            implies #[trigger] self.module_spec(t) == prev.module_spec(t) by {
            let j2 = choose|j: int|
                0 <= j < prev.modules_seq().len() && prev.modules_seq()[j].spec_token() == t;
            assert(j2 != k);
            assert(self.modules_seq()[j2].spec_token() == t);
            let j1 = self.module_index_spec(t);
            assert(0 <= j1 < self.modules_seq().len() && self.modules_seq()[j1].spec_token() == t);
            assert(j1 != k);
            assert(prev.modules_seq()[j1].spec_token() == t);
            let j3 = prev.module_index_spec(t);
            if j1 != j3 {
                assert(false);
            }
        }
        let kk = self.module_index_spec(module.spec_token());
        if kk != k {
            assert(prev.modules_seq()[kk].spec_token() == module.spec_token());
            assert(false);
        }
        assert forall|t: Seq<char>| #[trigger]
            self.is_global_spec(t) implies self.has_module_spec(t) by {
            assert(prev.is_global_spec(t));
        }
    }

    proof fn lemma_modules_push_frame(self, prev: Container, module: Module)
        requires
            prev.wf(),
            module.wf(),
            !prev.has_module_spec(module.spec_token()),
            self.modules_seq() == prev.modules_seq().push(module),
            self.globals_seq() == prev.globals_seq(),
        ensures
            self.wf(),
            self.has_module_spec(module.spec_token()),
            self.module_spec(module.spec_token()) == module,
            forall|t: Seq<char>|
                #[trigger] self.has_module_spec(t) <==> (prev.has_module_spec(t) || t
                    == module.spec_token()),
            forall|t: Seq<char>|
                t != module.spec_token() && prev.has_module_spec(t)
                    ==> #[trigger] self.module_spec(t) == prev.module_spec(t),
    {
        let n = prev.modules_seq().len() as int;
        assert(self.modules_seq()[n] == module);
        assert forall|i: int, j: int|
            0 <= i < j < self.modules_seq().len() implies self.modules_seq()[i].spec_token()
            != self.modules_seq()[j].spec_token() by {
            if j < n {
                assert(prev.modules_seq()[i].spec_token() != prev.modules_seq()[j].spec_token());
            } else {
                if self.modules_seq()[i].spec_token() == module.spec_token() {
                    assert(prev.modules_seq()[i].spec_token() == module.spec_token());
                    assert(prev.has_module_spec(module.spec_token()));
                }
            }
        }
        assert forall|t: Seq<char>| #[trigger]
            self.has_module_spec(t) <==> (prev.has_module_spec(t) || t
            == module.spec_token()) by {
            if prev.has_module_spec(t) {
                let i = choose|i: int|
                    0 <= i < prev.modules_seq().len() && prev.modules_seq()[i].spec_token() == t;
                assert(self.modules_seq()[i].spec_token() == t);
            }
            if self.has_module_spec(t) && t != module.spec_token() {
                let i = choose|i: int|
                    0 <= i < self.modules_seq().len() && self.modules_seq()[i].spec_token() == t;
                assert(i != n);
                assert(prev.modules_seq()[i].spec_token() == t);
            }
        }
        assert forall|t: Seq<char>|
            t != module.spec_token() && prev.has_module_spec(t)
            implies #[trigger] self.module_spec(t) == prev.module_spec(t) by {
            let j2 = choose|j: int|
                0 <= j < prev.modules_seq().len() && prev.modules_seq()[j].spec_token() == t;
            assert(self.modules_seq()[j2].spec_token() == t);
            let j1 = self.module_index_spec(t);
            assert(0 <= j1 < self.modules_seq().len() && self.modules_seq()[j1].spec_token() == t);
            assert(j1 != n);
            assert(prev.modules_seq()[j1].spec_token() == t);
            let j3 = prev.module_index_spec(t);
            if j1 != j3 {
                assert(false);
            }
        }
        let kk = self.module_index_spec(module.spec_token());
        if kk != n {
            assert(prev.modules_seq()[kk].spec_token() == module.spec_token());
            assert(false);
        }
        assert forall|t: Seq<char>| #[trigger]
            self.is_global_spec(t) implies self.has_module_spec(t) by {
            assert(prev.is_global_spec(t));
            let i = choose|i: int|
                0 <= i < prev.modules_seq().len() && prev.modules_seq()[i].spec_token() == t;
            assert(self.modules_seq()[i].spec_token() == t);
        }
    }

    /// Register a module and mark it global.
    pub fn register_global_module(&mut self, token: String, module: Module)
        requires
            old(self).wf(),
            module.wf(),
            module.spec_token() == token@,
        ensures
            final(self).wf(),
            final(self).has_module_spec(token@),
            final(self).module_spec(token@) == module,
            forall|t: Seq<char>|
                #[trigger] final(self).has_module_spec(t) <==> (old(self).has_module_spec(t) || t
                    == token@),
            forall|t: Seq<char>|
                t != token@ && old(self).has_module_spec(t) ==> #[trigger] final(self).module_spec(
                    t,
                ) == old(self).module_spec(t),
            final(self).is_global_spec(token@),
            forall|t: Seq<char>|
                #[trigger] final(self).is_global_spec(t) <==> (old(self).is_global_spec(t) || t
                    == token@),
    {
        let tok = token.clone();
        self.register_module(token, module);
        let ghost mid = *self;
        self.push_global_token(tok);
        proof {
            Container::lemma_same_modules(*self, mid);
        }
    }

    /// Mark an already registered module as global; unknown tokens are
    /// ignored.
    pub fn register_global_module_by_token(&mut self, token: String)
        requires
            old(self).wf(),
        ensures
            final(self).wf(),
            final(self).modules_seq() == old(self).modules_seq(),
            old(self).has_module_spec(token@) ==> forall|t: Seq<char>|
                #[trigger] final(self).is_global_spec(t) <==> (old(self).is_global_spec(t) || t
                    == token@),
            !old(self).has_module_spec(token@) ==> final(self).globals_seq() == old(
                self,
            ).globals_seq(),
    {
        if !self.has_module(&token) {
            return ;
        }
        self.push_global_token(token);
    }

    /// Add a token to the global set (the module must be registered).
    fn push_global_token(&mut self, token: String)
        requires
            old(self).wf(),
            old(self).has_module_spec(token@),
        ensures
            final(self).wf(),
            final(self).modules_seq() == old(self).modules_seq(),
            final(self).is_global_spec(token@),
            forall|t: Seq<char>|
                #[trigger] final(self).is_global_spec(t) <==> (old(self).is_global_spec(t) || t
                    == token@),
    {
        let ghost tok = token@;
        if !contains_token(&self.global_tokens, &token) {
            self.global_tokens.push(token);
            proof {
                assert(self.globals_seq() =~= old(self).globals_seq().push(tok));
                let n = old(self).globals_seq().len() as int;
                assert forall|t: Seq<char>| #[trigger]
                    self.is_global_spec(t) <==> (old(self).is_global_spec(t) || t == tok) by {
                    if old(self).is_global_spec(t) {
                        let i = choose|i: int|
                            0 <= i < old(self).globals_seq().len() && old(self).globals_seq()[i]
                                == t;
                        assert(self.globals_seq()[i] == t);
                    }
                    if self.is_global_spec(t) {
                        let i = choose|i: int|
                            0 <= i < self.globals_seq().len() && self.globals_seq()[i] == t;
                        if i < n {
                            assert(old(self).globals_seq()[i] == t);
                        }
                    }
                    assert(self.globals_seq()[n] == tok);
                }
            }
        } else {
            proof {
                let i = choose|i: int|
                    0 <= i < self.global_tokens@.len() && self.global_tokens@[i]@ == tok;
                assert(self.globals_seq()[i] == tok);
            }
        }
    }

    /// Find a provider anywhere in the container, searching the registered
    /// modules in registration order.
    pub fn get_provider(&self, token: &String) -> (r: Option<ProviderLoc>)
        requires
            self.wf(),
        ensures
            r is Some <==> exists|i: int|
                0 <= i < self.modules_seq().len() && (#[trigger] self.modules_seq()[i]).has_provider_spec(
                    token@,
                ),
            r matches Some(loc) ==> loc.module_index < self.modules_seq().len()
                && loc.provider_index < self.modules_seq()[loc.module_index as int].providers_seq().len()
                && self.modules_seq()[loc.module_index as int].providers_seq()[loc.provider_index as int].spec_token()
                == token@,
    {
        let mut i: usize = 0;
        while i < self.modules.len()
            invariant
                self.wf(),
                i <= self.modules@.len(),
                forall|j: int|
                    0 <= j < i ==> !(#[trigger] self.modules@[j]).has_provider_spec(token@),
            decreases self.modules@.len() - i,
        {
            match self.modules[i].find_provider_index(token) {
                Some(pi) => {
                    proof {
                        assert((self.modules_seq()[i as int]).has_provider_spec(token@));
                    }
                    return Some(ProviderLoc { module_index: i, provider_index: pi });
                },
                None => {},
            }
            i += 1;
        }
        None
    }

    /// Find a provider as seen from the module registered under
    /// `root_token`, searching in strict order: the requesting module's own
    /// providers; the exported providers of each module it imports; the
    /// exported providers of each global module; the exported providers of
    /// each module imported by a global module. Locally declared providers
    /// shadow imported ones. The contract pins the winning phase; which
    /// exporter wins when several modules of one phase carry the token is
    /// left open.
    pub fn get_provider_in_module(&self, token: &String, root_token: &String) -> (r: Option<
        ProviderLoc,
    >)
        requires
            self.wf(),
        ensures
            r is Some <==> self.provider_reachable(root_token@, token@),
            r matches Some(loc) ==> self.lookup_consistent(
                root_token@,
                token@,
                loc.module_index as int,
                loc.provider_index as int,
            ),
    {
        let root_idx = self.find_module(root_token);
        match root_idx {
            Some(mi) => {
                proof {
                    self.lemma_module_at_token(mi as int);
                }
                // Phase 1: the module's own providers.
                match self.modules[mi].find_provider_index(token) {
                    Some(pi) => {
                        return Some(ProviderLoc { module_index: mi, provider_index: pi });
                    },
                    None => {},
                }
                // Phase 2: exported providers of directly imported modules.
                let related = self.modules[mi].get_related_modules();
                let ghost rootm = self.module_spec(root_token@);
                let mut j: usize = 0;
                while j < related.len()
                    invariant
                        self.wf(),
                        j <= related@.len(),
                        self.has_module_spec(root_token@),
                        rootm == self.module_spec(root_token@),
                        !self.found_in_own(root_token@, token@),
                        related@.map_values(|s: String| s@) == rootm.related_seq(),
                        forall|jj: int|
                            0 <= jj < j ==> !self.exports_via(
                                #[trigger] rootm.related_seq()[jj],
                                token@,
                            ),
                    decreases related@.len() - j,
                {
                    match self.find_module(&related[j]) {
                        Some(mj) => {
                            proof {
                                self.lemma_module_at_token(mj as int);
                                assert(rootm.related_seq()[j as int] == related@[j as int]@);
                            }
                            match self.modules[mj].find_exported_provider_index(token) {
                                Some(pj) => {
                                    proof {
                                        assert(self.exports_via(
                                            rootm.related_seq()[j as int],
                                            token@,
                                        ));
                                        assert(rootm.has_related_spec(
                                            self.modules_seq()[mj as int].spec_token(),
                                        ));
                                    }
                                    return Some(
                                        ProviderLoc { module_index: mj, provider_index: pj },
                                    );
                                },
                                None => {},
                            }
                        },
                        None => {
                            proof {
                                assert(rootm.related_seq()[j as int] == related@[j as int]@);
                            }
                        },
                    }
                    j += 1;
                }
                proof {
                    assert(!self.found_in_own(root_token@, token@));
                    assert(!self.found_in_related(root_token@, token@));
                }
            },
            None => {
                proof {
                    assert(!self.found_in_own(root_token@, token@));
                    assert(!self.found_in_related(root_token@, token@));
                }
            },
        }
        // Phase 3: exported providers of the global modules.
        let mut g: usize = 0;
        while g < self.global_tokens.len()
            invariant
                self.wf(),
                g <= self.global_tokens@.len(),
                !self.found_in_own(root_token@, token@),
                !self.found_in_related(root_token@, token@),
                forall|gg: int|
                    0 <= gg < g ==> !self.exports_via(#[trigger] self.globals_seq()[gg], token@),
            decreases self.global_tokens@.len() - g,
        {
            match self.find_module(&self.global_tokens[g]) {
                Some(mg) => {
                    proof {
                        self.lemma_module_at_token(mg as int);
                        assert(self.globals_seq()[g as int] == self.global_tokens@[g as int]@);
                    }
                    match self.modules[mg].find_exported_provider_index(token) {
                        Some(pg) => {
                            proof {
                                assert(self.exports_via(self.globals_seq()[g as int], token@));
                                assert(self.is_global_spec(
                                    self.modules_seq()[mg as int].spec_token(),
                                )) by {
                                    assert(0 <= g < self.globals_seq().len());
                                    assert(self.globals_seq()[g as int]
                                        == self.modules_seq()[mg as int].spec_token());
                                }
                            }
                            return Some(ProviderLoc { module_index: mg, provider_index: pg });
                        },
                        None => {},
                    }
                },
                None => {
                    proof {
                        assert(self.globals_seq()[g as int] == self.global_tokens@[g as int]@);
                    }
                },
            }
            g += 1;
        }
        // Phase 4: exported providers of the modules imported by global
        // modules.
        let mut g2: usize = 0;
        while g2 < self.global_tokens.len()
            invariant
                self.wf(),
                g2 <= self.global_tokens@.len(),
                !self.found_in_own(root_token@, token@),
                !self.found_in_related(root_token@, token@),
                !self.found_in_globals(token@),
                forall|gg: int|
                    0 <= gg < g2 ==> !self.related_of_exports(
                        #[trigger] self.globals_seq()[gg],
                        token@,
                    ),
            decreases self.global_tokens@.len() - g2,
        {
            match self.find_module(&self.global_tokens[g2]) {
                Some(mg) => {
                    proof {
                        self.lemma_module_at_token(mg as int);
                        assert(self.globals_seq()[g2 as int] == self.global_tokens@[g2 as int]@);
                    }
                    let ghost gtok = self.globals_seq()[g2 as int];
                    let grelated = self.modules[mg].get_related_modules();
                    let mut j: usize = 0;
                    while j < grelated.len()
                        invariant
                            self.wf(),
                            j <= grelated@.len(),
                            self.has_module_spec(gtok),
                            !self.found_in_own(root_token@, token@),
                            !self.found_in_related(root_token@, token@),
                            !self.found_in_globals(token@),
                            0 <= g2 < self.globals_seq().len(),
                            self.globals_seq()[g2 as int] == gtok,
                            grelated@.map_values(|s: String| s@) == self.module_spec(
                                gtok,
                            ).related_seq(),
                            forall|jj: int|
                                0 <= jj < j ==> !self.exports_via(
                                    #[trigger] self.module_spec(gtok).related_seq()[jj],
                                    token@,
                                ),
                        decreases grelated@.len() - j,
                    {
                        match self.find_module(&grelated[j]) {
                            Some(mj) => {
                                proof {
                                    self.lemma_module_at_token(mj as int);
                                    assert(self.module_spec(gtok).related_seq()[j as int]
                                        == grelated@[j as int]@);
                                }
                                match self.modules[mj].find_exported_provider_index(token) {
                                    Some(pj) => {
                                        proof {
                                            assert(self.exports_via(
                                                self.module_spec(gtok).related_seq()[j as int],
                                                token@,
                                            ));
                                            assert(self.related_of_exports(gtok, token@));
                                            assert(self.module_spec(gtok).has_related_spec(
                                                self.modules_seq()[mj as int].spec_token(),
                                            ));
                                            assert(self.is_global_spec(gtok)) by {
                                                assert(0 <= g2 < self.globals_seq().len());
                                                assert(self.globals_seq()[g2 as int] == gtok);
                                            }
                                        }
                                        return Some(
                                            ProviderLoc { module_index: mj, provider_index: pj },
                                        );
                                    },
                                    None => {},
                                }
                            },
                            None => {
                                proof {
                                    assert(self.module_spec(gtok).related_seq()[j as int]
                                        == grelated@[j as int]@);
                                }
                            },
                        }
                        j += 1;
                    }
                    proof {
                        assert(!self.related_of_exports(gtok, token@));
                    }
                },
                None => {
                    proof {
                        assert(self.globals_seq()[g2 as int] == self.global_tokens@[g2 as int]@);
                    }
                },
            }
            g2 += 1;
        }
        None
    }

    /// Distance of the module at index `k` from the root of the import
    /// graph.
    pub open spec fn dist_at(self, k: usize) -> u32 {
        self.modules_seq()[k as int].spec_distance()
    }

    /// Indices of the registered modules ordered by descending distance
    /// (modules furthest from the root first); a permutation of all
    /// module indices. Reversed, this gives root-first order.
    pub fn get_modules_sorted_by_distance(&self) -> (r: Vec<usize>)
        ensures
            r@.len() == self.modules_seq().len(),
            forall|k: int| 0 <= k < r@.len() ==> (#[trigger] r@[k]) < self.modules_seq().len(),
            forall|a: int, b: int|
                0 <= a < b < r@.len() ==> self.dist_at(r@[a]) >= self.dist_at(r@[b]),
            forall|a: int, b: int| 0 <= a < b < r@.len() ==> r@[a] != r@[b],
            forall|m: int| 0 <= m < self.modules_seq().len() ==> #[trigger] r@.contains(m as usize),
    {
        let n = self.modules.len();
        let mut idx: Vec<usize> = Vec::new();
        let mut k: usize = 0;
        while k < n
            invariant
                k <= n,
                idx@.len() == k,
                forall|j: int| 0 <= j < k ==> #[trigger] idx@[j] == j,
            decreases n - k,
        {
            idx.push(k);
            k += 1;
        }
        proof {
            assert forall|m: int| 0 <= m < n implies #[trigger] idx@.contains(m as usize) by {
                assert(idx@[m] == m);
            }
        }
        let mut i: usize = 1;
        while i < idx.len()
            invariant
                idx@.len() == n,
                n == self.modules_seq().len(),
                forall|j: int| 0 <= j < n ==> (#[trigger] idx@[j]) < n,
                forall|a: int, b: int| 0 <= a < b < n ==> idx@[a] != idx@[b],
                forall|m: int| 0 <= m < n ==> #[trigger] idx@.contains(m as usize),
                1 <= i,
                forall|a: int, b: int|
                    0 <= a < b < i ==> self.dist_at(idx@[a]) >= self.dist_at(idx@[b]),
            decreases idx@.len() - i,
        {
            let mut j: usize = i;
            while j > 0 && self.modules[idx[j - 1]].get_distance() < self.modules[idx[j]].get_distance()
                invariant
                    idx@.len() == n,
                    n == self.modules_seq().len(),
                    j <= i < n,
                    forall|jj: int| 0 <= jj < n ==> (#[trigger] idx@[jj]) < n,
                    forall|a: int, b: int| 0 <= a < b < n ==> idx@[a] != idx@[b],
                    forall|m: int| 0 <= m < n ==> #[trigger] idx@.contains(m as usize),
                    forall|a: int, b: int|
                        0 <= a < b <= i && b != j ==> self.dist_at(idx@[a]) >= self.dist_at(
                            idx@[b],
                        ),
                    forall|b: int|
                        j < b <= i ==> self.dist_at(idx@[j as int]) >= self.dist_at(idx@[b]),
                decreases j,
            {
                let ghost prev = idx@;
                let lo = idx[j - 1];
                let hi = idx[j];
                idx[j - 1] = hi;
                idx[j] = lo;
                proof {
                    assert(idx@ == prev.update(j - 1, hi).update(j as int, lo));
                    assert forall|a: int, b: int| 0 <= a < b < n implies idx@[a] != idx@[b] by {
                        let pa = if a == j - 1 { j as int } else if a == j { j - 1 } else { a };
                        let pb = if b == j - 1 { j as int } else if b == j { j - 1 } else { b };
                        assert(idx@[a] == prev[pa] && idx@[b] == prev[pb]);
                        assert(pa != pb);
                    }
                    assert forall|m: int| 0 <= m < n implies #[trigger] idx@.contains(m as usize) by {
                        assert(prev.contains(m as usize));
                        let p = choose|p: int| 0 <= p < prev.len() && prev[p] == m as usize;
                        let q = if p == j - 1 { j as int } else if p == j { j - 1 } else { p };
                        assert(idx@[q] == m as usize);
                    }
                }
                j -= 1;
            }
            proof {
                assert forall|a: int, b: int|
                    0 <= a < b < i + 1 implies self.dist_at(idx@[a]) >= self.dist_at(idx@[b]) by {
                    if b != j {
                        assert(self.dist_at(idx@[a]) >= self.dist_at(idx@[b]));
                    } else {
                        if a < j - 1 {
                            assert(self.dist_at(idx@[a]) >= self.dist_at(idx@[j - 1]));
                        }
                    }
                }
            }
            i += 1;
        }
        proof {
            if n == 0 {
                assert(idx@.len() == 0);
            }
        }
        idx
    }

    /// The module hosting the provider that `get_provider_in_module` would
    /// resolve `token` to, as seen from `root_token`.
    pub fn get_module_by_provider(&self, token: &String, root_token: &String) -> (r: Option<usize>)
        requires
            self.wf(),
        ensures
            r is Some <==> self.provider_reachable(root_token@, token@),
            r matches Some(mi) ==> mi < self.modules_seq().len()
                && self.modules_seq()[mi as int].has_provider_spec(token@),
            r matches Some(mi) ==> (self.found_in_own(root_token@, token@)
                ==> self.modules_seq()[mi as int].spec_token() == root_token@),
            r matches Some(mi) ==> (!self.found_in_own(root_token@, token@)
                ==> self.modules_seq()[mi as int].exports_spec(token@)),
    {
        match self.get_provider_in_module(token, root_token) {
            Some(loc) => Some(loc.module_index),
            None => None,
        }
    }

    /// When the requesting module declares the token itself, every
    /// phase-consistent resolution is the module's own provider: the
    /// lookup is pinned.
    pub proof fn lemma_lookup_consistent_own(self, root: Seq<char>, t: Seq<char>, mi: int, pi: int)
        requires
            self.wf(),
            self.found_in_own(root, t),
            self.lookup_consistent(root, t, mi, pi),
        ensures
            self.modules_seq()[mi] == self.module_spec(root),
            self.modules_seq()[mi].providers_seq()[pi] == self.module_spec(root).provider_spec(t),
            mi == self.module_index_spec(root),
            pi == self.module_spec(root).provider_index_spec(t),
    {
        assert(self.modules_seq()[mi].spec_token() == root);
        self.lemma_module_at_token(mi);
        self.modules_seq()[mi].lemma_provider_at_token(pi);
    }

    /// When the requester does not declare the token and exactly one
    /// module exports it, every phase-consistent resolution is that
    /// module's provider: the lookup is pinned to the sole exporter.
    pub proof fn lemma_lookup_consistent_sole_exporter(
        self,
        root: Seq<char>,
        t: Seq<char>,
        b: Seq<char>,
        mi: int,
        pi: int,
    )
        requires
            self.wf(),
            !self.found_in_own(root, t),
            self.has_module_spec(b),
            self.module_spec(b).exports_spec(t),
            forall|k: int|
                0 <= k < self.modules_seq().len() && (#[trigger] self.modules_seq()[k]).spec_token()
                    != b ==> !self.modules_seq()[k].exports_spec(t),
            self.lookup_consistent(root, t, mi, pi),
        ensures
            self.modules_seq()[mi].spec_token() == b,
            self.modules_seq()[mi] == self.module_spec(b),
            self.modules_seq()[mi].providers_seq()[pi] == self.module_spec(b).provider_spec(t),
    {
        assert(self.modules_seq()[mi].exports_spec(t));
        if self.modules_seq()[mi].spec_token() != b {
            assert(false);
        }
        self.lemma_module_at_token(mi);
        self.modules_seq()[mi].lemma_provider_at_token(pi);
    }

    /// Export visibility, negative half: a provider whose token is not
    /// marked exported by any module is unreachable from every module that
    /// does not declare it itself — import hops and global modules never
    /// expose an unexported provider.
    pub proof fn lemma_unexported_unreachable(self, root: Seq<char>, t: Seq<char>)
        requires
            self.wf(),
            !self.found_in_own(root, t),
            forall|m: int|
                0 <= m < self.modules_seq().len() ==> !(#[trigger] self.modules_seq()[m]).is_exported_spec(
                    t,
                ),
        ensures
            !self.provider_reachable(root, t),
    {
        assert forall|m: Seq<char>| !(#[trigger] self.exports_via(m, t)) by {
            if self.has_module_spec(m) {
                let i = self.module_index_spec(m);
                assert(!self.modules_seq()[i].is_exported_spec(t));
            }
        }
    }

    /// Export visibility, positive half: marking a provider exported makes
    /// it reachable through exactly one import hop.
    pub proof fn lemma_exported_reachable_via_import(self, root: Seq<char>, m: Seq<char>, t: Seq<
        char,
    >)
        requires
            self.wf(),
            self.has_module_spec(root),
            self.module_spec(root).has_related_spec(m),
            self.exports_via(m, t),
        ensures
            self.provider_reachable(root, t),
    {
        let i = choose|i: int|
            0 <= i < self.module_spec(root).related_seq().len() && self.module_spec(
                root,
            ).related_seq()[i] == m;
        assert(self.exports_via(self.module_spec(root).related_seq()[i], t));
        assert(self.found_in_related(root, t));
    }

    /// Global reachability: a provider exported by a global module is
    /// reachable from every module in the graph, with no explicit import.
    pub proof fn lemma_global_reachable(self, g: Seq<char>, t: Seq<char>)
        requires
            self.wf(),
            self.is_global_spec(g),
            self.module_spec(g).exports_spec(t),
        ensures
            forall|root: Seq<char>| #[trigger] self.provider_reachable(root, t),
    {
        let i = choose|i: int| 0 <= i < self.globals_seq().len() && self.globals_seq()[i] == g;
        assert(self.exports_via(self.globals_seq()[i], t));
        assert(self.found_in_globals(t));
    }
}

} // verus!
