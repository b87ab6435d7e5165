//! The resolved graph facade: an index from provider token to instance
//! links, and the top-level lookup that hands out singleton instances
//! cast to a requested interface. Also the orchestration of the three
//! startup phases: build (declare), init (create), link (wire).

use vstd::prelude::*;

use crate::builder::{Builder, BuilderContext};
use crate::compiler::ModuleCompiler;
use crate::cast::{Handle, TypeKey, Vtable};
use crate::container::Container;
use crate::errors::DiError;
use crate::instance_store::InstanceStore;
use crate::instance_wrapper::{Scope, STATIC_CONTEXT};

verus! {

/// One occurrence of a provider token: which module (by id and index)
/// hosts which of its wrappers. The same token in several modules yields
/// several links.
#[derive(Clone, Copy, PartialEq, Eq, Structural, Debug)]
pub struct InstanceLink {
    pub module_id: u64,
    pub module_index: usize,
    pub provider_index: usize,
}

impl InstanceLink {
    pub fn new(module_id: u64, module_index: usize, provider_index: usize) -> (r: InstanceLink)
        ensures
            r == (InstanceLink { module_id, module_index, provider_index }),
    {
        InstanceLink { module_id, module_index, provider_index }
    }
}

/// The links of one token.
pub struct LinkEntry {
    pub token: String,
    pub links: Vec<InstanceLink>,
}

/// The index from provider token to its instance links, built once after
/// init and link complete.
pub struct InstanceLinksHost {
    entries: Vec<LinkEntry>,
}

impl InstanceLinksHost {
    pub closed spec fn entries_seq(self) -> Seq<LinkEntry> {
        self.entries@
    }

    pub open spec fn has_links(self, t: Seq<char>) -> bool {
        exists|i: int| 0 <= i < self.entries_seq().len() && self.entries_seq()[i].token@ == t
    }

    pub open spec fn entry_index_spec(self, t: Seq<char>) -> int {
        choose|i: int| 0 <= i < self.entries_seq().len() && self.entries_seq()[i].token@ == t
    }

    /// The links recorded for `t` (meaningful when present).
    pub open spec fn links_spec(self, t: Seq<char>) -> Seq<InstanceLink> {
        self.entries_seq()[self.entry_index_spec(t)].links@
    }

    /// Entry tokens are unique and no entry is empty.
    pub open spec fn wf_entries(self) -> bool {
        &&& forall|i: int, j: int|
            0 <= i < j < self.entries_seq().len() ==> self.entries_seq()[i].token@
                != self.entries_seq()[j].token@
        &&& forall|i: int|
            0 <= i < self.entries_seq().len() ==> (#[trigger] self.entries_seq()[i]).links@.len()
                > 0
    }

    /// One link is a valid position of a provider with the entry's token.
    pub open spec fn link_ok(c: Container, t: Seq<char>, l: InstanceLink) -> bool {
        &&& l.module_index < c.modules_seq().len()
        &&& l.provider_index < c.modules_seq()[l.module_index as int].providers_seq().len()
        &&& c.modules_seq()[l.module_index as int].providers_seq()[l.provider_index as int].spec_token()
            == t
        &&& c.modules_seq()[l.module_index as int].spec_id() == l.module_id
    }

    /// Every recorded link points at a real provider with its token.
    pub open spec fn consistent_with(self, c: Container) -> bool {
        forall|i: int, k: int|
            0 <= i < self.entries_seq().len() && 0 <= k < self.entries_seq()[i].links@.len()
                ==> Self::link_ok(
                c,
                self.entries_seq()[i].token@,
                #[trigger] self.entries_seq()[i].links@[k],
            )
    }

    /// The provider at position (k, p) of the container has a link
    /// recorded under its token — the index is complete: one link per
    /// module declaring the token.
    pub open spec fn link_recorded(self, c: Container, k: int, p: int) -> bool {
        exists|li: int|
            0 <= li < self.links_spec(c.modules_seq()[k].providers_seq()[p].spec_token()).len()
                && #[trigger] self.links_spec(
                c.modules_seq()[k].providers_seq()[p].spec_token(),
            )[li] == (InstanceLink {
                module_id: c.modules_seq()[k].spec_id(),
                module_index: k as usize,
                provider_index: p as usize,
            })
    }

    pub fn new() -> (r: InstanceLinksHost)
        ensures
            r.entries_seq().len() == 0,
    {
        InstanceLinksHost { entries: Vec::new() }
    }

    fn find_entry(&self, token: &String) -> (r: Option<usize>)
        ensures
            r is Some <==> self.has_links(token@),
            r is Some ==> 0 <= r->0 < self.entries_seq().len()
                && self.entries_seq()[r->0 as int].token@ == token@,
    {
        let mut i: usize = 0;
        while i < self.entries.len()
            invariant
                i <= self.entries@.len(),
                forall|j: int| 0 <= j < i ==> self.entries@[j].token@ != token@,
            decreases self.entries@.len() - i,
        {
            if self.entries[i].token == *token {
                proof {
                    assert(self.entries_seq()[i as int].token@ == token@);
                    assert(self.has_links(token@));
                }
                return Some(i);
            }
            i += 1;
        }
        None
    }

    /// Record one link under its token.
    fn add_link(&mut self, container: &Container, token: String, link: InstanceLink)
        requires
            old(self).wf_entries(),
            old(self).consistent_with(*container),
            InstanceLinksHost::link_ok(*container, token@, link),
        ensures
            final(self).wf_entries(),
            final(self).consistent_with(*container),
            forall|t: Seq<char>|
                #[trigger] final(self).has_links(t) <==> (old(self).has_links(t) || t == token@),
            forall|t: Seq<char>|
                t != token@ && old(self).has_links(t) ==> #[trigger] final(self).links_spec(t)
                    == old(self).links_spec(t),
            old(self).has_links(token@) ==> final(self).links_spec(token@) == old(self).links_spec(
                token@,
            ).push(link),
            !old(self).has_links(token@) ==> final(self).links_spec(token@).len() == 1 && final(self).links_spec(token@)[0] == link,
    {
        let ghost tok = token@;
        match self.find_entry(&token) {
            Some(i) => {
                proof {
                    let j = self.entry_index_spec(tok);
                    if j != i as int {
                        assert(false);
                    }
                }
                let e = &mut self.entries[i];
                e.links.push(link);
                proof {
                    assert(self.entries@[i as int].token@ == tok);
                    assert forall|t: Seq<char>| #[trigger]
                        self.has_links(t) <==> (old(self).has_links(t) || t == tok) by {
                        if old(self).has_links(t) {
                            let j = choose|j: int|
                                0 <= j < old(self).entries_seq().len() && old(
                                    self,
                                ).entries_seq()[j].token@ == t;
                            assert(self.entries_seq()[j].token@ == t);
                        }
                        if self.has_links(t) {
                            let j = choose|j: int|
                                0 <= j < self.entries_seq().len() && self.entries_seq()[j].token@
                                    == t;
                            assert(old(self).entries_seq()[j].token@ == t);
                        }
                    }
                    assert forall|i2: int, j2: int|
                        0 <= i2 < j2 < self.entries_seq().len() implies self.entries_seq()[i2].token@
                        != self.entries_seq()[j2].token@ by {
                        assert(self.entries_seq()[i2].token@ == old(self).entries_seq()[i2].token@);
                        assert(self.entries_seq()[j2].token@ == old(self).entries_seq()[j2].token@);
                    }
                    assert forall|i2: int, k: int|
                        0 <= i2 < self.entries_seq().len() && 0 <= k
                            < self.entries_seq()[i2].links@.len() implies InstanceLinksHost::link_ok(
                        *container,
                        self.entries_seq()[i2].token@,
                        #[trigger] self.entries_seq()[i2].links@[k],
                    ) by {
                        if i2 != i as int {
                            assert(self.entries_seq()[i2] == old(self).entries_seq()[i2]);
                            assert(InstanceLinksHost::link_ok(
                                *container,
                                old(self).entries_seq()[i2].token@,
                                old(self).entries_seq()[i2].links@[k],
                            ));
                        } else {
                            if k < old(self).entries_seq()[i2].links@.len() {
                                assert(self.entries_seq()[i2].links@[k] == old(
                                    self,
                                ).entries_seq()[i2].links@[k]);
                                assert(InstanceLinksHost::link_ok(
                                    *container,
                                    old(self).entries_seq()[i2].token@,
                                    old(self).entries_seq()[i2].links@[k],
                                ));
                            } else {
                                assert(self.entries_seq()[i2].links@[k] == link);
                            }
                        }
                    }
                    let jf = self.entry_index_spec(tok);
                    assert(self.entries_seq()[i as int].token@ == tok);
                    if jf != i as int {
                        assert(false);
                    }
                    assert(self.links_spec(tok) == old(self).links_spec(tok).push(link));
                    assert forall|t: Seq<char>|
                        t != tok && old(self).has_links(t) implies #[trigger] self.links_spec(t)
                        == old(self).links_spec(t) by {
                        let j0 = old(self).entry_index_spec(t);
                        assert(0 <= j0 < old(self).entries_seq().len() && old(
                            self,
                        ).entries_seq()[j0].token@ == t);
                        assert(j0 != i as int);
                        assert(self.entries_seq()[j0].token@ == t);
                        let j1 = self.entry_index_spec(t);
                        assert(self.has_links(t));
                        assert(0 <= j1 < self.entries_seq().len() && self.entries_seq()[j1].token@
                            == t);
                        if j1 != j0 {
                            assert(old(self).entries_seq()[j1].token@ == t);
                            assert(false);
                        }
                        assert(self.entries_seq()[j1] == old(self).entries_seq()[j0]);
                    }
                }
            },
            None => {
                let mut links: Vec<InstanceLink> = Vec::new();
                links.push(link);
                self.entries.push(LinkEntry { token, links });
                proof {
                    let n = old(self).entries_seq().len() as int;
                    assert(self.entries_seq()[n].token@ == tok);
                    assert(self.entries_seq()[n].links@.len() == 1);
                    assert(self.entries_seq()[n].links@[0] == link);
                    assert forall|t: Seq<char>| #[trigger]
                        self.has_links(t) <==> (old(self).has_links(t) || t == tok) by {
                        if old(self).has_links(t) {
                            let j = choose|j: int|
                                0 <= j < old(self).entries_seq().len() && old(
                                    self,
                                ).entries_seq()[j].token@ == t;
                            assert(self.entries_seq()[j].token@ == t);
                        }
                        if self.has_links(t) && t != tok {
                            let j = choose|j: int|
                                0 <= j < self.entries_seq().len() && self.entries_seq()[j].token@
                                    == t;
                            assert(j != n);
                            assert(old(self).entries_seq()[j].token@ == t);
                        }
                    }
                    assert forall|i2: int, j2: int|
                        0 <= i2 < j2 < self.entries_seq().len() implies self.entries_seq()[i2].token@
                        != self.entries_seq()[j2].token@ by {
                        if j2 < n {
                            assert(old(self).entries_seq()[i2].token@ != old(
                                self,
                            ).entries_seq()[j2].token@);
                        } else {
                            if self.entries_seq()[i2].token@ == tok {
                                assert(old(self).entries_seq()[i2].token@ == tok);
                                assert(old(self).has_links(tok));
                            }
                        }
                    }
                    assert forall|i2: int, k: int|
                        0 <= i2 < self.entries_seq().len() && 0 <= k
                            < self.entries_seq()[i2].links@.len() implies InstanceLinksHost::link_ok(
                        *container,
                        self.entries_seq()[i2].token@,
                        #[trigger] self.entries_seq()[i2].links@[k],
                    ) by {
                        if i2 < n {
                            assert(self.entries_seq()[i2] == old(self).entries_seq()[i2]);
                            assert(InstanceLinksHost::link_ok(
                                *container,
                                old(self).entries_seq()[i2].token@,
                                old(self).entries_seq()[i2].links@[k],
                            ));
                        } else {
                            assert(self.entries_seq()[i2].links@[k] == link);
                        }
                    }
                    let jf = self.entry_index_spec(tok);
                    assert(self.has_links(tok));
                    assert(0 <= jf < self.entries_seq().len() && self.entries_seq()[jf].token@
                        == tok);
                    if jf != n {
                        assert(old(self).entries_seq()[jf].token@ == tok);
                        assert(false);
                    }
                    assert(self.links_spec(tok).len() == 1 && self.links_spec(tok)[0] == link);
                    assert forall|t: Seq<char>|
                        t != tok && old(self).has_links(t) implies #[trigger] self.links_spec(t)
                        == old(self).links_spec(t) by {
                        let j0 = old(self).entry_index_spec(t);
                        assert(0 <= j0 < old(self).entries_seq().len() && old(
                            self,
                        ).entries_seq()[j0].token@ == t);
                        assert(self.entries_seq()[j0].token@ == t);
                        let j1 = self.entry_index_spec(t);
                        assert(self.has_links(t));
                        assert(0 <= j1 < self.entries_seq().len() && self.entries_seq()[j1].token@
                            == t);
                        if j1 != j0 {
                            if j1 == n {
                                assert(false);
                            }
                            assert(old(self).entries_seq()[j1].token@ == t);
                            assert(false);
                        }
                        assert(self.entries_seq()[j1] == old(self).entries_seq()[j0]);
                    }
                }
            },
        }
    }

    /// Walk every module's providers and index them by token.
    pub fn init(&mut self, container: &Container)
        requires
            container.wf(),
            old(self).entries_seq().len() == 0,
        ensures
            final(self).wf_entries(),
            final(self).consistent_with(*container),
            forall|t: Seq<char>|
                #[trigger] final(self).has_links(t) <==> exists|i: int|
                    0 <= i < container.modules_seq().len() && (
                    #[trigger] container.modules_seq()[i]).has_provider_spec(t),
            forall|k: int, p: int|
                0 <= k < container.modules_seq().len() && 0 <= p
                    < container.modules_seq()[k].providers_seq().len() ==> #[trigger] final(self).link_recorded(*container, k, p),
    {
        let n = container.get_modules().len();
        let mut i: usize = 0;
        while i < n
            invariant
                container.wf(),
                n == container.modules_seq().len(),
                i <= n,
                self.wf_entries(),
                self.consistent_with(*container),
                forall|t: Seq<char>|
                    #[trigger] self.has_links(t) <==> exists|i2: int|
                        0 <= i2 < i && (#[trigger] container.modules_seq()[i2]).has_provider_spec(
                            t,
                        ),
                forall|k2: int, p2: int|
                    0 <= k2 < i && 0 <= p2 < container.modules_seq()[k2].providers_seq().len()
                        ==> #[trigger] self.link_recorded(*container, k2, p2),
            decreases n - i,
        {
            let mid = container.module_at(i).get_id();
            let pcount = container.module_at(i).get_providers().len();
            let mut p: usize = 0;
            while p < pcount
                invariant
                    container.wf(),
                    n == container.modules_seq().len(),
                    i < n,
                    p <= pcount,
                    pcount == container.modules_seq()[i as int].providers_seq().len(),
                    mid == container.modules_seq()[i as int].spec_id(),
                    self.wf_entries(),
                    self.consistent_with(*container),
                    forall|t: Seq<char>|
                        #[trigger] self.has_links(t) <==> ((exists|i2: int|
                            0 <= i2 < i && (
                            #[trigger] container.modules_seq()[i2]).has_provider_spec(t)) || (
                        exists|p2: int|
                            0 <= p2 < p
                                && (#[trigger] container.modules_seq()[i as int].providers_seq()[p2]).spec_token()
                                == t)),
                    forall|k2: int, p2: int|
                        0 <= k2 < i && 0 <= p2 < container.modules_seq()[k2].providers_seq().len()
                            ==> #[trigger] self.link_recorded(*container, k2, p2),
                    forall|p2: int|
                        0 <= p2 < p ==> #[trigger] self.link_recorded(*container, i as int, p2),
                decreases pcount - p,
            {
                let token = container.module_at(i).provider_at(p).get_token();
                let ghost tokv = token@;
                let ghost prev = *self;
                let newlink = InstanceLink { module_id: mid, module_index: i, provider_index: p };
                self.add_link(container, token, newlink);
                proof {
                    assert forall|k2: int, p2: int|
                        ((0 <= k2 < i && 0 <= p2 < container.modules_seq()[k2].providers_seq().len())
                            || (k2 == i && 0 <= p2 < p)) implies #[trigger] self.link_recorded(
                        *container,
                        k2,
                        p2,
                    ) by {
                        assert(prev.link_recorded(*container, k2, p2));
                        let t2 = container.modules_seq()[k2].providers_seq()[p2].spec_token();
                        let li = choose|li: int|
                            0 <= li < prev.links_spec(t2).len() && #[trigger] prev.links_spec(
                                t2,
                            )[li] == (InstanceLink {
                                module_id: container.modules_seq()[k2].spec_id(),
                                module_index: k2 as usize,
                                provider_index: p2 as usize,
                            });
                        assert(prev.has_links(t2)) by {
                            if !prev.has_links(t2) {
                                assert(prev.entry_index_spec(t2) == prev.entry_index_spec(t2));
                            }
                            assert(prev.link_recorded(*container, k2, p2));
                        }
                        if t2 == tokv {
                            assert(self.links_spec(t2) == prev.links_spec(t2).push(newlink));
                            assert(self.links_spec(t2)[li] == prev.links_spec(t2)[li]);
                        } else {
                            assert(self.links_spec(t2) == prev.links_spec(t2));
                        }
                    }
                    assert(self.link_recorded(*container, i as int, p as int)) by {
                        assert(container.modules_seq()[i as int].providers_seq()[p as int].spec_token()
                            == tokv);
                        if prev.has_links(tokv) {
                            let m = prev.links_spec(tokv).len() as int;
                            assert(self.links_spec(tokv)[m] == newlink);
                        } else {
                            assert(self.links_spec(tokv)[0] == newlink);
                        }
                    }
                }
                p += 1;
            }
            i += 1;
            proof {
                assert forall|t: Seq<char>| #[trigger]
                    self.has_links(t) <==> exists|i2: int|
                    0 <= i2 < i && (#[trigger] container.modules_seq()[i2]).has_provider_spec(
                        t,
                    ) by {
                    if self.has_links(t) {
                        assert((exists|i2: int|
                            0 <= i2 < i - 1 && (
                            #[trigger] container.modules_seq()[i2]).has_provider_spec(t)) || (
                        exists|p2: int|
                            0 <= p2 < pcount
                                && (#[trigger] container.modules_seq()[i - 1].providers_seq()[p2]).spec_token()
                                == t));
                        if exists|p2: int|
                            0 <= p2 < pcount
                                && (#[trigger] container.modules_seq()[i - 1].providers_seq()[p2]).spec_token()
                                == t {
                            assert(container.modules_seq()[i - 1].has_provider_spec(t));
                        }
                    }
                    if exists|i2: int|
                        0 <= i2 < i && (#[trigger] container.modules_seq()[i2]).has_provider_spec(
                            t,
                        ) {
                        let i2 = choose|i2: int|
                            0 <= i2 < i && (
                            #[trigger] container.modules_seq()[i2]).has_provider_spec(t);
                        if i2 == i - 1 {
                            let p2 = choose|p2: int|
                                0 <= p2 < container.modules_seq()[i2].providers_seq().len()
                                    && container.modules_seq()[i2].providers_seq()[p2].spec_token()
                                    == t;
                            assert((container.modules_seq()[i - 1].providers_seq()[p2]).spec_token()
                                == t);
                        }
                    }
                }
            }
        }
    }

    /// The links recorded for a token.
    pub fn get_by_token(&self, token: &String) -> (r: Option<&Vec<InstanceLink>>)
        requires
            self.wf_entries(),
        ensures
            r is Some <==> self.has_links(token@),
            r is Some ==> r->0@ == self.links_spec(token@),
    {
        match self.find_entry(token) {
            Some(i) => {
                proof {
                    let j = self.entry_index_spec(token@);
                    if j != i as int {
                        assert(false);
                    }
                }
                Some(&self.entries[i].links)
            },
            None => None,
        }
    }
}

/// The finished, queryable object graph.
pub struct BlackBoxApp {
    container: Container,
    links: InstanceLinksHost,
    vtable: Vtable,
    store: InstanceStore,
    buffer_logs: bool,
}

impl BlackBoxApp {
    pub closed spec fn spec_container(self) -> Container {
        self.container
    }

    pub closed spec fn spec_links(self) -> InstanceLinksHost {
        self.links
    }

    pub closed spec fn spec_vtable(self) -> Vtable {
        self.vtable
    }

    pub closed spec fn spec_store(self) -> InstanceStore {
        self.store
    }

    /// Whether the build asked the host to buffer startup log records
    /// until a logger is installed.
    pub closed spec fn spec_buffer_logs(self) -> bool {
        self.buffer_logs
    }

    pub fn should_buffer_logs(&self) -> (r: bool)
        ensures
            r == self.spec_buffer_logs(),
    {
        self.buffer_logs
    }

    /// Some module of the graph declares a provider under `t`.
    pub open spec fn registered(self, t: Seq<char>) -> bool {
        exists|i: int|
            0 <= i < self.spec_container().modules_seq().len() && (
            #[trigger] self.spec_container().modules_seq()[i]).has_provider_spec(t)
    }

    pub open spec fn wf(self) -> bool {
        &&& self.spec_container().wf()
        &&& self.spec_store().wf()
        &&& self.spec_links().wf_entries()
        &&& self.spec_links().consistent_with(self.spec_container())
        &&& forall|t: Seq<char>| #[trigger] self.spec_links().has_links(t) <==> self.registered(t)
        &&& forall|k: int, p: int|
            0 <= k < self.spec_container().modules_seq().len() && 0 <= p
                < self.spec_container().modules_seq()[k].providers_seq().len()
                ==> #[trigger] self.spec_links().link_recorded(self.spec_container(), k, p)
    }

    /// The wrapper the first link of `t` points at (meaningful when
    /// registered).
    pub open spec fn first_wrapper_spec(self, t: Seq<char>) -> crate::instance_wrapper::InstanceWrapper {
        let l = self.spec_links().links_spec(t)[0];
        self.spec_container().modules_seq()[l.module_index as int].providers_seq()[l.provider_index as int]
    }

    /// Index the fully built and wired graph.
    pub fn new(context: BuilderContext, buffer_logs: bool) -> (app: BlackBoxApp)
        requires
            context.wf(),
        ensures
            app.wf(),
            app.spec_container() == context.container,
            app.spec_vtable() == context.vtable,
            app.spec_store() == context.store,
            app.spec_buffer_logs() == buffer_logs,
    {
        let mut links = InstanceLinksHost::new();
        links.init(&context.container);
        let ghost lg = links;
        let app = BlackBoxApp {
            container: context.container,
            links,
            vtable: context.vtable,
            store: context.store,
            buffer_logs,
        };
        proof {
            assert forall|k: int, p: int|
                0 <= k < app.spec_container().modules_seq().len() && 0 <= p
                    < app.spec_container().modules_seq()[k].providers_seq().len()
                implies #[trigger] app.spec_links().link_recorded(app.spec_container(), k, p) by {
                assert(lg.link_recorded(context.container, k, p));
            }
            assert forall|t: Seq<char>| #[trigger]
                app.spec_links().has_links(t) <==> app.registered(t) by {
                if lg.has_links(t) {
                    let i = choose|i: int|
                        0 <= i < app.spec_container().modules_seq().len() && (
                        #[trigger] app.spec_container().modules_seq()[i]).has_provider_spec(t);
                    assert(app.registered(t));
                }
                if app.registered(t) {
                    let i = choose|i: int|
                        0 <= i < app.spec_container().modules_seq().len() && (
                        #[trigger] app.spec_container().modules_seq()[i]).has_provider_spec(t);
                    assert(lg.has_links(t));
                }
            }
        }
        app
    }

    /// Resolve the instance registered under `token`, cast to the
    /// interface `target`. Fails, identifying the token, when the token
    /// is not registered anywhere; and in this stricter variant also when
    /// the provider is not singleton-scoped (a transient provider has no
    /// single well-defined instance outside an inquirer context), when
    /// its instance was never created, or when no caster to `target` was
    /// registered. It never hands back an unrelated instance.
    pub fn get_by_token(&self, token: &String, target: TypeKey) -> (r: Result<Handle, DiError>)
        requires
            self.wf(),
        ensures
            r is Err && r->Err_0 is ProviderNotFound <==> !self.registered(token@),
            r is Ok <==> self.registered(token@) && self.first_wrapper_spec(token@).spec_scope()
                == Scope::Singleton && self.first_wrapper_spec(token@).has_cell(
                self.first_wrapper_spec(token@).spec_id(),
                STATIC_CONTEXT,
            ) && self.spec_vtable().has_caster(
                target,
                self.first_wrapper_spec(token@).cell_value(
                    self.first_wrapper_spec(token@).spec_id(),
                    STATIC_CONTEXT,
                ).concrete,
            ),
            r is Ok ==> r->Ok_0 == self.first_wrapper_spec(token@).cell_value(
                self.first_wrapper_spec(token@).spec_id(),
                STATIC_CONTEXT,
            ).retargeted(target),
            r is Err ==> r->Err_0.spec_token() == token@,
    {
        let links = match self.links.get_by_token(token) {
            Some(ls) => ls,
            None => {
                return Err(
                    DiError::ProviderNotFound { token: token.clone(), module: String::new() },
                );
            },
        };
        proof {
            let j = self.links.entry_index_spec(token@);
            assert(0 <= j < self.links.entries_seq().len() && self.links.entries_seq()[j].token@
                == token@);
            assert(self.links.entries_seq()[j].links@.len() > 0);
            assert(InstanceLinksHost::link_ok(
                self.container,
                token@,
                self.links.entries_seq()[j].links@[0],
            ));
        }
        let l = links[0];
        let w = self.container.module_at(l.module_index).provider_at(l.provider_index);
        let scope = w.get_scope();
        match scope {
            Scope::Singleton => {},
            _ => {
                return Err(DiError::InvalidScope { token: token.clone() });
            },
        }
        let h = match w.get_instance() {
            Some(h) => h,
            None => {
                return Err(DiError::InstanceNotFound { token: token.clone() });
            },
        };
        match h.cast(&self.vtable, target) {
            Ok(h2) => Ok(h2),
            Err(e) => Err(
                DiError::CastFailed { token: token.clone(), target: e.target, source: e.source },
            ),
        }
    }

    /// The dependency of instance `id` wired under `dep_token`, or `None`
    /// when that slot does not exist or was never assigned.
    pub fn get_dependency(&self, id: u64, dep_token: &String) -> (r: Option<Handle>)
        requires
            self.wf(),
        ensures
            r is Some <==> self.spec_store().slot_initialized(id, dep_token@),
            r is Some ==> r->0 == self.spec_store().slot_value(id, dep_token@),
    {
        self.store.get_slot(id, dep_token)
    }

    /// The modules of the graph, furthest from the root first: a
    /// permutation of all module indices in descending distance order.
    pub fn get_modules_sorted_by_distance(&self) -> (r: Vec<usize>)
        ensures
            r@.len() == self.spec_container().modules_seq().len(),
            forall|k: int|
                0 <= k < r@.len() ==> (#[trigger] r@[k]) < self.spec_container().modules_seq().len(),
            forall|a: int, b: int|
                0 <= a < b < r@.len() ==> self.spec_container().dist_at(r@[a])
                    >= self.spec_container().dist_at(r@[b]),
            forall|a: int, b: int| 0 <= a < b < r@.len() ==> r@[a] != r@[b],
            forall|m: int|
                0 <= m < self.spec_container().modules_seq().len() ==> #[trigger] r@.contains(
                    m as usize,
                ),
    {
        self.container.get_modules_sorted_by_distance()
    }

    pub fn get_container(&self) -> (r: &Container)
        ensures
            *r == self.spec_container(),
    {
        &self.container
    }
}

/// Options of the build pipeline.
pub struct BuildParams {
    buffer_logs: bool,
}

impl BuildParams {
    pub fn default() -> (p: BuildParams)
        ensures
            !p.spec_buffer_logs(),
    {
        BuildParams { buffer_logs: false }
    }

    pub closed spec fn spec_buffer_logs(self) -> bool {
        self.buffer_logs
    }

    /// Ask the host to buffer log records until a logger is installed.
    pub fn buffer_logs(self) -> (p: BuildParams)
        ensures
            p.spec_buffer_logs(),
    {
        BuildParams { buffer_logs: true }
    }

    pub fn should_buffer_logs(&self) -> (r: bool)
        ensures
            r == self.spec_buffer_logs(),
    {
        self.buffer_logs
    }
}

impl Builder {
    /// Index the finished graph, with startup-log buffering off.
    pub fn build(self) -> (app: BlackBoxApp)
        requires
            self.context.wf(),
        ensures
            app.wf(),
            app.spec_container() == self.context.container,
            app.spec_store() == self.context.store,
            app.spec_vtable() == self.context.vtable,
            !app.spec_buffer_logs(),
    {
        BlackBoxApp::new(self.context, false)
    }
}

/// Why the init phase cannot serve a registration for token `t` as seen
/// from module `mt`: the token resolves nowhere under the four-phase
/// search order, or a phase-consistent resolution carries the reserved
/// scope.
pub open spec fn init_token_fails(ctx: BuilderContext, mt: Seq<char>, t: Seq<char>) -> bool {
    ||| !ctx.container.provider_reachable(mt, t)
    ||| exists|mi: int, pi: int|
        #[trigger] ctx.container.lookup_consistent(mt, t, mi, pi)
            && ctx.container.modules_seq()[mi].providers_seq()[pi].spec_scope()
            == Scope::ContextDependent
}

/// The staged provider at (i, p) carries a token — its own, or one of
/// its recorded dependencies — that init cannot serve.
pub open spec fn init_step_fails(ctx: BuilderContext, i: int, p: int) -> bool {
    let mb = ctx.modules@[i];
    let pb = mb.providers_seq()[p];
    ||| init_token_fails(ctx, mb.spec_token(), pb.spec_token())
    ||| exists|d: int|
        0 <= d < pb.deps_seq().len() && #[trigger] init_token_fails(
            ctx,
            mb.spec_token(),
            pb.deps_seq()[d],
        )
}

/// Why the link phase cannot wire dependency token `t` of instance `h`
/// for the inquiring wrapper id `inq`: the token resolves nowhere, or a
/// phase-consistent resolution has the reserved scope or an empty scope
/// cell, or the dependent's record lacks the slot.
pub open spec fn link_token_fails(
    ctx: BuilderContext,
    mt: Seq<char>,
    inq: u64,
    t: Seq<char>,
    h: Handle,
) -> bool {
    ||| !ctx.container.provider_reachable(mt, t)
    ||| exists|mi: int, pi: int|
        #[trigger] ctx.container.lookup_consistent(mt, t, mi, pi) && (
        ctx.container.modules_seq()[mi].providers_seq()[pi].spec_scope()
            == Scope::ContextDependent || !ctx.container.modules_seq()[mi].providers_seq()[pi].has_cell(
            ctx.container.modules_seq()[mi].providers_seq()[pi].cell_key_inq(inq),
            STATIC_CONTEXT,
        ))
    ||| !(ctx.store.has_record(h.instance_id) && ctx.store.record_spec(h.instance_id).has_slot(t))
}

/// The staged provider at (i, p) has an instance and a recorded
/// dependency edge that link cannot wire — or one of its instances'
/// records carries a slot no recorded dependency edge covers.
pub open spec fn link_step_fails(ctx: BuilderContext, i: int, p: int) -> bool {
    let mb = ctx.modules@[i];
    let pb = mb.providers_seq()[p];
    let w = ctx.container.module_spec(mb.spec_token()).provider_spec(pb.spec_token());
    ||| exists|c: int, d: int|
        0 <= c < w.cells_seq().len() && 0 <= d < pb.deps_seq().len() && #[trigger] link_token_fails(
            ctx,
            mb.spec_token(),
            w.spec_id(),
            pb.deps_seq()[d],
            w.cells_seq()[c].instance,
        )
    ||| exists|c: int, t: Seq<char>|
        0 <= c < w.cells_seq().len() && ctx.store.has_record(
            w.cells_seq()[c].instance.instance_id,
        ) && (#[trigger] ctx.store.record_spec(w.cells_seq()[c].instance.instance_id).has_slot(t))
            && !pb.has_dep(t)
}

/// The provider staged at (i, p) has its own instance: the cell keyed by
/// its wrapper's own identity in the static context is populated.
/// Whatever the scope, a provider's own registration keys by its own
/// wrapper id.
pub open spec fn pb_instantiated(ctx: BuilderContext, i: int, p: int) -> bool {
    let mb = ctx.modules@[i];
    let pb = mb.providers_seq()[p];
    let w = ctx.container.module_spec(mb.spec_token()).provider_spec(pb.spec_token());
    w.has_cell(w.spec_id(), STATIC_CONTEXT)
}

/// Every provider staged in module builder `i` has its own instance.
pub open spec fn module_instantiated(ctx: BuilderContext, i: int) -> bool {
    forall|p: int|
        0 <= p < ctx.modules@[i].providers_seq().len() ==> #[trigger] pb_instantiated(ctx, i, p)
}

/// Every staged provider has its own instance: init is complete.
pub open spec fn all_instances_created(ctx: BuilderContext) -> bool {
    forall|i: int| 0 <= i < ctx.modules@.len() ==> #[trigger] module_instantiated(ctx, i)
}

/// Every provider wrapper of the container holds the cell keyed by its
/// own identity in the static context: the whole graph is created.
pub open spec fn fully_created(c: Container) -> bool {
    forall|k: int, p: int|
        0 <= k < c.modules_seq().len() && 0 <= p < c.modules_seq()[k].providers_seq().len()
            ==> (#[trigger] c.modules_seq()[k].providers_seq()[p]).has_cell(
            c.modules_seq()[k].providers_seq()[p].spec_id(),
            STATIC_CONTEXT,
        )
}

/// In a well-formed context, instantiating every staged provider creates
/// every provider of the container: the staging area covers the graph.
proof fn lemma_created_container(ctx: BuilderContext)
    requires
        ctx.wf(),
        all_instances_created(ctx),
    ensures
        fully_created(ctx.container),
{
    assert forall|k: int, p: int|
        0 <= k < ctx.container.modules_seq().len() && 0 <= p
            < ctx.container.modules_seq()[k].providers_seq().len() implies (
    #[trigger] ctx.container.modules_seq()[k].providers_seq()[p]).has_cell(
        ctx.container.modules_seq()[k].providers_seq()[p].spec_id(),
        STATIC_CONTEXT,
    ) by {
        let mt = ctx.container.modules_seq()[k].spec_token();
        let pt = ctx.container.modules_seq()[k].providers_seq()[p].spec_token();
        assert(crate::builder::has_builder_for_in(ctx.modules@, mt, pt));
        let bi = choose|bi: int|
            0 <= bi < ctx.modules@.len() && (#[trigger] ctx.modules@[bi]).spec_token() == mt
                && ctx.modules@[bi].has_pb(pt);
        let q = ctx.modules@[bi].pb_index_spec(pt);
        assert(0 <= q < ctx.modules@[bi].providers_seq().len()
            && ctx.modules@[bi].providers_seq()[q].spec_token() == pt);
        assert(module_instantiated(ctx, bi));
        assert(pb_instantiated(ctx, bi, q));
        ctx.container.lemma_module_at_token(k);
        ctx.container.modules_seq()[k].lemma_provider_at_token(p);
    }
}

/// An instantiated provider stays instantiated across any step that
/// keeps the graph shape and the staging area and only adds cells.
proof fn lemma_instantiated_monotone(pre: BuilderContext, post: BuilderContext)
    requires
        pre.wf(),
        post.wf(),
        post.modules@ == pre.modules@,
        Container::same_shape(pre.container, post.container),
        Container::cells_monotone(pre.container, post.container),
    ensures
        forall|i: int, p: int|
            0 <= i < pre.modules@.len() && 0 <= p < pre.modules@[i].providers_seq().len()
                && #[trigger] pb_instantiated(pre, i, p) ==> pb_instantiated(post, i, p),
        forall|i: int|
            0 <= i < pre.modules@.len() && #[trigger] module_instantiated(pre, i)
                ==> module_instantiated(post, i),
{
    assert forall|i: int, p: int|
        0 <= i < pre.modules@.len() && 0 <= p < pre.modules@[i].providers_seq().len()
            && #[trigger] pb_instantiated(pre, i, p) implies pb_instantiated(post, i, p) by {
        let mb = pre.modules@[i];
        let pb = mb.providers_seq()[p];
        let mt = mb.spec_token();
        let pt = pb.spec_token();
        assert(pre.container.has_module_spec(mt));
        let mi = pre.container.module_index_spec(mt);
        assert(0 <= mi < pre.container.modules_seq().len()
            && pre.container.modules_seq()[mi].spec_token() == mt);
        assert(post.container.modules_seq()[mi].spec_token() == mt);
        post.container.lemma_module_at_token(mi);
        assert(pre.container.module_spec(mt).has_provider_spec(pt));
        let pidx = pre.container.modules_seq()[mi].provider_index_spec(pt);
        assert(0 <= pidx < pre.container.modules_seq()[mi].providers_seq().len()
            && pre.container.modules_seq()[mi].providers_seq()[pidx].spec_token() == pt);
        assert(post.container.modules_seq()[mi].providers_seq()[pidx].same_identity(
            pre.container.modules_seq()[mi].providers_seq()[pidx],
        ));
        post.container.modules_seq()[mi].lemma_provider_at_token(pidx);
        let w_pre = pre.container.modules_seq()[mi].providers_seq()[pidx];
        let w_post = post.container.modules_seq()[mi].providers_seq()[pidx];
        assert(w_pre.has_cell(w_pre.spec_id(), STATIC_CONTEXT));
        assert(w_post.has_cell(w_pre.spec_id(), STATIC_CONTEXT));
        assert(w_post.spec_id() == w_pre.spec_id());
    }
    assert forall|i: int|
        0 <= i < pre.modules@.len() && #[trigger] module_instantiated(pre, i)
        implies module_instantiated(post, i) by {
        assert forall|p: int|
            0 <= p < post.modules@[i].providers_seq().len() implies #[trigger] pb_instantiated(
            post,
            i,
            p,
        ) by {
            assert(pb_instantiated(pre, i, p));
        }
    }
}

/// Ids the init phase may draw for one staged provider: one for its own
/// instance and one per recorded dependency.
pub open spec fn pb_work(pb: crate::builder::ProviderBuilder) -> int {
    1 + pb.deps_seq().len() as int
}

pub open spec fn module_work_prefix(mb: crate::builder::ModuleBuilder, p: int) -> int
    decreases p,
{
    if p <= 0 {
        0
    } else {
        module_work_prefix(mb, p - 1) + pb_work(mb.providers_seq()[p - 1])
    }
}

pub open spec fn module_work(mb: crate::builder::ModuleBuilder) -> int {
    module_work_prefix(mb, mb.providers_seq().len() as int)
}

pub open spec fn staged_work_prefix(bs: Seq<crate::builder::ModuleBuilder>, i: int) -> int
    decreases i,
{
    if i <= 0 {
        0
    } else {
        staged_work_prefix(bs, i - 1) + module_work(bs[i - 1])
    }
}

/// The most ids the init phase can draw: one per staged provider plus
/// one per recorded dependency edge.
pub open spec fn staged_work(ctx: BuilderContext) -> int {
    staged_work_prefix(ctx.modules@, ctx.modules@.len() as int)
}

proof fn lemma_module_work_mono(mb: crate::builder::ModuleBuilder, a: int, b: int)
    requires
        0 <= a <= b,
    ensures
        module_work_prefix(mb, a) <= module_work_prefix(mb, b),
    decreases b,
{
    if a < b {
        lemma_module_work_mono(mb, a, b - 1);
        assert(pb_work(mb.providers_seq()[b - 1]) >= 1);
    }
}

proof fn lemma_staged_work_mono(bs: Seq<crate::builder::ModuleBuilder>, a: int, b: int)
    requires
        0 <= a <= b,
    ensures
        staged_work_prefix(bs, a) <= staged_work_prefix(bs, b),
    decreases b,
{
    if a < b {
        lemma_staged_work_mono(bs, a, b - 1);
        lemma_module_work_mono(bs[b - 1], 0, bs[b - 1].providers_seq().len() as int);
    }
}

/// The work of a position within the walk never exceeds the total.
proof fn lemma_work_total(bs: Seq<crate::builder::ModuleBuilder>, i: int, p: int, n: int)
    requires
        0 <= i < n,
        n == bs.len(),
        0 <= p <= bs[i].providers_seq().len(),
    ensures
        staged_work_prefix(bs, i) + module_work_prefix(bs[i], p) <= staged_work_prefix(bs, n),
{
    lemma_module_work_mono(bs[i], p, bs[i].providers_seq().len() as int);
    assert(staged_work_prefix(bs, i + 1) == staged_work_prefix(bs, i) + module_work(bs[i]));
    lemma_staged_work_mono(bs, i + 1, n);
}

/// Init phase: for every staged provider, in registration order, create
/// (at most once per scope cell) its own instance and an instance of each
/// of its recorded dependencies, so that every transitively reachable
/// provider exists before any wiring happens.
pub fn init(builder: &mut Builder) -> (r: Result<(), DiError>)
    requires
        old(builder).context.wf(),
    ensures
        final(builder).context.wf(),
        final(builder).context.modules@ == old(builder).context.modules@,
        Container::same_shape(old(builder).context.container, final(builder).context.container),
        r is Ok ==> all_instances_created(final(builder).context),
        forall|id: u64, t: Seq<char>|
            #[trigger] final(builder).context.store.slot_initialized(id, t) == old(
                builder,
            ).context.store.slot_initialized(id, t),
        final(builder).context.next_id <= old(builder).context.next_id + staged_work(
            old(builder).context,
        ),
        r is Err ==> final(builder).context.next_id == u64::MAX || (exists|i: int, p: int|
            0 <= i < final(builder).context.modules@.len() && 0 <= p < final(builder).context.modules@[i].providers_seq().len() && #[trigger] init_step_fails(
                final(builder).context,
                i,
                p,
            )),
{
    let n = builder.context.modules.len();
    let mut i: usize = 0;
    while i < n
        invariant
            builder.context.wf(),
            n == builder.context.modules@.len(),
            builder.context.modules@ == old(builder).context.modules@,
            Container::same_shape(old(builder).context.container, builder.context.container),
            forall|id: u64, t: Seq<char>|
                #[trigger] builder.context.store.slot_initialized(id, t) == old(
                    builder,
                ).context.store.slot_initialized(id, t),
            builder.context.next_id <= old(builder).context.next_id + staged_work_prefix(
                builder.context.modules@,
                i as int,
            ),
            i <= n,
            forall|i2: int| 0 <= i2 < i ==> #[trigger] module_instantiated(builder.context, i2),
        decreases n - i,
    {
        let mtok = builder.context.modules[i].get_token();
        let pcount = builder.context.modules[i].get_providers().len();
        let mut p: usize = 0;
        while p < pcount
            invariant
                builder.context.wf(),
                n == builder.context.modules@.len(),
                builder.context.modules@ == old(builder).context.modules@,
                Container::same_shape(old(builder).context.container, builder.context.container),
                forall|id: u64, t: Seq<char>|
                    #[trigger] builder.context.store.slot_initialized(id, t) == old(
                        builder,
                    ).context.store.slot_initialized(id, t),
                builder.context.next_id <= old(builder).context.next_id + staged_work_prefix(
                    builder.context.modules@,
                    i as int,
                ) + module_work_prefix(builder.context.modules@[i as int], p as int),
                i < n,
                p <= pcount,
                pcount == builder.context.modules@[i as int].providers_seq().len(),
                mtok@ == builder.context.modules@[i as int].spec_token(),
                forall|i2: int| 0 <= i2 < i ==> #[trigger] module_instantiated(builder.context, i2),
                forall|p2: int|
                    0 <= p2 < p ==> #[trigger] pb_instantiated(builder.context, i as int, p2),
            decreases pcount - p,
        {
            let ptok = builder.context.modules[i].get_providers()[p].get_token();
            if builder.context.next_id == u64::MAX {
                proof {
                    let bs = builder.context.modules@;
                    lemma_work_total(bs, i as int, p as int, n as int);
                    assert(old(builder).context.modules@ == bs);
                }
                return Err(DiError::IdOverflow { token: ptok });
            }
            let ghost before = builder.context;
            proof {
                assert(before.container.has_module_spec(mtok@));
                assert(before.container.module_spec(mtok@).has_provider_spec(
                    (before.modules@[i as int].providers_seq()[p as int]).spec_token(),
                ));
                assert(before.container.found_in_own(mtok@, ptok@));
            }
            let own_result = builder.context.register_instance_by_token(&mtok, &ptok, &ptok);
            proof {
                Container::lemma_same_shape_trans(
                    old(builder).context.container,
                    before.container,
                    builder.context.container,
                );
                lemma_instantiated_monotone(before, builder.context);
                assert forall|id2: u64, t2: Seq<char>|
                    #[trigger] builder.context.store.slot_initialized(id2, t2) == old(
                    builder,
                ).context.store.slot_initialized(id2, t2) by {
                    assert(before.store.slot_initialized(id2, t2) == old(
                        builder,
                    ).context.store.slot_initialized(id2, t2));
                    assert(builder.context.store.slot_initialized(id2, t2)
                        == before.store.slot_initialized(id2, t2));
                }
                assert forall|i2: int| 0 <= i2 < i implies #[trigger] module_instantiated(
                    builder.context,
                    i2,
                ) by {
                    assert(module_instantiated(before, i2));
                }
                assert forall|p2: int| 0 <= p2 < p implies #[trigger] pb_instantiated(
                    builder.context,
                    i as int,
                    p2,
                ) by {
                    assert(pb_instantiated(before, i as int, p2));
                }
            }
            match own_result {
                Ok(()) => {},
                Err(e) => {
                    proof {
                        assert(init_token_fails(builder.context, mtok@, ptok@)) by {
                            if builder.context.container.provider_reachable(mtok@, ptok@) {
                                let (mi, pi) = choose|mi: int, pi: int|
                                    #[trigger] before.container.lookup_consistent(
                                        mtok@,
                                        ptok@,
                                        mi,
                                        pi,
                                    ) && before.container.modules_seq()[mi].providers_seq()[pi].spec_scope()
                                        == Scope::ContextDependent;
                                assert(builder.context.container.lookup_consistent(
                                    mtok@,
                                    ptok@,
                                    mi,
                                    pi,
                                ));
                            }
                        }
                        assert(init_step_fails(builder.context, i as int, p as int));
                        let bs = builder.context.modules@;
                        assert(module_work_prefix(bs[i as int], p as int + 1)
                            == module_work_prefix(bs[i as int], p as int) + pb_work(
                            bs[i as int].providers_seq()[p as int],
                        ));
                        assert(pb_work(bs[i as int].providers_seq()[p as int]) >= 1);
                        lemma_work_total(bs, i as int, p as int + 1, n as int);
                        assert(old(builder).context.modules@ == bs);
                    }
                    return Err(e);
                },
            }
            proof {
                // The own registration keys the cell by the provider's own
                // wrapper id, whatever its scope.
                let w = builder.context.container.module_spec(mtok@).provider_spec(ptok@);
                assert(w.cell_key_inq(before.container.module_spec(mtok@).provider_spec(
                    ptok@,
                ).spec_id()) == w.spec_id());
                assert(pb_instantiated(builder.context, i as int, p as int));
            }
            let dcount = builder.context.modules[i].get_providers()[p].get_deps().len();
            let mut d: usize = 0;
            while d < dcount
                invariant
                    builder.context.wf(),
                    n == builder.context.modules@.len(),
                    builder.context.modules@ == old(builder).context.modules@,
                    Container::same_shape(
                        old(builder).context.container,
                        builder.context.container,
                    ),
                    forall|id: u64, t: Seq<char>|
                        #[trigger] builder.context.store.slot_initialized(id, t) == old(
                            builder,
                        ).context.store.slot_initialized(id, t),
                    builder.context.next_id <= old(builder).context.next_id + staged_work_prefix(
                        builder.context.modules@,
                        i as int,
                    ) + module_work_prefix(builder.context.modules@[i as int], p as int) + 1
                        + d as int,
                    i < n,
                    p < pcount,
                    d <= dcount,
                    pcount == builder.context.modules@[i as int].providers_seq().len(),
                    dcount == builder.context.modules@[i as int].providers_seq()[p as int].deps_seq().len(),
                    mtok@ == builder.context.modules@[i as int].spec_token(),
                    ptok@ == builder.context.modules@[i as int].providers_seq()[p as int].spec_token(),
                    forall|i2: int|
                        0 <= i2 < i ==> #[trigger] module_instantiated(builder.context, i2),
                    forall|p2: int|
                        0 <= p2 < p ==> #[trigger] pb_instantiated(builder.context, i as int, p2),
                    pb_instantiated(builder.context, i as int, p as int),
                decreases dcount - d,
            {
                let dtok = builder.context.modules[i].get_providers()[p].get_deps()[d].clone();
                if builder.context.next_id == u64::MAX {
                    proof {
                        let bs = builder.context.modules@;
                        assert(module_work_prefix(bs[i as int], p as int + 1)
                            == module_work_prefix(bs[i as int], p as int) + pb_work(
                            bs[i as int].providers_seq()[p as int],
                        ));
                        lemma_work_total(bs, i as int, p as int + 1, n as int);
                        assert(old(builder).context.modules@ == bs);
                    }
                    return Err(DiError::IdOverflow { token: dtok });
                }
                let ghost before = builder.context;
                proof {
                    assert(dtok@ == before.modules@[i as int].providers_seq()[
                        p as int
                    ].deps_seq()[d as int]);
                    assert(before.container.has_module_spec(mtok@));
                    assert(before.container.module_spec(mtok@).has_provider_spec(
                        (before.modules@[i as int].providers_seq()[p as int]).spec_token(),
                    ));
                }
                let dep_result = builder.context.register_instance_by_token(&mtok, &ptok, &dtok);
                proof {
                    Container::lemma_same_shape_trans(
                        old(builder).context.container,
                        before.container,
                        builder.context.container,
                    );
                    lemma_instantiated_monotone(before, builder.context);
                    assert forall|id2: u64, t2: Seq<char>|
                        #[trigger] builder.context.store.slot_initialized(id2, t2) == old(
                        builder,
                    ).context.store.slot_initialized(id2, t2) by {
                        assert(before.store.slot_initialized(id2, t2) == old(
                            builder,
                        ).context.store.slot_initialized(id2, t2));
                        assert(builder.context.store.slot_initialized(id2, t2)
                            == before.store.slot_initialized(id2, t2));
                    }
                    assert forall|i2: int| 0 <= i2 < i implies #[trigger] module_instantiated(
                        builder.context,
                        i2,
                    ) by {
                        assert(module_instantiated(before, i2));
                    }
                    assert forall|p2: int| 0 <= p2 < p implies #[trigger] pb_instantiated(
                        builder.context,
                        i as int,
                        p2,
                    ) by {
                        assert(pb_instantiated(before, i as int, p2));
                    }
                    assert(pb_instantiated(builder.context, i as int, p as int)) by {
                        assert(pb_instantiated(before, i as int, p as int));
                    }
                }
                match dep_result {
                    Ok(()) => {},
                    Err(e) => {
                        proof {
                            assert(init_token_fails(builder.context, mtok@, dtok@)) by {
                                if builder.context.container.provider_reachable(mtok@, dtok@) {
                                    let (mi, pi) = choose|mi: int, pi: int|
                                        #[trigger] before.container.lookup_consistent(
                                            mtok@,
                                            dtok@,
                                            mi,
                                            pi,
                                        ) && before.container.modules_seq()[mi].providers_seq()[pi].spec_scope()
                                            == Scope::ContextDependent;
                                    assert(builder.context.container.lookup_consistent(
                                        mtok@,
                                        dtok@,
                                        mi,
                                        pi,
                                    ));
                                }
                            }
                            assert(init_step_fails(builder.context, i as int, p as int)) by {
                                assert(init_token_fails(
                                    builder.context,
                                    builder.context.modules@[i as int].spec_token(),
                                    builder.context.modules@[i as int].providers_seq()[
                                        p as int
                                    ].deps_seq()[d as int],
                                ));
                            }
                            let bs = builder.context.modules@;
                            assert(module_work_prefix(bs[i as int], p as int + 1)
                                == module_work_prefix(bs[i as int], p as int) + pb_work(
                                bs[i as int].providers_seq()[p as int],
                            ));
                            lemma_work_total(bs, i as int, p as int + 1, n as int);
                            assert(old(builder).context.modules@ == bs);
                        }
                        return Err(e);
                    },
                }
                d += 1;
            }
            proof {
                let bs = builder.context.modules@;
                assert(module_work_prefix(bs[i as int], p as int + 1) == module_work_prefix(
                    bs[i as int],
                    p as int,
                ) + pb_work(bs[i as int].providers_seq()[p as int]));
            }
            p += 1;
        }
        proof {
            assert(module_instantiated(builder.context, i as int));
            let bs = builder.context.modules@;
            assert(staged_work_prefix(bs, i as int + 1) == staged_work_prefix(bs, i as int)
                + module_work(bs[i as int]));
        }
        i += 1;
    }
    proof {
        assert(all_instances_created(builder.context));
        assert(old(builder).context.modules@ == builder.context.modules@);
    }
    Ok(())
}

/// Dependency edge `d` of the instance in cell `c` of the staged
/// provider (i, p) has been assigned in the arena.
pub open spec fn edge_wired(ctx: BuilderContext, i: int, p: int, c: int, d: int) -> bool {
    let mb = ctx.modules@[i];
    let pb = mb.providers_seq()[p];
    let w = ctx.container.module_spec(mb.spec_token()).provider_spec(pb.spec_token());
    ctx.store.slot_initialized(w.cells_seq()[c].instance.instance_id, pb.deps_seq()[d])
}

/// Every dependency edge of the instance in cell `c` is assigned.
pub open spec fn inst_wired(ctx: BuilderContext, i: int, p: int, c: int) -> bool {
    forall|d: int|
        0 <= d < ctx.modules@[i].providers_seq()[p].deps_seq().len() ==> #[trigger] edge_wired(
            ctx,
            i,
            p,
            c,
            d,
        )
}

/// Every existing instance of the staged provider (i, p) is fully wired.
pub open spec fn pb_wired(ctx: BuilderContext, i: int, p: int) -> bool {
    forall|c: int|
        0 <= c < ctx.container.module_spec(ctx.modules@[i].spec_token()).provider_spec(
            ctx.modules@[i].providers_seq()[p].spec_token(),
        ).cells_seq().len() ==> #[trigger] inst_wired(ctx, i, p, c)
}

/// Every provider staged in module builder `i` is fully wired.
pub open spec fn module_wired(ctx: BuilderContext, i: int) -> bool {
    forall|p: int|
        0 <= p < ctx.modules@[i].providers_seq().len() ==> #[trigger] pb_wired(ctx, i, p)
}

/// Every recorded dependency edge of every existing instance of every
/// staged provider is assigned: the whole graph is wired.
pub open spec fn all_edges_wired(ctx: BuilderContext) -> bool {
    forall|i: int| 0 <= i < ctx.modules@.len() ==> #[trigger] module_wired(ctx, i)
}

/// Every slot of the record behind cell `c` of the staged provider
/// (i, p) is assigned.
pub open spec fn staged_record_wired(ctx: BuilderContext, i: int, p: int, c: int) -> bool {
    let mb = ctx.modules@[i];
    let pb = mb.providers_seq()[p];
    let w = ctx.container.module_spec(mb.spec_token()).provider_spec(pb.spec_token());
    forall|t: Seq<char>|
        ctx.store.has_record(w.cells_seq()[c].instance.instance_id) && (
        #[trigger] ctx.store.record_spec(w.cells_seq()[c].instance.instance_id).has_slot(t))
            ==> ctx.store.slot_initialized(w.cells_seq()[c].instance.instance_id, t)
}

/// Every instance of the staged provider (i, p) has a fully assigned
/// record.
pub open spec fn pb_records_wired(ctx: BuilderContext, i: int, p: int) -> bool {
    forall|c: int|
        0 <= c < ctx.container.module_spec(ctx.modules@[i].spec_token()).provider_spec(
            ctx.modules@[i].providers_seq()[p].spec_token(),
        ).cells_seq().len() ==> #[trigger] staged_record_wired(ctx, i, p, c)
}

pub open spec fn module_records_wired(ctx: BuilderContext, i: int) -> bool {
    forall|p: int|
        0 <= p < ctx.modules@[i].providers_seq().len() ==> #[trigger] pb_records_wired(ctx, i, p)
}

pub open spec fn all_records_wired(ctx: BuilderContext) -> bool {
    forall|i: int| 0 <= i < ctx.modules@.len() ==> #[trigger] module_records_wired(ctx, i)
}

/// Every slot of every record an instance cell of the container points
/// at is assigned: the graph handed out is wired through.
pub open spec fn cell_record_wired(
    c: Container,
    s: InstanceStore,
    k: int,
    p: int,
    ci: int,
) -> bool {
    forall|t: Seq<char>|
        s.has_record(c.modules_seq()[k].providers_seq()[p].cells_seq()[ci].instance.instance_id)
            && (#[trigger] s.record_spec(
            c.modules_seq()[k].providers_seq()[p].cells_seq()[ci].instance.instance_id,
        ).has_slot(t)) ==> s.slot_initialized(
            c.modules_seq()[k].providers_seq()[p].cells_seq()[ci].instance.instance_id,
            t,
        )
}

pub open spec fn fully_wired(c: Container, s: InstanceStore) -> bool {
    forall|k: int, p: int, ci: int|
        0 <= k < c.modules_seq().len() && 0 <= p < c.modules_seq()[k].providers_seq().len() && 0
            <= ci < c.modules_seq()[k].providers_seq()[p].cells_seq().len()
            ==> #[trigger] cell_record_wired(c, s, k, p, ci)
}

/// A wired record stays wired across any step that keeps the graph, the
/// staging area, the record population and the slot layout, and only
/// adds assignments.
proof fn lemma_records_wired_monotone(pre: BuilderContext, post: BuilderContext)
    requires
        post.container == pre.container,
        post.modules@ == pre.modules@,
        forall|id: u64| #[trigger] post.store.has_record(id) == pre.store.has_record(id),
        forall|id: u64, t2: Seq<char>|
            #[trigger] pre.store.slot_initialized(id, t2) ==> post.store.slot_initialized(id, t2),
        forall|id: u64, t2: Seq<char>|
            pre.store.has_record(id) ==> (#[trigger] post.store.record_spec(id).has_slot(t2))
                == pre.store.record_spec(id).has_slot(t2),
    ensures
        forall|i: int| #[trigger] module_records_wired(pre, i) ==> module_records_wired(post, i),
        forall|i: int, p: int|
            #[trigger] pb_records_wired(pre, i, p) ==> pb_records_wired(post, i, p),
        forall|i: int, p: int, c: int|
            #[trigger] staged_record_wired(pre, i, p, c) ==> staged_record_wired(post, i, p, c),
{
    assert forall|i: int, p: int, c: int| #[trigger]
        staged_record_wired(pre, i, p, c) implies staged_record_wired(post, i, p, c) by {
        let mb = post.modules@[i];
        let pb = mb.providers_seq()[p];
        let w = post.container.module_spec(mb.spec_token()).provider_spec(pb.spec_token());
        let id = w.cells_seq()[c].instance.instance_id;
        assert forall|t: Seq<char>|
            post.store.has_record(id) && (#[trigger] post.store.record_spec(id).has_slot(t))
            implies post.store.slot_initialized(id, t) by {
            assert(pre.store.has_record(id));
            assert(pre.store.record_spec(id).has_slot(t));
            assert(pre.store.slot_initialized(id, t));
        }
    }
    assert forall|i: int, p: int| #[trigger]
        pb_records_wired(pre, i, p) implies pb_records_wired(post, i, p) by {
        assert forall|c: int|
            0 <= c < post.container.module_spec(post.modules@[i].spec_token()).provider_spec(
                post.modules@[i].providers_seq()[p].spec_token(),
            ).cells_seq().len() implies #[trigger] staged_record_wired(post, i, p, c) by {
            assert(staged_record_wired(pre, i, p, c));
        }
    }
    assert forall|i: int| #[trigger]
        module_records_wired(pre, i) implies module_records_wired(post, i) by {
        assert forall|p: int|
            0 <= p < post.modules@[i].providers_seq().len() implies #[trigger] pb_records_wired(
            post,
            i,
            p,
        ) by {
            assert(pb_records_wired(pre, i, p));
        }
    }
}

/// In a well-formed context where every staged provider's records are
/// fully assigned, every record a container cell points at is assigned:
/// the staging area covers the graph.
proof fn lemma_wired_container(ctx: BuilderContext)
    requires
        ctx.wf(),
        all_records_wired(ctx),
    ensures
        fully_wired(ctx.container, ctx.store),
{
    assert forall|k: int, p: int, ci: int|
        0 <= k < ctx.container.modules_seq().len() && 0 <= p
            < ctx.container.modules_seq()[k].providers_seq().len() && 0 <= ci
            < ctx.container.modules_seq()[k].providers_seq()[p].cells_seq().len() implies #[trigger] cell_record_wired(
        ctx.container,
        ctx.store,
        k,
        p,
        ci,
    ) by {
        let mt = ctx.container.modules_seq()[k].spec_token();
        let pt = ctx.container.modules_seq()[k].providers_seq()[p].spec_token();
        assert(crate::builder::has_builder_for_in(ctx.modules@, mt, pt));
        let bi = choose|bi: int|
            0 <= bi < ctx.modules@.len() && (#[trigger] ctx.modules@[bi]).spec_token() == mt
                && ctx.modules@[bi].has_pb(pt);
        let q = ctx.modules@[bi].pb_index_spec(pt);
        assert(0 <= q < ctx.modules@[bi].providers_seq().len()
            && ctx.modules@[bi].providers_seq()[q].spec_token() == pt);
        ctx.container.lemma_module_at_token(k);
        ctx.container.modules_seq()[k].lemma_provider_at_token(p);
        assert(module_records_wired(ctx, bi));
        assert(pb_records_wired(ctx, bi, q));
        assert(staged_record_wired(ctx, bi, q, ci));
    }
}

/// Wiring already done survives any later step that keeps the graph and
/// the staging area and only adds slot assignments.
proof fn lemma_wired_monotone(pre: BuilderContext, post: BuilderContext)
    requires
        post.container == pre.container,
        post.modules@ == pre.modules@,
        forall|id: u64, t2: Seq<char>|
            #[trigger] pre.store.slot_initialized(id, t2) ==> post.store.slot_initialized(id, t2),
    ensures
        forall|i: int| #[trigger] module_wired(pre, i) ==> module_wired(post, i),
        forall|i: int, p: int| #[trigger] pb_wired(pre, i, p) ==> pb_wired(post, i, p),
        forall|i: int, p: int, c: int|
            #[trigger] inst_wired(pre, i, p, c) ==> inst_wired(post, i, p, c),
        forall|i: int, p: int, c: int, d: int|
            #[trigger] edge_wired(pre, i, p, c, d) ==> edge_wired(post, i, p, c, d),
{
    assert forall|i: int, p: int, c: int, d: int| #[trigger]
        edge_wired(pre, i, p, c, d) implies edge_wired(post, i, p, c, d) by {}
    assert forall|i: int, p: int, c: int| #[trigger]
        inst_wired(pre, i, p, c) implies inst_wired(post, i, p, c) by {
        assert forall|d: int|
            0 <= d < post.modules@[i].providers_seq()[p].deps_seq().len() implies #[trigger] edge_wired(
            post,
            i,
            p,
            c,
            d,
        ) by {
            assert(edge_wired(pre, i, p, c, d));
        }
    }
    assert forall|i: int, p: int| #[trigger] pb_wired(pre, i, p) implies pb_wired(post, i, p) by {
        assert forall|c: int|
            0 <= c < post.container.module_spec(post.modules@[i].spec_token()).provider_spec(
                post.modules@[i].providers_seq()[p].spec_token(),
            ).cells_seq().len() implies #[trigger] inst_wired(post, i, p, c) by {
            assert(inst_wired(pre, i, p, c));
        }
    }
    assert forall|i: int| #[trigger] module_wired(pre, i) implies module_wired(post, i) by {
        assert forall|p: int|
            0 <= p < post.modules@[i].providers_seq().len() implies #[trigger] pb_wired(
            post,
            i,
            p,
        ) by {
            assert(pb_wired(pre, i, p));
        }
    }
}

/// Link phase: for every staged provider, for every instance it already
/// has, wire every recorded dependency edge into that instance's slot.
/// Creation is over, so mutually dependent providers wire cleanly.
pub fn link(builder: &mut Builder) -> (r: Result<(), DiError>)
    requires
        old(builder).context.wf(),
    ensures
        final(builder).context.wf(),
        final(builder).context.modules@ == old(builder).context.modules@,
        final(builder).context.container == old(builder).context.container,
        r is Ok ==> all_edges_wired(final(builder).context),
        r is Ok ==> fully_wired(final(builder).context.container, final(builder).context.store),
        forall|id: u64|
            #[trigger] final(builder).context.store.has_record(id) == old(
                builder,
            ).context.store.has_record(id),
        forall|id: u64, t: Seq<char>|
            #[trigger] old(builder).context.store.slot_initialized(id, t) ==> final(builder).context.store.slot_initialized(id, t),
        r is Err ==> exists|i: int, p: int|
            0 <= i < final(builder).context.modules@.len() && 0 <= p < final(builder).context.modules@[i].providers_seq().len()
                && #[trigger] link_step_fails(final(builder).context, i, p),
{
    let n = builder.context.modules.len();
    let mut i: usize = 0;
    while i < n
        invariant
            builder.context.wf(),
            n == builder.context.modules@.len(),
            builder.context.modules@ == old(builder).context.modules@,
            builder.context.container == old(builder).context.container,
            forall|id: u64|
                #[trigger] builder.context.store.has_record(id) == old(
                    builder,
                ).context.store.has_record(id),
            forall|id: u64, t: Seq<char>|
                #[trigger] old(builder).context.store.slot_initialized(id, t)
                    ==> builder.context.store.slot_initialized(id, t),
            i <= n,
            forall|i2: int| 0 <= i2 < i ==> #[trigger] module_wired(builder.context, i2),
            forall|i2: int| 0 <= i2 < i ==> #[trigger] module_records_wired(builder.context, i2),
        decreases n - i,
    {
        let mtok = builder.context.modules[i].get_token();
        let pcount = builder.context.modules[i].get_providers().len();
        let mut p: usize = 0;
        while p < pcount
            invariant
                builder.context.wf(),
                n == builder.context.modules@.len(),
                builder.context.modules@ == old(builder).context.modules@,
                builder.context.container == old(builder).context.container,
                forall|id: u64|
                    #[trigger] builder.context.store.has_record(id) == old(
                        builder,
                    ).context.store.has_record(id),
                forall|id: u64, t: Seq<char>|
                    #[trigger] old(builder).context.store.slot_initialized(id, t)
                        ==> builder.context.store.slot_initialized(id, t),
                i < n,
                p <= pcount,
                pcount == builder.context.modules@[i as int].providers_seq().len(),
                mtok@ == builder.context.modules@[i as int].spec_token(),
                forall|i2: int| 0 <= i2 < i ==> #[trigger] module_wired(builder.context, i2),
                forall|p2: int| 0 <= p2 < p ==> #[trigger] pb_wired(builder.context, i as int, p2),
                forall|i2: int|
                    0 <= i2 < i ==> #[trigger] module_records_wired(builder.context, i2),
                forall|p2: int|
                    0 <= p2 < p ==> #[trigger] pb_records_wired(builder.context, i as int, p2),
            decreases pcount - p,
        {
            let ptok = builder.context.modules[i].get_providers()[p].get_token();
            let mi2 = match builder.context.container.find_module(&mtok) {
                Some(x) => x,
                None => {
                    proof {
                        assert(builder.context.container.has_module_spec(
                            builder.context.modules@[i as int].spec_token(),
                        ));
                        assert(false);
                    }
                    return Err(DiError::ModuleNotFound { token: mtok });
                },
            };
            proof {
                builder.context.container.lemma_module_at_token(mi2 as int);
            }
            let pi2 = match builder.context.container.module_at(mi2).find_provider_index(&ptok) {
                Some(x) => x,
                None => {
                    proof {
                        assert(builder.context.container.module_spec(mtok@).has_provider_spec(
                            (builder.context.modules@[i as int].providers_seq()[p as int]).spec_token(),
                        ));
                        assert(false);
                    }
                    return Err(DiError::ProviderNotFound { token: ptok, module: mtok });
                },
            };
            proof {
                builder.context.container.modules_seq()[mi2 as int].lemma_provider_at_token(
                    pi2 as int,
                );
            }
            let instances = builder.context.container.module_at(mi2).provider_at(
                pi2,
            ).get_instances();
            let icount = instances.len();
            let mut k: usize = 0;
            while k < icount
                invariant
                    builder.context.wf(),
                    n == builder.context.modules@.len(),
                    builder.context.modules@ == old(builder).context.modules@,
                    builder.context.container == old(builder).context.container,
                    forall|id: u64|
                        #[trigger] builder.context.store.has_record(id) == old(
                            builder,
                        ).context.store.has_record(id),
                    forall|id: u64, t: Seq<char>|
                        #[trigger] old(builder).context.store.slot_initialized(id, t)
                            ==> builder.context.store.slot_initialized(id, t),
                    i < n,
                    p < pcount,
                    k <= icount,
                    icount == instances@.len(),
                    pcount == builder.context.modules@[i as int].providers_seq().len(),
                    mtok@ == builder.context.modules@[i as int].spec_token(),
                    ptok@ == builder.context.modules@[i as int].providers_seq()[p as int].spec_token(),
                    icount == builder.context.container.module_spec(mtok@).provider_spec(
                        ptok@,
                    ).cells_seq().len(),
                    forall|c: int|
                        0 <= c < icount ==> instances@[c]
                            == builder.context.container.module_spec(mtok@).provider_spec(
                            ptok@,
                        ).cells_seq()[c].instance,
                    forall|i2: int| 0 <= i2 < i ==> #[trigger] module_wired(builder.context, i2),
                    forall|p2: int|
                        0 <= p2 < p ==> #[trigger] pb_wired(builder.context, i as int, p2),
                    forall|c2: int|
                        0 <= c2 < k ==> #[trigger] inst_wired(
                            builder.context,
                            i as int,
                            p as int,
                            c2,
                        ),
                    forall|i2: int|
                        0 <= i2 < i ==> #[trigger] module_records_wired(builder.context, i2),
                    forall|p2: int|
                        0 <= p2 < p ==> #[trigger] pb_records_wired(builder.context, i as int, p2),
                    forall|c2: int|
                        0 <= c2 < k ==> #[trigger] staged_record_wired(
                            builder.context,
                            i as int,
                            p as int,
                            c2,
                        ),
                decreases icount - k,
            {
                let inst = instances[k];
                let dcount = builder.context.modules[i].get_providers()[p].get_deps().len();
                let mut d: usize = 0;
                while d < dcount
                    invariant
                        builder.context.wf(),
                        n == builder.context.modules@.len(),
                        builder.context.modules@ == old(builder).context.modules@,
                        builder.context.container == old(builder).context.container,
                        forall|id: u64|
                            #[trigger] builder.context.store.has_record(id) == old(
                                builder,
                            ).context.store.has_record(id),
                        forall|id: u64, t: Seq<char>|
                            #[trigger] old(builder).context.store.slot_initialized(id, t)
                                ==> builder.context.store.slot_initialized(id, t),
                        i < n,
                        p < pcount,
                        k < icount,
                        d <= dcount,
                        icount == instances@.len(),
                        pcount == builder.context.modules@[i as int].providers_seq().len(),
                        dcount == builder.context.modules@[i as int].providers_seq()[p as int].deps_seq().len(),
                        mtok@ == builder.context.modules@[i as int].spec_token(),
                        ptok@ == builder.context.modules@[i as int].providers_seq()[p as int].spec_token(),
                        inst == instances@[k as int],
                        icount == builder.context.container.module_spec(mtok@).provider_spec(
                            ptok@,
                        ).cells_seq().len(),
                        forall|c: int|
                            0 <= c < icount ==> instances@[c]
                                == builder.context.container.module_spec(mtok@).provider_spec(
                                ptok@,
                            ).cells_seq()[c].instance,
                        forall|i2: int| 0 <= i2 < i ==> #[trigger] module_wired(builder.context, i2),
                        forall|p2: int|
                            0 <= p2 < p ==> #[trigger] pb_wired(builder.context, i as int, p2),
                        forall|c2: int|
                            0 <= c2 < k ==> #[trigger] inst_wired(
                                builder.context,
                                i as int,
                                p as int,
                                c2,
                            ),
                        forall|d2: int|
                            0 <= d2 < d ==> #[trigger] edge_wired(
                                builder.context,
                                i as int,
                                p as int,
                                k as int,
                                d2,
                            ),
                        forall|i2: int|
                            0 <= i2 < i ==> #[trigger] module_records_wired(builder.context, i2),
                        forall|p2: int|
                            0 <= p2 < p ==> #[trigger] pb_records_wired(
                                builder.context,
                                i as int,
                                p2,
                            ),
                        forall|c2: int|
                            0 <= c2 < k ==> #[trigger] staged_record_wired(
                                builder.context,
                                i as int,
                                p as int,
                                c2,
                            ),
                    decreases dcount - d,
                {
                    let dtok = builder.context.modules[i].get_providers()[p].get_deps()[d].clone();
                    proof {
                        assert(dtok@ == builder.context.modules@[i as int].providers_seq()[
                            p as int
                        ].deps_seq()[d as int]);
                    }
                    let ghost before = builder.context;
                    proof {
                        assert(before.container.has_module_spec(mtok@));
                        assert(before.container.module_spec(mtok@).has_provider_spec(
                            (before.modules@[i as int].providers_seq()[p as int]).spec_token(),
                        ));
                    }
                    let link_result = builder.context.link_instance_by_token(
                        &mtok,
                        &ptok,
                        &dtok,
                        inst,
                    );
                    match link_result {
                        Ok(()) => {},
                        Err(e) => {
                            proof {
                                let ctx = builder.context;
                                let iq = ctx.container.module_spec(mtok@).provider_spec(
                                    ptok@,
                                ).spec_id();
                                InstanceStore::lemma_same_records(before.store, ctx.store);
                                assert(link_token_fails(ctx, mtok@, iq, dtok@, inst)) by {
                                    if ctx.store.has_record(inst.instance_id)
                                        && ctx.store.record_spec(inst.instance_id).has_slot(
                                        dtok@,
                                    ) {
                                        assert(before.store.has_record(inst.instance_id)
                                            && before.store.record_spec(
                                            inst.instance_id,
                                        ).has_slot(dtok@));
                                        if ctx.container.provider_reachable(mtok@, dtok@) {
                                            let (mi, pi) = choose|mi: int, pi: int|
                                                #[trigger] before.container.lookup_consistent(
                                                    mtok@,
                                                    dtok@,
                                                    mi,
                                                    pi,
                                                ) && (before.container.modules_seq()[mi].providers_seq()[pi].spec_scope()
                                                    == Scope::ContextDependent
                                                    || !before.container.modules_seq()[mi].providers_seq()[pi].has_cell(
                                                    before.container.modules_seq()[mi].providers_seq()[pi].cell_key_inq(
                                                        before.container.module_spec(
                                                            mtok@,
                                                        ).provider_spec(ptok@).spec_id(),
                                                    ),
                                                    STATIC_CONTEXT,
                                                ));
                                            assert(ctx.container.lookup_consistent(
                                                mtok@,
                                                dtok@,
                                                mi,
                                                pi,
                                            ));
                                        }
                                    }
                                }
                                assert(link_step_fails(ctx, i as int, p as int)) by {
                                    let mb = ctx.modules@[i as int];
                                    let pb = mb.providers_seq()[p as int];
                                    let w = ctx.container.module_spec(mb.spec_token()).provider_spec(
                                        pb.spec_token(),
                                    );
                                    assert(w.cells_seq()[k as int].instance == inst);
                                    assert(link_token_fails(
                                        ctx,
                                        mb.spec_token(),
                                        w.spec_id(),
                                        pb.deps_seq()[d as int],
                                        w.cells_seq()[k as int].instance,
                                    ));
                                }
                            }
                            return Err(e);
                        },
                    }
                    proof {
                        lemma_wired_monotone(before, builder.context);
                        assert forall|id2: u64|
                            #[trigger] builder.context.store.has_record(id2) == old(
                            builder,
                        ).context.store.has_record(id2) by {
                            assert(before.store.has_record(id2) == old(
                                builder,
                            ).context.store.has_record(id2));
                            assert(builder.context.store.has_record(id2) == before.store.has_record(
                                id2,
                            ));
                        }
                        assert forall|id2: u64, t2: Seq<char>|
                            #[trigger] old(builder).context.store.slot_initialized(id2, t2)
                            implies builder.context.store.slot_initialized(id2, t2) by {
                            assert(before.store.slot_initialized(id2, t2));
                        }
                        assert forall|id2: u64, t2: Seq<char>|
                            before.store.has_record(id2) implies (
                        #[trigger] builder.context.store.record_spec(id2).has_slot(t2))
                            == before.store.record_spec(id2).has_slot(t2) by {
                            if id2 != inst.instance_id {
                                assert(builder.context.store.record_spec(id2)
                                    == before.store.record_spec(id2));
                            }
                        }
                        lemma_records_wired_monotone(before, builder.context);
                        assert forall|i2: int| 0 <= i2 < i implies #[trigger] module_records_wired(
                            builder.context,
                            i2,
                        ) by {
                            assert(module_records_wired(before, i2));
                        }
                        assert forall|p2: int| 0 <= p2 < p implies #[trigger] pb_records_wired(
                            builder.context,
                            i as int,
                            p2,
                        ) by {
                            assert(pb_records_wired(before, i as int, p2));
                        }
                        assert forall|c2: int| 0 <= c2 < k implies #[trigger] staged_record_wired(
                            builder.context,
                            i as int,
                            p as int,
                            c2,
                        ) by {
                            assert(staged_record_wired(before, i as int, p as int, c2));
                        }
                        assert forall|i2: int| 0 <= i2 < i implies #[trigger] module_wired(
                            builder.context,
                            i2,
                        ) by {
                            assert(module_wired(before, i2));
                        }
                        assert forall|p2: int| 0 <= p2 < p implies #[trigger] pb_wired(
                            builder.context,
                            i as int,
                            p2,
                        ) by {
                            assert(pb_wired(before, i as int, p2));
                        }
                        assert forall|c2: int| 0 <= c2 < k implies #[trigger] inst_wired(
                            builder.context,
                            i as int,
                            p as int,
                            c2,
                        ) by {
                            assert(inst_wired(before, i as int, p as int, c2));
                        }
                        assert forall|d2: int| 0 <= d2 < d implies #[trigger] edge_wired(
                            builder.context,
                            i as int,
                            p as int,
                            k as int,
                            d2,
                        ) by {
                            assert(edge_wired(before, i as int, p as int, k as int, d2));
                        }
                        assert(edge_wired(
                            builder.context,
                            i as int,
                            p as int,
                            k as int,
                            d as int,
                        )) by {
                            assert(builder.context.store.slot_initialized(
                                inst.instance_id,
                                dtok@,
                            ));
                            assert(instances@[k as int]
                                == builder.context.container.module_spec(mtok@).provider_spec(
                                ptok@,
                            ).cells_seq()[k as int].instance);
                        }
                    }
                    d += 1;
                }
                proof {
                    assert(inst_wired(builder.context, i as int, p as int, k as int));
                }
                // Every slot of this instance's record must now be
                // assigned; a slot no recorded edge covers is a
                // configuration error.
                if !builder.context.store.all_slots_assigned_for(inst.instance_id) {
                    proof {
                        let ctx = builder.context;
                        let mb = ctx.modules@[i as int];
                        let pb = mb.providers_seq()[p as int];
                        let w = ctx.container.module_spec(mb.spec_token()).provider_spec(
                            pb.spec_token(),
                        );
                        assert(w.cells_seq()[k as int].instance == inst);
                        let t = choose|t: Seq<char>|
                            (#[trigger] ctx.store.record_spec(inst.instance_id).has_slot(t))
                                && !ctx.store.slot_initialized(inst.instance_id, t);
                        assert(!pb.has_dep(t)) by {
                            if pb.has_dep(t) {
                                let d2 = choose|d2: int|
                                    0 <= d2 < pb.deps_seq().len() && pb.deps_seq()[d2] == t;
                                assert(edge_wired(ctx, i as int, p as int, k as int, d2));
                                assert(false);
                            }
                        }
                        assert(link_step_fails(ctx, i as int, p as int));
                    }
                    return Err(DiError::SlotNotFound { token: ptok.clone() });
                }
                proof {
                    assert(staged_record_wired(builder.context, i as int, p as int, k as int));
                }
                k += 1;
            }
            proof {
                assert(pb_wired(builder.context, i as int, p as int));
                assert(pb_records_wired(builder.context, i as int, p as int));
            }
            p += 1;
        }
        proof {
            assert(module_wired(builder.context, i as int));
            assert(module_records_wired(builder.context, i as int));
        }
        i += 1;
    }
    proof {
        assert(all_edges_wired(builder.context));
        assert(all_records_wired(builder.context));
        lemma_wired_container(builder.context);
    }
    Ok(())
}

/// Two-phase startup: declare the core module (global, exporting the
/// logger) and the root module, create every instance, wire every
/// dependency edge, and index the finished graph. Configuration errors
/// abort the pipeline with the offending token. On success the returned
/// app is well formed, every provider of its graph holds its own-scope
/// instance, and the startup-log buffering option is recorded on the
/// app for the host to honor.
pub fn build<TModule: ModuleCompiler>(params: BuildParams) -> (r: Result<BlackBoxApp, DiError>)
    ensures
        r is Ok ==> r->Ok_0.wf(),
        r is Ok ==> fully_created(r->Ok_0.spec_container()),
        r is Ok ==> fully_wired(r->Ok_0.spec_container(), r->Ok_0.spec_store()),
        r is Ok ==> r->Ok_0.spec_container().has_module_spec("di::CoreModule"@)
            && r->Ok_0.spec_container().has_module_spec("di::LoggerModule"@)
            && r->Ok_0.spec_container().module_spec("di::LoggerModule"@).has_provider_spec(
            "di::Logger"@,
        ),
        r is Ok ==> r->Ok_0.spec_buffer_logs() == params.spec_buffer_logs(),
{
    let mut builder = Builder::new();
    match crate::modules::build_core_module(&mut builder.context) {
        Ok(()) => {},
        Err(e) => {
            return Err(e);
        },
    }
    proof {
        // What the user module's build step is handed: the core module,
        // global, importing the fully declared logger module.
        assert(crate::modules::core_module_built(builder.context));
        assert(crate::modules::logger_module_built(builder.context));
    }
    if builder.context.next_id == u64::MAX {
        return Err(DiError::IdOverflow { token: crate::modules::core_module_token() });
    }
    match TModule::build_module(&mut builder.context) {
        Ok(()) => {},
        Err(e) => {
            return Err(e);
        },
    }
    proof {
        // The user module's build only adds: the core graph survives it.
        assert(builder.context.container.has_module_spec("di::CoreModule"@));
        assert(builder.context.container.has_module_spec("di::LoggerModule"@));
        assert(builder.context.container.module_spec("di::LoggerModule"@).has_provider_spec(
            "di::Logger"@,
        ));
    }
    let ghost before_init = builder.context.container;
    match init(&mut builder) {
        Ok(()) => {},
        Err(e) => {
            return Err(e);
        },
    }
    proof {
        lemma_created_container(builder.context);
        Container::lemma_same_shape_preserves(before_init, builder.context.container);
        assert(builder.context.container.has_module_spec("di::CoreModule"@));
        assert(builder.context.container.has_module_spec("di::LoggerModule"@));
        assert(builder.context.container.module_spec("di::LoggerModule"@).has_provider_spec(
            "di::Logger"@,
        ));
    }
    match link(&mut builder) {
        Ok(()) => {},
        Err(e) => {
            return Err(e);
        },
    }
    Ok(BlackBoxApp::new(builder.context, params.should_buffer_logs()))
}

} // verus!
