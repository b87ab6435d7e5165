//! The contract between the runtime and the generated module and provider
//! code: each generated type populates the build context through these
//! traits, and resolves instances through `make_instance` and
//! `get_instance`.

use vstd::prelude::*;

use crate::builder::BuilderContext;
use crate::cast::{Handle, TypeKey};
use crate::errors::DiError;
use crate::instance_wrapper::{Scope, STATIC_CONTEXT};

verus! {

/// Marker for types that can be managed as providers.
pub trait Injectable {

}

/// The factory protocol: a provider type names the concrete type key its
/// zero-argument factory produces, with every injectable field left
/// unassigned until the link phase.
pub trait Factory {
    fn create_key() -> TypeKey;
}

/// A generated provider type declares itself to the staging area: scope,
/// export flag and one dependency edge per injectable field. Building
/// only adds: everything already declared stays declared.
pub trait ProviderCompiler {
    fn build_provider(ctx: &mut BuilderContext, module_token: &String) -> (r: Result<(), DiError>)
        requires
            old(ctx).wf(),
            old(ctx).next_id < u64::MAX,
        ensures
            final(ctx).wf(),
            forall|t: Seq<char>|
                old(ctx).container.has_module_spec(t) ==> #[trigger] final(ctx).container.has_module_spec(t),
            forall|t: Seq<char>, pt: Seq<char>|
                old(ctx).container.has_module_spec(t) && #[trigger] old(ctx).container.module_spec(
                    t,
                ).has_provider_spec(pt) ==> final(ctx).container.has_module_spec(t) && final(ctx).container.module_spec(t).has_provider_spec(pt),
            forall|t: Seq<char>| old(ctx).has_builder(t) ==> #[trigger] final(ctx).has_builder(t),
            forall|t: Seq<char>|
                old(ctx).container.is_global_spec(t) ==> #[trigger] final(ctx).container.is_global_spec(t),
    ;
}

/// A generated module type declares itself: every provider it owns and
/// every module it imports, recursively, guarded against revisiting a
/// module already under construction. Building only adds: every module,
/// provider, staged builder and global flag already declared stays
/// declared.
pub trait ModuleCompiler {
    fn build_module(ctx: &mut BuilderContext) -> (r: Result<(), DiError>)
        requires
            old(ctx).wf(),
            old(ctx).next_id < u64::MAX,
        ensures
            final(ctx).wf(),
            forall|t: Seq<char>|
                old(ctx).container.has_module_spec(t) ==> #[trigger] final(ctx).container.has_module_spec(t),
            forall|t: Seq<char>, pt: Seq<char>|
                old(ctx).container.has_module_spec(t) && #[trigger] old(ctx).container.module_spec(
                    t,
                ).has_provider_spec(pt) ==> final(ctx).container.has_module_spec(t) && final(ctx).container.module_spec(t).has_provider_spec(pt),
            forall|t: Seq<char>| old(ctx).has_builder(t) ==> #[trigger] final(ctx).has_builder(t),
            forall|t: Seq<char>|
                old(ctx).container.is_global_spec(t) ==> #[trigger] final(ctx).container.is_global_spec(t),
    ;
}

/// Book-keeping of one module-graph walk: which module tokens are on the
/// build stack (the cycle guard) and how deep the walk is.
pub struct CompilerContext {
    pub stack: Vec<String>,
    pub current_depth: u32,
}

/// A fresh, empty walk state.
pub fn new() -> (c: CompilerContext)
    ensures
        c.stack@.len() == 0,
        c.current_depth == 0,
{
    CompilerContext { stack: Vec::new(), current_depth: 0 }
}

/// The resolution context of one provider lookup: which consuming
/// instance asked (the inquirer) and in which session context.
pub struct ProviderCompilerContext {
    pub inquirer_id: u64,
    pub context_id: u64,
}

impl ProviderCompilerContext {
    pub fn new(context_id: u64, inquirer_id: u64) -> (c: ProviderCompilerContext)
        ensures
            c.context_id == context_id,
            c.inquirer_id == inquirer_id,
    {
        ProviderCompilerContext { context_id, inquirer_id }
    }
}

/// Book-keeping of one module compilation walk.
pub struct ModuleCompilerContext {
    pub stack: Vec<String>,
    pub current_depth: u32,
}

impl ModuleCompilerContext {
    pub fn new() -> (c: ModuleCompilerContext)
        ensures
            c.stack@.len() == 0,
            c.current_depth == 0,
    {
        ModuleCompilerContext { stack: Vec::new(), current_depth: 0 }
    }
}

/// Effect of `make_instance`: the scope-appropriate cell of the wrapper
/// at (mi, pi) holds the returned handle; a cell already populated makes
/// the call a pure read, otherwise a fresh instance (with no dependency
/// slots — lazily made instances are wired by their factories, not by the
/// link phase) is created and cached.
pub open spec fn make_instance_effect(
    pre: BuilderContext,
    post: BuilderContext,
    mi: int,
    pi: int,
    inquirer_id: u64,
    context_id: u64,
    factory: TypeKey,
    h: Handle,
) -> bool {
    let w_pre = pre.container.modules_seq()[mi].providers_seq()[pi];
    let w_post = post.container.modules_seq()[mi].providers_seq()[pi];
    let ki = w_pre.cell_key_inq(inquirer_id);
    let kc = w_pre.cell_key_ctx(context_id);
    &&& w_pre.spec_scope() != Scope::ContextDependent
    &&& w_post.has_cell(ki, kc)
    &&& h == w_post.cell_value(ki, kc)
    &&& if w_pre.has_cell(ki, kc) {
        post == pre && h == w_pre.cell_value(ki, kc)
    } else {
        &&& h == (Handle { instance_id: pre.next_id, concrete: factory, view: factory })
        &&& post.next_id == pre.next_id + 1
        &&& w_post.same_identity(w_pre)
        &&& forall|i2: u64, c2: u64|
            !(i2 == ki && c2 == kc) ==> #[trigger] w_post.has_cell(i2, c2) == w_pre.has_cell(
                i2,
                c2,
            )
        &&& forall|i2: u64, c2: u64|
            !(i2 == ki && c2 == kc) && w_pre.has_cell(i2, c2) ==> #[trigger] w_post.cell_value(
                i2,
                c2,
            ) == w_pre.cell_value(i2, c2)
        &&& post.container.modules_seq().len() == pre.container.modules_seq().len()
        &&& forall|k: int|
            0 <= k < pre.container.modules_seq().len() && k != mi
                ==> #[trigger] post.container.modules_seq()[k] == pre.container.modules_seq()[k]
        &&& post.container.modules_seq()[mi].spec_token() == pre.container.modules_seq()[mi].spec_token()
        &&& post.container.modules_seq()[mi].related_seq() == pre.container.modules_seq()[mi].related_seq()
        &&& post.container.modules_seq()[mi].exported_seq() == pre.container.modules_seq()[mi].exported_seq()
        &&& post.container.modules_seq()[mi].providers_seq().len() == pre.container.modules_seq()[mi].providers_seq().len()
        &&& forall|p2: int|
            0 <= p2 < pre.container.modules_seq()[mi].providers_seq().len() && p2 != pi
                ==> #[trigger] post.container.modules_seq()[mi].providers_seq()[p2]
                == pre.container.modules_seq()[mi].providers_seq()[p2]
        &&& post.container.globals_seq() == pre.container.globals_seq()
        &&& post.store.has_record(pre.next_id)
        &&& post.store.record_spec(pre.next_id).spec_concrete() == factory
        &&& forall|t: Seq<char>| !(#[trigger] post.store.record_spec(pre.next_id).has_slot(t))
        &&& forall|i2: u64|
            #[trigger] post.store.has_record(i2) <==> (pre.store.has_record(i2) || i2
                == pre.next_id)
        &&& forall|i2: u64|
            i2 != pre.next_id && pre.store.has_record(i2) ==> #[trigger] post.store.record_spec(i2)
                == pre.store.record_spec(i2)
        &&& post.modules@ == pre.modules@
        &&& post.vtable == pre.vtable
    }
}

/// A successful `make_instance` call: some phase-consistent resolution of
/// `t` from `root` underwent the `make_instance_effect` transition.
pub open spec fn make_instance_ok(
    pre: BuilderContext,
    post: BuilderContext,
    root: Seq<char>,
    t: Seq<char>,
    inquirer_id: u64,
    context_id: u64,
    factory: TypeKey,
    h: Handle,
) -> bool {
    exists|mi: int, pi: int|
        pre.container.lookup_consistent(root, t, mi, pi) && #[trigger] make_instance_effect(
            pre,
            post,
            mi,
            pi,
            inquirer_id,
            context_id,
            factory,
            h,
        )
}

/// Resolve the provider for `token` as seen from `root_module`, creating
/// and caching an instance for the given inquirer and context when the
/// scope-appropriate cell is still empty.
pub fn make_instance(
    ctx: &mut BuilderContext,
    token: &String,
    root_module: &String,
    pcc: &ProviderCompilerContext,
    factory: TypeKey,
) -> (r: Result<Handle, DiError>)
    requires
        old(ctx).wf(),
        old(ctx).next_id < u64::MAX,
    ensures
        final(ctx).wf(),
        r is Err ==> *final(ctx) == *old(ctx),
        r is Ok ==> make_instance_ok(
            *old(ctx),
            *final(ctx),
            root_module@,
            token@,
            pcc.inquirer_id,
            pcc.context_id,
            factory,
            r->Ok_0,
        ),
        r is Err ==> !old(ctx).container.provider_reachable(root_module@, token@) || (exists|
            mi: int,
            pi: int,
        |
            #[trigger] old(ctx).container.lookup_consistent(root_module@, token@, mi, pi) && old(
                ctx,
            ).container.modules_seq()[mi].providers_seq()[pi].spec_scope()
                == Scope::ContextDependent),
        r matches Err(e) ==> (match e {
            DiError::ProviderNotFound { token: t, module: m } => t@ == token@ && m@
                == root_module@,
            DiError::InvalidScope { token: t } => t@ == token@,
            _ => false,
        }),
{
    let loc = match ctx.container.get_provider_in_module(token, root_module) {
        Some(l) => l,
        None => {
            return Err(
                DiError::ProviderNotFound { token: token.clone(), module: root_module.clone() },
            );
        },
    };
    let scope = ctx.container.module_at(loc.module_index).provider_at(
        loc.provider_index,
    ).get_scope();
    let (ki, kc) = match scope {
        Scope::ContextDependent => {
            return Err(DiError::InvalidScope { token: token.clone() });
        },
        Scope::Transient => (pcc.inquirer_id, pcc.context_id),
        Scope::Singleton => {
            (
                ctx.container.module_at(loc.module_index).provider_at(
                    loc.provider_index,
                ).get_id(),
                STATIC_CONTEXT,
            )
        },
    };
    match ctx.container.module_at(loc.module_index).provider_at(
        loc.provider_index,
    ).get_instance_by_inquirer_id(ki, kc) {
        Some(h) => {
            proof {
                let mi = loc.module_index as int;
                let pi = loc.provider_index as int;
                assert(old(ctx).container.lookup_consistent(root_module@, token@, mi, pi));
                assert(make_instance_effect(
                    *old(ctx),
                    *ctx,
                    mi,
                    pi,
                    pcc.inquirer_id,
                    pcc.context_id,
                    factory,
                    h,
                ));
                assert(make_instance_ok(
                    *old(ctx),
                    *ctx,
                    root_module@,
                    token@,
                    pcc.inquirer_id,
                    pcc.context_id,
                    factory,
                    h,
                ));
            }
            return Ok(h);
        },
        None => {},
    }
    let id = ctx.next_id;
    proof {
        if ctx.store.has_record(id) {
            let k = choose|k: int|
                0 <= k < ctx.store.records_seq().len() && ctx.store.records_seq()[k].spec_id()
                    == id;
            assert(ctx.store.records_seq()[k].spec_id() < ctx.next_id);
            assert(false);
        }
    }
    let no_deps: Vec<String> = Vec::new();
    ctx.store.create_record(id, factory, &no_deps);
    ctx.next_id = id + 1;
    let h = Handle::new(id, factory);
    let m = ctx.container.module_at_mut(loc.module_index);
    let w = m.provider_at_mut(loc.provider_index);
    w.set_instance_by_inquirer_id(ki, kc, h);
    proof {
        let mi = loc.module_index as int;
        let pi = loc.provider_index as int;
        let pre = *old(ctx);
        let m1 = pre.container.modules_seq()[mi];
        let m2 = ctx.container.modules_seq()[mi];
        crate::module::Module::lemma_wf_after_provider_update(m1, m2, pi);
        crate::container::Container::lemma_wf_after_module_update(pre.container, ctx.container, mi);
        crate::builder::lemma_staging_module_update(pre.container, ctx.container, ctx.modules@, mi);
        assert(ctx.store.ids_below(ctx.next_id)) by {
            assert(pre.store.ids_below(ctx.next_id)) by {
                assert forall|k: int|
                    0 <= k < pre.store.records_seq().len() implies (
                #[trigger] pre.store.records_seq()[k]).spec_id() < ctx.next_id by {
                    assert(pre.store.records_seq()[k].spec_id() < id);
                }
            }
        }
        assert forall|t: Seq<char>|
            !(#[trigger] ctx.store.record_spec(id).has_slot(t)) by {
            if ctx.store.record_spec(id).has_slot(t) {
                let i = choose|i: int| 0 <= i < no_deps@.len() && no_deps@[i]@ == t;
                assert(false);
            }
        }
        assert(old(ctx).container.lookup_consistent(root_module@, token@, mi, pi));
        assert(make_instance_effect(
            *old(ctx),
            *ctx,
            mi,
            pi,
            pcc.inquirer_id,
            pcc.context_id,
            factory,
            h,
        ));
        assert(make_instance_ok(
            *old(ctx),
            *ctx,
            root_module@,
            token@,
            pcc.inquirer_id,
            pcc.context_id,
            factory,
            h,
        ));
    }
    Ok(h)
}

/// Top-level identity law at `get_instance`, pinned to a token the
/// requesting module declares itself: every successful read returns the
/// very instance stored in that provider's scope cell, so two reads of
/// one state are identically the same handle.
pub proof fn lemma_get_instance_pinned(
    ctx: BuilderContext,
    root: Seq<char>,
    t: Seq<char>,
    inq: u64,
    ctxid: u64,
    target: TypeKey,
    h: Handle,
)
    requires
        ctx.wf(),
        ctx.container.found_in_own(root, t),
        exists|mi: int, pi: int|
            #[trigger] ctx.container.lookup_consistent(root, t, mi, pi) && instance_read(
                ctx.container.modules_seq()[mi].providers_seq()[pi],
                ctx.vtable,
                inq,
                ctxid,
                target,
                h,
            ),
    ensures
        h == ctx.container.module_spec(root).provider_spec(t).cell_value(
            ctx.container.module_spec(root).provider_spec(t).cell_key_inq(inq),
            ctx.container.module_spec(root).provider_spec(t).cell_key_ctx(ctxid),
        ).retargeted(target),
{
    let (mi, pi) = choose|mi: int, pi: int|
        #[trigger] ctx.container.lookup_consistent(root, t, mi, pi) && instance_read(
            ctx.container.modules_seq()[mi].providers_seq()[pi],
            ctx.vtable,
            inq,
            ctxid,
            target,
            h,
        );
    ctx.container.lemma_lookup_consistent_own(root, t, mi, pi);
}

/// Per-inquirer caching law at `make_instance`, pinned to a token the
/// requesting module declares itself: the same inquirer and context
/// asking twice receive identically the same cached instance, and the
/// second call changes nothing at all.
pub proof fn lemma_make_instance_cached(
    s0: BuilderContext,
    s1: BuilderContext,
    s2: BuilderContext,
    root: Seq<char>,
    t: Seq<char>,
    inq: u64,
    ctxid: u64,
    f1: TypeKey,
    f2: TypeKey,
    h1: Handle,
    h2: Handle,
)
    requires
        s0.wf(),
        s1.wf(),
        s0.container.found_in_own(root, t),
        make_instance_ok(s0, s1, root, t, inq, ctxid, f1, h1),
        make_instance_ok(s1, s2, root, t, inq, ctxid, f2, h2),
    ensures
        s2 == s1,
        h2 == h1,
{
    let (mi1, pi1) = choose|mi: int, pi: int|
        s0.container.lookup_consistent(root, t, mi, pi) && #[trigger] make_instance_effect(
            s0,
            s1,
            mi,
            pi,
            inq,
            ctxid,
            f1,
            h1,
        );
    s0.container.lemma_lookup_consistent_own(root, t, mi1, pi1);
    let w0 = s0.container.modules_seq()[mi1].providers_seq()[pi1];
    let ki = w0.cell_key_inq(inq);
    let kc = w0.cell_key_ctx(ctxid);
    if !w0.has_cell(ki, kc) {
        assert(s1.container.modules_seq()[mi1].spec_token() == root);
        assert(s1.container.modules_seq()[mi1].providers_seq()[pi1].spec_token() == t);
    }
    assert(s1.container.found_in_own(root, t)) by {
        assert(s1.container.modules_seq()[mi1].spec_token() == root);
        s1.container.lemma_module_at_token(mi1);
        assert(s1.container.modules_seq()[mi1].providers_seq()[pi1].spec_token() == t);
    }
    let (mi2, pi2) = choose|mi: int, pi: int|
        s1.container.lookup_consistent(root, t, mi, pi) && #[trigger] make_instance_effect(
            s1,
            s2,
            mi,
            pi,
            inq,
            ctxid,
            f2,
            h2,
        );
    s1.container.lemma_lookup_consistent_own(root, t, mi2, pi2);
    assert(mi2 == mi1) by {
        assert(s1.container.modules_seq()[mi1].spec_token() == root);
        assert(s1.container.modules_seq()[mi2].spec_token() == root);
        if mi1 != mi2 {
            assert(false);
        }
    }
    assert(pi2 == pi1) by {
        assert(s1.container.modules_seq()[mi1].providers_seq()[pi1].spec_token() == t);
        assert(s1.container.modules_seq()[mi2].providers_seq()[pi2].spec_token() == t);
        assert(s1.container.modules_seq()[mi1].wf());
        if pi1 != pi2 {
            assert(false);
        }
    }
    let w1 = s1.container.modules_seq()[mi1].providers_seq()[pi1];
    assert(w1.has_cell(ki, kc));
    assert(w1.cell_key_inq(inq) == ki && w1.cell_key_ctx(ctxid) == kc) by {
        assert(w1.spec_scope() == w0.spec_scope() && w1.spec_id() == w0.spec_id());
    }
    assert(h1 == w1.cell_value(ki, kc));
}

/// Transient distinctness law at `make_instance`, pinned to a token the
/// requesting module declares itself: two distinct inquirers whose cells
/// were both still empty receive two distinct freshly created instances.
pub proof fn lemma_make_instance_distinct(
    s0: BuilderContext,
    s1: BuilderContext,
    s2: BuilderContext,
    root: Seq<char>,
    t: Seq<char>,
    q1: u64,
    q2: u64,
    ctxid: u64,
    f1: TypeKey,
    f2: TypeKey,
    h1: Handle,
    h2: Handle,
)
    requires
        s0.wf(),
        s1.wf(),
        s0.container.found_in_own(root, t),
        s0.container.module_spec(root).provider_spec(t).spec_scope() == Scope::Transient,
        !s0.container.module_spec(root).provider_spec(t).has_cell(q1, ctxid),
        !s0.container.module_spec(root).provider_spec(t).has_cell(q2, ctxid),
        q1 != q2,
        make_instance_ok(s0, s1, root, t, q1, ctxid, f1, h1),
        make_instance_ok(s1, s2, root, t, q2, ctxid, f2, h2),
    ensures
        h1.instance_id != h2.instance_id,
{
    let (mi1, pi1) = choose|mi: int, pi: int|
        s0.container.lookup_consistent(root, t, mi, pi) && #[trigger] make_instance_effect(
            s0,
            s1,
            mi,
            pi,
            q1,
            ctxid,
            f1,
            h1,
        );
    s0.container.lemma_lookup_consistent_own(root, t, mi1, pi1);
    let w0 = s0.container.modules_seq()[mi1].providers_seq()[pi1];
    assert(w0.cell_key_inq(q1) == q1 && w0.cell_key_ctx(ctxid) == ctxid);
    assert(h1.instance_id == s0.next_id && s1.next_id == s0.next_id + 1);
    assert(s1.container.found_in_own(root, t)) by {
        assert(s1.container.modules_seq()[mi1].spec_token() == root);
        s1.container.lemma_module_at_token(mi1);
        assert(s1.container.modules_seq()[mi1].providers_seq()[pi1].spec_token() == t);
    }
    let (mi2, pi2) = choose|mi: int, pi: int|
        s1.container.lookup_consistent(root, t, mi, pi) && #[trigger] make_instance_effect(
            s1,
            s2,
            mi,
            pi,
            q2,
            ctxid,
            f2,
            h2,
        );
    s1.container.lemma_lookup_consistent_own(root, t, mi2, pi2);
    assert(mi2 == mi1) by {
        assert(s1.container.modules_seq()[mi1].spec_token() == root);
        assert(s1.container.modules_seq()[mi2].spec_token() == root);
        if mi1 != mi2 {
            assert(false);
        }
    }
    assert(pi2 == pi1) by {
        assert(s1.container.modules_seq()[mi1].providers_seq()[pi1].spec_token() == t);
        assert(s1.container.modules_seq()[mi2].providers_seq()[pi2].spec_token() == t);
        assert(s1.container.modules_seq()[mi1].wf());
        if pi1 != pi2 {
            assert(false);
        }
    }
    let w1 = s1.container.modules_seq()[mi1].providers_seq()[pi1];
    assert(w1.spec_scope() == Scope::Transient && w1.spec_id() == w0.spec_id());
    assert(!w1.has_cell(q2, ctxid)) by {
        assert(w1.has_cell(q2, ctxid) == w0.has_cell(q2, ctxid));
    }
    assert(h2.instance_id == s1.next_id);
}

/// Why a pure read of wrapper `w`'s scope-appropriate cell failed: the
/// scope is the reserved one, the cell was never populated, or no caster
/// to `target` was registered for the instance's concrete type.
pub open spec fn instance_read_fails(
    w: crate::instance_wrapper::InstanceWrapper,
    vtable: crate::cast::Vtable,
    inquirer_id: u64,
    context_id: u64,
    target: TypeKey,
) -> bool {
    let ki = w.cell_key_inq(inquirer_id);
    let kc = w.cell_key_ctx(context_id);
    ||| w.spec_scope() == Scope::ContextDependent
    ||| !w.has_cell(ki, kc)
    ||| !vtable.has_caster(target, w.cell_value(ki, kc).concrete)
}

/// A pure read of wrapper `w`'s scope-appropriate cell, cast to `target`:
/// the cell is populated, the cast is registered, and `h` is its value
/// viewed through `target`.
pub open spec fn instance_read(
    w: crate::instance_wrapper::InstanceWrapper,
    vtable: crate::cast::Vtable,
    inquirer_id: u64,
    context_id: u64,
    target: TypeKey,
    h: Handle,
) -> bool {
    let ki = w.cell_key_inq(inquirer_id);
    let kc = w.cell_key_ctx(context_id);
    &&& w.spec_scope() != Scope::ContextDependent
    &&& w.has_cell(ki, kc)
    &&& vtable.has_caster(target, w.cell_value(ki, kc).concrete)
    &&& h == w.cell_value(ki, kc).retargeted(target)
}

/// Resolve the provider for `token` as seen from `root_module` and return
/// its already-created instance for the given inquirer and context, cast
/// to the requested interface. Never creates: an empty cell is an error.
pub fn get_instance(
    ctx: &BuilderContext,
    token: &String,
    root_module: &String,
    pcc: &ProviderCompilerContext,
    target: TypeKey,
) -> (r: Result<Handle, DiError>)
    requires
        ctx.wf(),
    ensures
        r matches Ok(h) ==> exists|mi: int, pi: int|
            #[trigger] ctx.container.lookup_consistent(root_module@, token@, mi, pi)
                && instance_read(
                ctx.container.modules_seq()[mi].providers_seq()[pi],
                ctx.vtable,
                pcc.inquirer_id,
                pcc.context_id,
                target,
                h,
            ),
        r is Err ==> !ctx.container.provider_reachable(root_module@, token@) || (exists|
            mi: int,
            pi: int,
        |
            #[trigger] ctx.container.lookup_consistent(root_module@, token@, mi, pi)
                && instance_read_fails(
                ctx.container.modules_seq()[mi].providers_seq()[pi],
                ctx.vtable,
                pcc.inquirer_id,
                pcc.context_id,
                target,
            )),
        r matches Err(e) ==> (match e {
            DiError::ProviderNotFound { token: t, module: m } => t@ == token@ && m@
                == root_module@,
            DiError::InvalidScope { token: t } => t@ == token@,
            DiError::InstanceNotFound { token: t } => t@ == token@,
            DiError::CastFailed { token: t, target: tg, source: sc } => t@ == token@ && tg
                == target,
            _ => false,
        }),
{
    let loc = match ctx.container.get_provider_in_module(token, root_module) {
        Some(l) => l,
        None => {
            return Err(
                DiError::ProviderNotFound { token: token.clone(), module: root_module.clone() },
            );
        },
    };
    let scope = ctx.container.module_at(loc.module_index).provider_at(
        loc.provider_index,
    ).get_scope();
    let (ki, kc) = match scope {
        Scope::ContextDependent => {
            return Err(DiError::InvalidScope { token: token.clone() });
        },
        Scope::Transient => (pcc.inquirer_id, pcc.context_id),
        Scope::Singleton => {
            (
                ctx.container.module_at(loc.module_index).provider_at(
                    loc.provider_index,
                ).get_id(),
                STATIC_CONTEXT,
            )
        },
    };
    let h = match ctx.container.module_at(loc.module_index).provider_at(
        loc.provider_index,
    ).get_instance_by_inquirer_id(ki, kc) {
        Some(h) => h,
        None => {
            return Err(DiError::InstanceNotFound { token: token.clone() });
        },
    };
    match h.cast(&ctx.vtable, target) {
        Ok(h2) => Ok(h2),
        Err(e) => Err(
            DiError::CastFailed { token: token.clone(), target: e.target, source: e.source },
        ),
    }
}

} // verus!
