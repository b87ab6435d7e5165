//! The built-in modules: a globally visible core module that imports the
//! logger module, whose exported logger provider is thereby reachable
//! from every module in the graph without an explicit import.

use vstd::prelude::*;

use crate::builder::BuilderContext;
use crate::compiler::ModuleCompiler;
use crate::cast::TypeKey;
use crate::errors::DiError;
use crate::instance_wrapper::Scope;

verus! {

/// Concrete type key of the built-in log buffer provider.
pub const LOGGER_BUFFER_KEY: TypeKey = 1;

/// Concrete type key of the built-in logger provider.
pub const LOGGER_KEY: TypeKey = 2;

/// Token of the built-in core module.
pub fn core_module_token() -> (r: String)
    ensures
        r@ == "di::CoreModule"@,
{
    "di::CoreModule".to_owned()
}

/// Token of the built-in logger module.
pub fn logger_module_token() -> (r: String)
    ensures
        r@ == "di::LoggerModule"@,
{
    "di::LoggerModule".to_owned()
}

/// Token of the built-in log buffer provider.
pub fn logger_buffer_token() -> (r: String)
    ensures
        r@ == "di::LoggerBuffer"@,
{
    "di::LoggerBuffer".to_owned()
}

/// Token of the built-in logger provider.
pub fn logger_token() -> (r: String)
    ensures
        r@ == "di::Logger"@,
{
    "di::Logger".to_owned()
}

/// The four built-in tokens are pairwise distinct.
proof fn lemma_distinct_tokens()
    ensures
        "di::CoreModule"@ != "di::LoggerModule"@,
        "di::CoreModule"@ != "di::LoggerBuffer"@,
        "di::CoreModule"@ != "di::Logger"@,
        "di::LoggerModule"@ != "di::LoggerBuffer"@,
        "di::LoggerModule"@ != "di::Logger"@,
        "di::LoggerBuffer"@ != "di::Logger"@,
{
    reveal_strlit("di::CoreModule");
    reveal_strlit("di::LoggerModule");
    reveal_strlit("di::LoggerBuffer");
    reveal_strlit("di::Logger");
    assert("di::CoreModule"@.len() == 14);
    assert("di::LoggerModule"@.len() == 16);
    assert("di::LoggerBuffer"@.len() == 16);
    assert("di::Logger"@.len() == 10);
    assert("di::LoggerModule"@[10] == 'M');
    assert("di::LoggerBuffer"@[10] == 'B');
}

/// What a fresh logger-module build leaves in the context: the module is
/// declared; the buffer provider is singleton-scoped and private; the
/// logger provider is transient-scoped, exported, and staged with one
/// dependency edge on the buffer; the concrete-type casters of both are
/// registered.
pub open spec fn logger_module_built(ctx: BuilderContext) -> bool {
    &&& ctx.container.has_module_spec("di::LoggerModule"@)
    &&& ctx.container.module_spec("di::LoggerModule"@).has_provider_spec("di::LoggerBuffer"@)
    &&& ctx.container.module_spec("di::LoggerModule"@).provider_spec(
        "di::LoggerBuffer"@,
    ).spec_scope() == Scope::Singleton
    &&& ctx.container.module_spec("di::LoggerModule"@).has_provider_spec("di::Logger"@)
    &&& ctx.container.module_spec("di::LoggerModule"@).provider_spec("di::Logger"@).spec_scope()
        == Scope::Transient
    &&& ctx.container.module_spec("di::LoggerModule"@).exports_spec("di::Logger"@)
    &&& ctx.has_builder_for("di::LoggerModule"@, "di::Logger"@)
    &&& ctx.pb_for("di::LoggerModule"@, "di::Logger"@).has_dep("di::LoggerBuffer"@)
    &&& ctx.vtable.has_caster(LOGGER_BUFFER_KEY, LOGGER_BUFFER_KEY)
    &&& ctx.vtable.has_caster(LOGGER_KEY, LOGGER_KEY)
}

/// Declare the logger module. A module already declared is left exactly
/// as it stands — the revisit guard of the build phase.
pub fn build_logger_module(ctx: &mut BuilderContext) -> (r: Result<(), DiError>)
    requires
        old(ctx).wf(),
    ensures
        final(ctx).wf(),
        old(ctx).has_builder("di::LoggerModule"@) ==> r is Ok && *final(ctx) == *old(ctx),
        r is Err ==> !old(ctx).has_builder("di::LoggerModule"@) && old(ctx).next_id >= u64::MAX - 8
            && *final(ctx) == *old(ctx) && r->Err_0 is IdOverflow,
        r is Ok && !old(ctx).has_builder("di::LoggerModule"@) ==> logger_module_built(*final(ctx)),
        r is Ok ==> final(ctx).has_builder("di::LoggerModule"@),
        forall|t: Seq<char>|
            #[trigger] final(ctx).has_builder(t) <==> (old(ctx).has_builder(t) || (r is Ok && t
                == "di::LoggerModule"@)),
        forall|t: Seq<char>|
            old(ctx).container.has_module_spec(t) ==> #[trigger] final(ctx).container.has_module_spec(t),
        forall|t: Seq<char>|
            t != "di::LoggerModule"@ && old(ctx).container.has_module_spec(t)
                ==> #[trigger] final(ctx).container.module_spec(t) == old(
                ctx,
            ).container.module_spec(t),
        final(ctx).container.globals_seq() == old(ctx).container.globals_seq(),
        forall|t: Seq<char>, pt: Seq<char>|
            old(ctx).container.has_module_spec(t) && #[trigger] old(ctx).container.module_spec(
                t,
            ).has_provider_spec(pt) ==> final(ctx).container.has_module_spec(t) && final(ctx).container.module_spec(t).has_provider_spec(pt),
        forall|t: Seq<char>|
            old(ctx).container.is_global_spec(t) ==> #[trigger] final(ctx).container.is_global_spec(
                t,
            ),
        forall|t: TypeKey, s: TypeKey|
            old(ctx).vtable.has_caster(t, s) ==> #[trigger] final(ctx).vtable.has_caster(t, s),
        final(ctx).next_id >= old(ctx).next_id,
        final(ctx).next_id <= old(ctx).next_id + 3,
        final(ctx).store == old(ctx).store,
{
    let mtok = logger_module_token();
    if ctx.is_module_exists(&mtok) {
        // Already built: the cycle guard of the build phase.
        return Ok(());
    }
    if ctx.next_id >= u64::MAX - 8 {
        return Err(DiError::IdOverflow { token: mtok });
    }
    ctx.register_module(mtok.clone());
    let ghost sa = *ctx;
    ctx.register_caster(LOGGER_BUFFER_KEY, LOGGER_BUFFER_KEY);
    let ghost sb = *ctx;
    ctx.register_caster(LOGGER_KEY, LOGGER_KEY);
    let ghost s1 = *ctx;
    let btok = logger_buffer_token();
    proof {
        lemma_distinct_tokens();
        assert(s1.container.module_spec(mtok@).providers_seq().len() == 0);
        if s1.has_builder_for(mtok@, btok@) {
            assert(s1.container.module_spec(mtok@).has_provider_spec(btok@)) by {
                let bi = choose|bi: int|
                    0 <= bi < s1.modules@.len() && (#[trigger] s1.modules@[bi]).spec_token()
                        == mtok@ && s1.modules@[bi].has_pb(btok@);
                let q = s1.modules@[bi].pb_index_spec(btok@);
                assert(s1.container.module_spec(s1.modules@[bi].spec_token()).has_provider_spec(
                    s1.modules@[bi].providers_seq()[q].spec_token(),
                ));
            }
            let j = s1.container.module_spec(mtok@).provider_index_spec(btok@);
            assert(0 <= j < s1.container.module_spec(mtok@).providers_seq().len());
            assert(false);
        }
    }
    match ctx.register_provider(&mtok, btok.clone(), LOGGER_BUFFER_KEY) {
        Ok(()) => {},
        Err(e) => {
            proof {
                assert(false);
            }
            return Err(e);
        },
    }
    let ghost s2 = *ctx;
    let ltok = logger_token();
    proof {
        lemma_distinct_tokens();
        if s2.has_builder_for(mtok@, ltok@) {
            assert(s2.container.module_spec(mtok@).has_provider_spec(ltok@)) by {
                let bi = choose|bi: int|
                    0 <= bi < s2.modules@.len() && (#[trigger] s2.modules@[bi]).spec_token()
                        == mtok@ && s2.modules@[bi].has_pb(ltok@);
                let q = s2.modules@[bi].pb_index_spec(ltok@);
                assert(s2.container.module_spec(s2.modules@[bi].spec_token()).has_provider_spec(
                    s2.modules@[bi].providers_seq()[q].spec_token(),
                ));
            }
            assert(s1.container.module_spec(mtok@).has_provider_spec(ltok@));
            let j = s1.container.module_spec(mtok@).provider_index_spec(ltok@);
            assert(0 <= j < s1.container.module_spec(mtok@).providers_seq().len());
            assert(false);
        }
    }
    match ctx.register_provider(&mtok, ltok.clone(), LOGGER_KEY) {
        Ok(()) => {},
        Err(e) => {
            proof {
                assert(false);
            }
            return Err(e);
        },
    }
    let ghost s3 = *ctx;
    match ctx.set_scope(&mtok, &ltok, Scope::Transient) {
        Ok(()) => {},
        Err(e) => {
            proof {
                assert(false);
            }
            return Err(e);
        },
    }
    let ghost s4 = *ctx;
    match ctx.should_be_exported(&mtok, &ltok) {
        Ok(()) => {},
        Err(e) => {
            proof {
                assert(false);
            }
            return Err(e);
        },
    }
    let ghost s5 = *ctx;
    proof {
        crate::module::Module::lemma_same_providers(
            s4.container.module_spec(mtok@),
            s5.container.module_spec(mtok@),
        );
    }
    match ctx.register_dependency(&mtok, &ltok, btok) {
        Ok(()) => {},
        Err(e) => {
            proof {
                assert(false);
            }
            return Err(e);
        },
    }
    proof {
        lemma_distinct_tokens();
        assert(ctx.container == s5.container);
        assert forall|t: Seq<char>, pt: Seq<char>|
            old(ctx).container.has_module_spec(t) && #[trigger] old(ctx).container.module_spec(
                t,
            ).has_provider_spec(pt) implies ctx.container.has_module_spec(t)
            && ctx.container.module_spec(t).has_provider_spec(pt) by {
            if t == mtok@ {
                // A module with no staged builder holds no providers.
                let mi0 = old(ctx).container.module_index_spec(t);
                assert(0 <= mi0 < old(ctx).container.modules_seq().len() && old(
                    ctx,
                ).container.modules_seq()[mi0].spec_token() == t);
                old(ctx).container.lemma_module_at_token(mi0);
                let pi0 = old(ctx).container.module_spec(t).provider_index_spec(pt);
                assert(0 <= pi0 < old(ctx).container.modules_seq()[mi0].providers_seq().len()
                    && old(ctx).container.modules_seq()[mi0].providers_seq()[pi0].spec_token()
                    == pt);
                assert(crate::builder::has_builder_for_in(old(ctx).modules@, t, pt));
                let bi = choose|bi: int|
                    0 <= bi < old(ctx).modules@.len() && (#[trigger] old(
                        ctx,
                    ).modules@[bi]).spec_token() == t && old(ctx).modules@[bi].has_pb(pt);
                assert(old(ctx).has_builder(t));
                assert(false);
            } else {
                assert(ctx.container.module_spec(t) == old(ctx).container.module_spec(t));
            }
        }
        assert forall|t: Seq<char>|
            old(ctx).container.is_global_spec(t) implies #[trigger] ctx.container.is_global_spec(
            t,
        ) by {
            let gi = choose|gi: int|
                0 <= gi < old(ctx).container.globals_seq().len() && old(
                    ctx,
                ).container.globals_seq()[gi] == t;
            assert(ctx.container.globals_seq() == old(ctx).container.globals_seq());
            assert(ctx.container.globals_seq()[gi] == t);
        }
        assert forall|t: Seq<char>| #[trigger]
            ctx.has_builder(t) <==> (old(ctx).has_builder(t) || t == mtok@) by {
            assert(sa.has_builder(t) <==> (old(ctx).has_builder(t) || t == mtok@));
            assert(sb.has_builder(t) == sa.has_builder(t));
            assert(s1.has_builder(t) == sb.has_builder(t));
            assert(s2.has_builder(t) == s1.has_builder(t));
            assert(s3.has_builder(t) == s2.has_builder(t));
            assert(s4.has_builder(t) == s3.has_builder(t));
            assert(s5.has_builder(t) == s4.has_builder(t));
            assert(ctx.has_builder(t) == s5.has_builder(t));
        }
        assert(logger_module_built(*ctx)) by {
            assert(ctx.container.module_spec(mtok@).provider_spec(btok@).spec_scope()
                == Scope::Singleton) by {
                assert(s3.container.module_spec(mtok@).provider_spec(btok@).spec_scope()
                    == Scope::Singleton);
                assert(s4.container.module_spec(mtok@).provider_spec(btok@)
                    == s3.container.module_spec(mtok@).provider_spec(btok@));
                assert(s5.container.module_spec(mtok@).provider_spec(btok@)
                    == s4.container.module_spec(mtok@).provider_spec(btok@));
            }
            assert(ctx.container.module_spec(mtok@).provider_spec(ltok@).spec_scope()
                == Scope::Transient) by {
                assert(s5.container.module_spec(mtok@).provider_spec(ltok@)
                    == s4.container.module_spec(mtok@).provider_spec(ltok@));
            }
            assert(ctx.container.module_spec(mtok@).exports_spec(ltok@)) by {
                assert(s5.container.module_spec(mtok@).exports_spec(ltok@));
            }
        }
    }
    Ok(())
}

/// What a fresh core-module build leaves in the context: the core module
/// is declared and global, and it imports the logger module.
pub open spec fn core_module_built(ctx: BuilderContext) -> bool {
    &&& ctx.container.has_module_spec("di::CoreModule"@)
    &&& ctx.container.is_global_spec("di::CoreModule"@)
    &&& ctx.container.module_spec("di::CoreModule"@).has_related_spec("di::LoggerModule"@)
    &&& ctx.container.has_module_spec("di::LoggerModule"@)
}

/// Declare the core module: global, importing the logger module. A core
/// module already declared is left exactly as it stands.
pub fn build_core_module(ctx: &mut BuilderContext) -> (r: Result<(), DiError>)
    requires
        old(ctx).wf(),
    ensures
        final(ctx).wf(),
        old(ctx).has_builder("di::CoreModule"@) ==> r is Ok && *final(ctx) == *old(ctx),
        r is Err ==> !old(ctx).has_builder("di::CoreModule"@) && r->Err_0 is IdOverflow,
        r is Ok && !old(ctx).has_builder("di::CoreModule"@) ==> core_module_built(*final(ctx)),
        r is Ok && !old(ctx).has_builder("di::CoreModule"@) && !old(ctx).has_builder(
            "di::LoggerModule"@,
        ) ==> logger_module_built(*final(ctx)),
        forall|t: Seq<char>|
            old(ctx).container.has_module_spec(t) ==> #[trigger] final(ctx).container.has_module_spec(t),
        forall|t: Seq<char>, pt: Seq<char>|
            old(ctx).container.has_module_spec(t) && #[trigger] old(ctx).container.module_spec(
                t,
            ).has_provider_spec(pt) ==> final(ctx).container.has_module_spec(t) && final(ctx).container.module_spec(t).has_provider_spec(pt),
        forall|t: Seq<char>|
            old(ctx).container.is_global_spec(t) ==> #[trigger] final(ctx).container.is_global_spec(
                t,
            ),
        forall|t: Seq<char>| old(ctx).has_builder(t) ==> #[trigger] final(ctx).has_builder(t),
        forall|t: TypeKey, s: TypeKey|
            old(ctx).vtable.has_caster(t, s) ==> #[trigger] final(ctx).vtable.has_caster(t, s),
        final(ctx).store == old(ctx).store,
{
    let ctok = core_module_token();
    if ctx.is_module_exists(&ctok) {
        // Already built: the cycle guard of the build phase.
        return Ok(());
    }
    if ctx.next_id >= u64::MAX - 16 {
        return Err(DiError::IdOverflow { token: ctok });
    }
    ctx.register_module(ctok.clone());
    let ghost sa = *ctx;
    ctx.should_be_global(&ctok);
    let ghost s2 = *ctx;
    match build_logger_module(ctx) {
        Ok(()) => {},
        Err(e) => {
            proof {
                assert(false);
            }
            return Err(e);
        },
    }
    let ghost s3 = *ctx;
    if ctx.next_id == u64::MAX {
        return Err(DiError::IdOverflow { token: ctok });
    }
    match ctx.register_related_module(&ctok, &logger_module_token()) {
        Ok(()) => {},
        Err(e) => {
            proof {
                assert(false);
            }
            return Err(e);
        },
    }
    proof {
        lemma_distinct_tokens();
        assert(ctx.container.is_global_spec(ctok@)) by {
            assert(s2.container.is_global_spec(ctok@));
            let gi = choose|gi: int|
                0 <= gi < s2.container.globals_seq().len() && s2.container.globals_seq()[gi]
                    == ctok@;
            assert(s3.container.globals_seq() == s2.container.globals_seq());
            assert(ctx.container.globals_seq() == s3.container.globals_seq());
            assert(ctx.container.globals_seq()[gi] == ctok@);
        }
        assert forall|t: Seq<char>|
            old(ctx).container.has_module_spec(t) implies #[trigger] ctx.container.has_module_spec(
            t,
        ) by {
            assert(sa.container.has_module_spec(t));
            assert(s2.container.has_module_spec(t)) by {
                let j = choose|j: int|
                    0 <= j < sa.container.modules_seq().len()
                        && sa.container.modules_seq()[j].spec_token() == t;
                assert(s2.container.modules_seq()[j].spec_token() == t);
            }
            assert(s3.container.has_module_spec(t));
            assert(ctx.container.has_module_spec(t));
        }
        assert forall|t: Seq<char>, pt: Seq<char>|
            old(ctx).container.has_module_spec(t) && #[trigger] old(ctx).container.module_spec(
                t,
            ).has_provider_spec(pt) implies ctx.container.has_module_spec(t)
            && ctx.container.module_spec(t).has_provider_spec(pt) by {
            if t == ctok@ {
                let mi0 = old(ctx).container.module_index_spec(t);
                assert(0 <= mi0 < old(ctx).container.modules_seq().len() && old(
                    ctx,
                ).container.modules_seq()[mi0].spec_token() == t);
                old(ctx).container.lemma_module_at_token(mi0);
                let pi0 = old(ctx).container.module_spec(t).provider_index_spec(pt);
                assert(0 <= pi0 < old(ctx).container.modules_seq()[mi0].providers_seq().len()
                    && old(ctx).container.modules_seq()[mi0].providers_seq()[pi0].spec_token()
                    == pt);
                assert(crate::builder::has_builder_for_in(old(ctx).modules@, t, pt));
                let bi = choose|bi: int|
                    0 <= bi < old(ctx).modules@.len() && (#[trigger] old(
                        ctx,
                    ).modules@[bi]).spec_token() == t && old(ctx).modules@[bi].has_pb(pt);
                assert(old(ctx).has_builder(t));
                assert(false);
            } else {
                assert(sa.container.module_spec(t) == old(ctx).container.module_spec(t));
                assert(sa.container.has_module_spec(t));
                crate::container::Container::lemma_same_modules(
                    s2.container,
                    sa.container,
                );
                assert(s2.container.has_module_spec(t) && s2.container.module_spec(
                    t,
                ).has_provider_spec(pt));
                assert(s3.container.has_module_spec(t) && s3.container.module_spec(
                    t,
                ).has_provider_spec(pt));
                assert(ctx.container.has_module_spec(t) && ctx.container.module_spec(
                    t,
                ).has_provider_spec(pt));
            }
        }
        assert forall|t: Seq<char>|
            old(ctx).container.is_global_spec(t) implies #[trigger] ctx.container.is_global_spec(
            t,
        ) by {
            let gi = choose|gi: int|
                0 <= gi < old(ctx).container.globals_seq().len() && old(
                    ctx,
                ).container.globals_seq()[gi] == t;
            assert(sa.container.globals_seq() == old(ctx).container.globals_seq());
            assert(sa.container.is_global_spec(t)) by {
                assert(sa.container.globals_seq()[gi] == t);
            }
            assert(s2.container.is_global_spec(t));
            assert(s3.container.is_global_spec(t));
            assert(ctx.container.is_global_spec(t)) by {
                let gj = choose|gj: int|
                    0 <= gj < s3.container.globals_seq().len() && s3.container.globals_seq()[gj]
                        == t;
                assert(ctx.container.globals_seq() == s3.container.globals_seq());
                assert(ctx.container.globals_seq()[gj] == t);
            }
        }
        assert forall|t: Seq<char>|
            old(ctx).has_builder(t) implies #[trigger] ctx.has_builder(t) by {
            assert(sa.has_builder(t));
            assert(s2.has_builder(t) == sa.has_builder(t));
            assert(s3.has_builder(t));
            assert(ctx.has_builder(t));
        }
        if !old(ctx).has_builder("di::LoggerModule"@) {
            assert(!s2.has_builder("di::LoggerModule"@)) by {
                assert(sa.has_builder("di::LoggerModule"@) <==> (old(ctx).has_builder(
                    "di::LoggerModule"@,
                ) || "di::LoggerModule"@ == ctok@));
                assert(s2.has_builder("di::LoggerModule"@) == sa.has_builder(
                    "di::LoggerModule"@,
                ));
            }
            assert(logger_module_built(*ctx)) by {
                assert(logger_module_built(s3));
                assert(s3.has_builder("di::LoggerModule"@));
                assert(ctx.container.module_spec("di::LoggerModule"@) == s3.container.module_spec(
                    "di::LoggerModule"@,
                ));
                assert(ctx.modules@ == s3.modules@);
                assert(ctx.vtable == s3.vtable);
            }
        }
    }
    Ok(())
}

/// The module declaring the log buffer and the logger. The logger is
/// transient (one per dependent) and exported; the buffer stays private.
pub struct LoggerModule {}

/// The globally visible core module; it imports [`LoggerModule`].
pub struct CoreModule {}

impl ModuleCompiler for LoggerModule {
    fn build_module(ctx: &mut BuilderContext) -> (r: Result<(), DiError>) {
        build_logger_module(ctx)
    }
}

impl ModuleCompiler for CoreModule {
    fn build_module(ctx: &mut BuilderContext) -> (r: Result<(), DiError>) {
        build_core_module(ctx)
    }
}

} // verus!
