//! Lazy resolution through the compiler protocol: make_instance caches
//! per scope cell, get_instance reads and casts.

use blackbox_di::builder::BuilderContext;
use blackbox_di::compiler::{get_instance, make_instance, new, ProviderCompilerContext};
use blackbox_di::errors::DiError;
use blackbox_di::instance_wrapper::Scope;

const SVC_KEY: u64 = 40;
const IFACE: u64 = 41;

fn context_with_service() -> BuilderContext {
    let mut ctx = BuilderContext::new();
    let m = "app::Main".to_string();
    ctx.register_module(m.clone());
    ctx.register_provider(&m, "svc".to_string(), SVC_KEY).unwrap();
    ctx.register_caster(SVC_KEY, SVC_KEY);
    ctx.register_caster(IFACE, SVC_KEY);
    ctx
}

#[test]
fn make_instance_creates_then_caches() {
    let mut ctx = context_with_service();
    let m = "app::Main".to_string();
    let pcc = ProviderCompilerContext::new(0, 77);
    let first = make_instance(&mut ctx, &"svc".to_string(), &m, &pcc, SVC_KEY).unwrap();
    let second = make_instance(&mut ctx, &"svc".to_string(), &m, &pcc, SVC_KEY).unwrap();
    assert_eq!(first, second);
    assert_eq!(first.concrete, SVC_KEY);
}

#[test]
fn make_instance_unknown_token_fails() {
    let mut ctx = context_with_service();
    let m = "app::Main".to_string();
    let pcc = ProviderCompilerContext::new(0, 77);
    let err = make_instance(&mut ctx, &"ghost".to_string(), &m, &pcc, SVC_KEY).unwrap_err();
    match err {
        DiError::ProviderNotFound { token, module } => {
            assert_eq!(token, "ghost".to_string());
            assert_eq!(module, m);
        },
        _ => panic!("wrong error variant"),
    }
}

#[test]
fn get_instance_reads_and_casts() {
    let mut ctx = context_with_service();
    let m = "app::Main".to_string();
    let pcc = ProviderCompilerContext::new(0, 77);
    // Reading before anything was created is a typed miss.
    let err = get_instance(&ctx, &"svc".to_string(), &m, &pcc, IFACE).unwrap_err();
    assert!(matches!(err, DiError::InstanceNotFound { .. }));
    let created = make_instance(&mut ctx, &"svc".to_string(), &m, &pcc, SVC_KEY).unwrap();
    let viewed = get_instance(&ctx, &"svc".to_string(), &m, &pcc, IFACE).unwrap();
    assert_eq!(viewed.instance_id, created.instance_id);
    assert_eq!(viewed.view, IFACE);
    // An interface never registered for the concrete type is refused.
    let err = get_instance(&ctx, &"svc".to_string(), &m, &pcc, 999).unwrap_err();
    match err {
        DiError::CastFailed { token, target, source } => {
            assert_eq!(token, "svc".to_string());
            assert_eq!(target, 999);
            assert_eq!(source, SVC_KEY);
        },
        _ => panic!("wrong error variant"),
    }
}

#[test]
fn transient_scope_caches_per_inquirer_and_context() {
    let mut ctx = context_with_service();
    let m = "app::Main".to_string();
    ctx.set_scope(&m, &"svc".to_string(), Scope::Transient).unwrap();
    let pcc_a = ProviderCompilerContext::new(0, 77);
    let pcc_b = ProviderCompilerContext::new(0, 78);
    let for_a = make_instance(&mut ctx, &"svc".to_string(), &m, &pcc_a, SVC_KEY).unwrap();
    let for_b = make_instance(&mut ctx, &"svc".to_string(), &m, &pcc_b, SVC_KEY).unwrap();
    let for_a_again = make_instance(&mut ctx, &"svc".to_string(), &m, &pcc_a, SVC_KEY).unwrap();
    assert_ne!(for_a.instance_id, for_b.instance_id);
    assert_eq!(for_a, for_a_again);
}

#[test]
fn walk_state_starts_empty() {
    let c = new();
    assert_eq!(c.stack.len(), 0);
    assert_eq!(c.current_depth, 0);
}
