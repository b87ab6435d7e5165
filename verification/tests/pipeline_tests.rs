//! The two-phase build pipeline: scopes, cycles, global visibility and
//! top-level resolution.

use blackbox_di::app::{build, init, link, BuildParams};
use blackbox_di::builder::Builder;
use blackbox_di::errors::DiError;
use blackbox_di::instance_wrapper::{Scope, STATIC_CONTEXT};
use blackbox_di::modules::{logger_buffer_token, logger_token, CoreModule, LOGGER_BUFFER_KEY, LOGGER_KEY};

const A_KEY: u64 = 10;
const B_KEY: u64 = 11;

fn simple_builder() -> Builder {
    let mut b = Builder::new();
    let m = "app::Main".to_string();
    b.context.register_module(m.clone());
    b.context.register_provider(&m, "A".to_string(), A_KEY).unwrap();
    b.context.register_provider(&m, "B".to_string(), B_KEY).unwrap();
    b.context.register_caster(A_KEY, A_KEY);
    b.context.register_caster(B_KEY, B_KEY);
    b
}

#[test]
fn cycle_safety_mutual_dependencies_wire() {
    let mut b = simple_builder();
    let m = "app::Main".to_string();
    // A and B depend on each other.
    b.context.register_dependency(&m, &"A".to_string(), "B".to_string()).unwrap();
    b.context.register_dependency(&m, &"B".to_string(), "A".to_string()).unwrap();
    init(&mut b).unwrap();
    link(&mut b).unwrap();
    let app = b.build();
    let a = app.get_by_token(&"A".to_string(), A_KEY).unwrap();
    let bb = app.get_by_token(&"B".to_string(), B_KEY).unwrap();
    assert_ne!(a.instance_id, bb.instance_id);
    // Both resolve to non-empty, mutually-referencing instances.
    let a_dep = app.get_dependency(a.instance_id, &"B".to_string()).unwrap();
    let b_dep = app.get_dependency(bb.instance_id, &"A".to_string()).unwrap();
    assert_eq!(a_dep.instance_id, bb.instance_id);
    assert_eq!(b_dep.instance_id, a.instance_id);
}

#[test]
fn singleton_two_resolutions_share_storage() {
    let mut b = simple_builder();
    let m = "app::Main".to_string();
    init(&mut b).unwrap();
    link(&mut b).unwrap();
    // Re-running init is idempotent: no second instance appears.
    init(&mut b).unwrap();
    let w = b
        .context
        .container
        .get_module(&m)
        .unwrap()
        .get_provider(&"A".to_string())
        .unwrap()
        .get_instances();
    assert_eq!(w.len(), 1);
    let app = b.build();
    let first = app.get_by_token(&"A".to_string(), A_KEY).unwrap();
    let second = app.get_by_token(&"A".to_string(), A_KEY).unwrap();
    assert_eq!(first, second);
}

#[test]
fn transient_distinct_inquirers_distinct_instances() {
    let mut b = simple_builder();
    let m = "app::Main".to_string();
    b.context.register_provider(&m, "T".to_string(), 12).unwrap();
    b.context.set_scope(&m, &"T".to_string(), Scope::Transient).unwrap();
    // A and B both ask for T.
    b.context.register_instance_by_token(&m, &"A".to_string(), &"T".to_string()).unwrap();
    b.context.register_instance_by_token(&m, &"B".to_string(), &"T".to_string()).unwrap();
    // The same inquirer asking again is served from its cache.
    b.context.register_instance_by_token(&m, &"A".to_string(), &"T".to_string()).unwrap();

    let module = b.context.container.get_module(&m).unwrap();
    let a_id = module.get_provider(&"A".to_string()).unwrap().get_id();
    let b_id = module.get_provider(&"B".to_string()).unwrap().get_id();
    let t = module.get_provider(&"T".to_string()).unwrap();
    assert_eq!(t.get_instances().len(), 2);
    let for_a = t.get_instance_by_inquirer_id(a_id, STATIC_CONTEXT).unwrap();
    let for_b = t.get_instance_by_inquirer_id(b_id, STATIC_CONTEXT).unwrap();
    assert_ne!(for_a.instance_id, for_b.instance_id);
}

#[test]
fn global_core_logger_shared_across_feature_providers() {
    // Module Core (global) exports provider Logger (Singleton). Module
    // Feature imports nothing; both of its providers resolve Logger
    // purely through global visibility and share one instance.
    let mut b = Builder::new();
    let core = "Core".to_string();
    let feature = "Feature".to_string();
    b.context.register_module(core.clone());
    b.context.register_provider(&core, "Logger".to_string(), 50).unwrap();
    b.context.should_be_exported(&core, &"Logger".to_string()).unwrap();
    b.context.should_be_global(&core);
    b.context.register_module(feature.clone());
    b.context.register_provider(&feature, "FA".to_string(), 60).unwrap();
    b.context.register_provider(&feature, "FB".to_string(), 61).unwrap();
    b.context.register_dependency(&feature, &"FA".to_string(), "Logger".to_string()).unwrap();
    b.context.register_dependency(&feature, &"FB".to_string(), "Logger".to_string()).unwrap();
    b.context.register_caster(60, 60);
    b.context.register_caster(61, 61);
    init(&mut b).unwrap();
    link(&mut b).unwrap();
    let app = b.build();
    let fa = app.get_by_token(&"FA".to_string(), 60).unwrap();
    let fb = app.get_by_token(&"FB".to_string(), 61).unwrap();
    let fa_logger = app.get_dependency(fa.instance_id, &"Logger".to_string()).unwrap();
    let fb_logger = app.get_dependency(fb.instance_id, &"Logger".to_string()).unwrap();
    assert_eq!(fa_logger.instance_id, fb_logger.instance_id);
}

#[test]
fn missing_token_fails_identifying_it() {
    let mut b = simple_builder();
    init(&mut b).unwrap();
    link(&mut b).unwrap();
    let app = b.build();
    let err = app.get_by_token(&"nope".to_string(), A_KEY).unwrap_err();
    assert_eq!(err.token(), &"nope".to_string());
    match err {
        DiError::ProviderNotFound { token, .. } => assert_eq!(token, "nope".to_string()),
        _ => panic!("wrong error variant"),
    }
}

#[test]
fn missing_dependency_fails_at_init() {
    let mut b = simple_builder();
    let m = "app::Main".to_string();
    b.context.register_dependency(&m, &"A".to_string(), "ghost".to_string()).unwrap();
    let err = init(&mut b).unwrap_err();
    match err {
        DiError::ProviderNotFound { token, .. } => assert_eq!(token, "ghost".to_string()),
        _ => panic!("wrong error variant"),
    }
}

#[test]
fn reserved_scope_is_rejected_at_init() {
    let mut b = simple_builder();
    let m = "app::Main".to_string();
    b.context.set_scope(&m, &"A".to_string(), Scope::ContextDependent).unwrap();
    let err = init(&mut b).unwrap_err();
    match err {
        DiError::InvalidScope { token } => assert_eq!(token, "A".to_string()),
        _ => panic!("wrong error variant"),
    }
}

#[test]
fn duplicate_provider_is_rejected() {
    let mut b = simple_builder();
    let m = "app::Main".to_string();
    let err = b.context.register_provider(&m, "A".to_string(), A_KEY).unwrap_err();
    match err {
        DiError::DuplicateProvider { token, module } => {
            assert_eq!(token, "A".to_string());
            assert_eq!(module, m);
        },
        _ => panic!("wrong error variant"),
    }
}

#[test]
fn built_in_core_module_builds() {
    let app = build::<CoreModule>(BuildParams::default()).unwrap();
    // The buffer is a singleton: resolvable at top level.
    let buffer = app.get_by_token(&logger_buffer_token(), LOGGER_BUFFER_KEY).unwrap();
    assert_eq!(buffer.concrete, LOGGER_BUFFER_KEY);
    // The logger is transient: it has no single top-level instance.
    let err = app.get_by_token(&logger_token(), LOGGER_KEY).unwrap_err();
    match err {
        DiError::InvalidScope { token } => assert_eq!(token, logger_token()),
        _ => panic!("wrong error variant"),
    }
}

#[test]
fn build_params_toggle() {
    let p = BuildParams::default();
    assert!(!p.should_buffer_logs());
    let p = p.buffer_logs();
    assert!(p.should_buffer_logs());
}

#[test]
fn build_keeps_the_core_graph() {
    let app = build::<CoreModule>(BuildParams::default()).unwrap();
    let container = app.get_container();
    assert!(container.has_module(&"di::CoreModule".to_string()));
    let lm = container.get_module(&"di::LoggerModule".to_string()).unwrap();
    assert!(lm.get_provider(&logger_token()).is_some());
    // Every provider of the returned graph holds its scope instance, and
    // every slot of the logger's record is wired to the buffer.
    let buffer = app.get_by_token(&logger_buffer_token(), LOGGER_BUFFER_KEY).unwrap();
    let logger_wrapper = lm.get_provider(&logger_token()).unwrap();
    for h in logger_wrapper.get_instances() {
        let dep = app.get_dependency(h.instance_id, &logger_buffer_token()).unwrap();
        assert_eq!(dep.instance_id, buffer.instance_id);
    }
}

#[test]
fn build_records_buffer_logs_option() {
    let app = build::<CoreModule>(BuildParams::default().buffer_logs()).unwrap();
    assert!(app.should_buffer_logs());
    let app = build::<CoreModule>(BuildParams::default()).unwrap();
    assert!(!app.should_buffer_logs());
}

#[test]
fn related_module_distances_follow_the_import_walk() {
    let mut b = Builder::new();
    let parent = "app::Parent".to_string();
    b.context.register_module(parent.clone());
    b.context.set_distance(&parent, 2);
    // A fresh child stands one hop further from the root.
    b.context.register_related_module(&parent, &"app::Child".to_string()).unwrap();
    let child = b.context.container.get_module(&"app::Child".to_string()).unwrap();
    assert_eq!(child.get_distance(), 3);
}

#[test]
fn relating_an_existing_module_rebuilds_nothing() {
    let mut b = Builder::new();
    let parent = "app::Parent".to_string();
    let child = "app::Child".to_string();
    b.context.register_module(parent.clone());
    b.context.register_module(child.clone());
    b.context.register_provider(&child, "svc".to_string(), 70).unwrap();
    b.context.set_distance(&child, 5);
    let staged = b.context.modules.len();
    // The child is already under construction: linking it as an import
    // keeps its providers and distance, and stages nothing new.
    b.context.register_related_module(&parent, &child).unwrap();
    assert_eq!(b.context.modules.len(), staged);
    let m = b.context.container.get_module(&child).unwrap();
    assert_eq!(m.get_distance(), 5);
    assert!(m.get_provider(&"svc".to_string()).is_some());
    assert!(b
        .context
        .container
        .get_module(&parent)
        .unwrap()
        .has_related_module(&child));
}
