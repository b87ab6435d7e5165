//! Module and container behaviour: registration, export visibility,
//! hierarchical lookup, distance ordering.

use blackbox_di::container::Container;
use blackbox_di::errors::DiError;
use blackbox_di::instance_wrapper::InstanceWrapper;
use blackbox_di::module::Module;

fn module_with_provider(id: u64, token: &str, provider: &str, wrapper_id: u64) -> Module {
    let mut m = Module::new(id, token.to_string());
    let w = InstanceWrapper::new(wrapper_id, provider.to_string(), token.to_string());
    m.register_provider(w);
    m
}

#[test]
fn module_registration_and_lookup() {
    let mut m = Module::new(1, "app::Main".to_string());
    assert_eq!(m.get_id(), 1);
    assert_eq!(m.get_token(), "app::Main".to_string());
    assert_eq!(m.get_distance(), 0);
    m.set_distance(3);
    assert_eq!(m.get_distance(), 3);

    let w = InstanceWrapper::new(10, "svc".to_string(), "app::Main".to_string());
    m.register_provider(w);
    assert!(m.get_provider(&"svc".to_string()).is_some());
    assert!(m.get_provider(&"other".to_string()).is_none());

    // Not exported yet: invisible to importers.
    assert!(m.get_exported_provider(&"svc".to_string()).is_none());
    m.register_exported_provider("svc".to_string()).unwrap();
    assert!(m.get_exported_provider(&"svc".to_string()).is_some());
}

#[test]
fn export_of_unregistered_provider_fails() {
    let mut m = Module::new(1, "app::Main".to_string());
    let err = m.register_exported_provider("ghost".to_string()).unwrap_err();
    match err {
        DiError::ExportOfUnregistered { token, module } => {
            assert_eq!(token, "ghost".to_string());
            assert_eq!(module, "app::Main".to_string());
        },
        _ => panic!("wrong error variant"),
    }
}

#[test]
fn own_provider_shadows_import() {
    let mut c = Container::new();
    let mut root = module_with_provider(1, "app::Root", "svc", 10);
    root.register_related_module("app::Dep".to_string());
    c.register_module("app::Root".to_string(), root);
    let mut dep = module_with_provider(2, "app::Dep", "svc", 20);
    dep.register_exported_provider("svc".to_string()).unwrap();
    c.register_module("app::Dep".to_string(), dep);

    let loc = c.get_provider_in_module(&"svc".to_string(), &"app::Root".to_string()).unwrap();
    let m = c.module_at(loc.module_index);
    assert_eq!(m.get_token(), "app::Root".to_string());
}

#[test]
fn unexported_provider_is_unreachable_from_importer() {
    let mut c = Container::new();
    let mut root = Module::new(1, "app::Root".to_string());
    root.register_related_module("app::Dep".to_string());
    c.register_module("app::Root".to_string(), root);
    // "svc" lives in the imported module but is not marked exported.
    let dep = module_with_provider(2, "app::Dep", "svc", 20);
    c.register_module("app::Dep".to_string(), dep);

    assert!(c.get_provider_in_module(&"svc".to_string(), &"app::Root".to_string()).is_none());
}

#[test]
fn exported_provider_is_reachable_through_one_hop() {
    let mut c = Container::new();
    let mut root = Module::new(1, "app::Root".to_string());
    root.register_related_module("app::Dep".to_string());
    c.register_module("app::Root".to_string(), root);
    let mut dep = module_with_provider(2, "app::Dep", "svc", 20);
    dep.register_exported_provider("svc".to_string()).unwrap();
    c.register_module("app::Dep".to_string(), dep);

    let loc = c.get_provider_in_module(&"svc".to_string(), &"app::Root".to_string()).unwrap();
    assert_eq!(c.module_at(loc.module_index).get_token(), "app::Dep".to_string());
}

#[test]
fn global_module_is_reachable_without_import() {
    let mut c = Container::new();
    let root = Module::new(1, "app::Root".to_string());
    c.register_module("app::Root".to_string(), root);
    let mut g = module_with_provider(2, "app::Global", "glog", 20);
    g.register_exported_provider("glog".to_string()).unwrap();
    c.register_global_module("app::Global".to_string(), g);

    // The root imports nothing, yet resolves the global's export.
    let loc = c.get_provider_in_module(&"glog".to_string(), &"app::Root".to_string()).unwrap();
    assert_eq!(c.module_at(loc.module_index).get_token(), "app::Global".to_string());
}

#[test]
fn global_import_is_reachable_at_two_hops() {
    let mut c = Container::new();
    let root = Module::new(1, "app::Root".to_string());
    c.register_module("app::Root".to_string(), root);
    let mut g = Module::new(2, "app::Global".to_string());
    g.register_related_module("app::Inner".to_string());
    c.register_global_module("app::Global".to_string(), g);
    let mut inner = module_with_provider(3, "app::Inner", "deep", 30);
    inner.register_exported_provider("deep".to_string()).unwrap();
    c.register_module("app::Inner".to_string(), inner);

    let loc = c.get_provider_in_module(&"deep".to_string(), &"app::Root".to_string()).unwrap();
    assert_eq!(c.module_at(loc.module_index).get_token(), "app::Inner".to_string());
}

#[test]
fn modules_sorted_by_descending_distance() {
    let mut c = Container::new();
    let mut m0 = Module::new(1, "a".to_string());
    m0.set_distance(0);
    c.register_module("a".to_string(), m0);
    let mut m1 = Module::new(2, "b".to_string());
    m1.set_distance(2);
    c.register_module("b".to_string(), m1);
    let mut m2 = Module::new(3, "c".to_string());
    m2.set_distance(1);
    c.register_module("c".to_string(), m2);

    let order = c.get_modules_sorted_by_distance();
    assert_eq!(order.len(), 3);
    let d0 = c.module_at(order[0]).get_distance();
    let d1 = c.module_at(order[1]).get_distance();
    let d2 = c.module_at(order[2]).get_distance();
    assert_eq!((d0, d1, d2), (2, 1, 0));
}

#[test]
fn container_wide_provider_search() {
    let mut c = Container::new();
    c.register_module("app::A".to_string(), Module::new(1, "app::A".to_string()));
    c.register_module("app::B".to_string(), module_with_provider(2, "app::B", "svc", 20));
    // get_provider searches every registered module, exported or not.
    let loc = c.get_provider(&"svc".to_string()).unwrap();
    assert_eq!(c.module_at(loc.module_index).get_token(), "app::B".to_string());
    assert!(c.get_provider(&"ghost".to_string()).is_none());
}

#[test]
fn module_hosting_a_reachable_provider() {
    let mut c = Container::new();
    let mut root = Module::new(1, "app::Root".to_string());
    root.register_related_module("app::Dep".to_string());
    c.register_module("app::Root".to_string(), root);
    let mut dep = module_with_provider(2, "app::Dep", "svc", 20);
    dep.register_exported_provider("svc".to_string()).unwrap();
    c.register_module("app::Dep".to_string(), dep);

    let mi = c.get_module_by_provider(&"svc".to_string(), &"app::Root".to_string()).unwrap();
    assert_eq!(c.module_at(mi).get_token(), "app::Dep".to_string());
    assert!(c.get_module_by_provider(&"ghost".to_string(), &"app::Root".to_string()).is_none());
}

#[test]
fn container_get_module() {
    let mut c = Container::new();
    assert!(!c.has_module(&"x".to_string()));
    c.register_module("x".to_string(), Module::new(1, "x".to_string()));
    assert!(c.has_module(&"x".to_string()));
    assert!(c.get_module(&"x".to_string()).is_some());
    assert!(c.get_module(&"y".to_string()).is_none());
}
