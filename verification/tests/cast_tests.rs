//! The trait-cast registry: registration, casting, round trips.

use blackbox_di::cast::{Caster, Error, Handle, Vtable};

const SERVICE: u64 = 100;
const INJECTABLE: u64 = 1;
const ISERVICE: u64 = 2;

fn registry_for_service() -> Vtable {
    // One cast registration records a caster for the concrete type itself
    // and one for the interface.
    let mut vt = Vtable::new();
    vt.register(SERVICE, SERVICE);
    vt.register(INJECTABLE, SERVICE);
    vt.register(SERVICE, SERVICE);
    vt.register(ISERVICE, SERVICE);
    vt
}

#[test]
fn cast_to_traits() {
    let vt = registry_for_service();
    let service = Handle::new(7, SERVICE);
    let injectable = service.cast(&vt, INJECTABLE).unwrap();
    let interface = service.cast(&vt, ISERVICE).unwrap();
    assert_eq!(injectable.instance_id, service.instance_id);
    assert_eq!(interface.instance_id, service.instance_id);
    assert_eq!(injectable.view, INJECTABLE);
    assert_eq!(interface.view, ISERVICE);
}

#[test]
fn cast_traits_among_themselves() {
    let vt = registry_for_service();
    let service = Handle::new(7, SERVICE);
    let injectable_1 = service.cast(&vt, INJECTABLE).unwrap();
    let interface = injectable_1.cast(&vt, ISERVICE).unwrap();
    let interface_2 = interface.cast(&vt, INJECTABLE).unwrap();
    let initial_service = interface_2.cast(&vt, SERVICE).unwrap();
    assert_eq!(initial_service, service);
}

#[test]
fn cast_missing_caster_is_recoverable() {
    let vt = registry_for_service();
    let service = Handle::new(7, SERVICE);
    let unrelated: u64 = 999;
    let err = service.cast(&vt, unrelated).unwrap_err();
    assert_eq!(err.target, unrelated);
    assert_eq!(err.source, SERVICE);
    assert!(!service.is(&vt, unrelated));
    assert!(service.is(&vt, INJECTABLE));
}

#[test]
fn error_new_keeps_message() {
    let e = Error::new("no caster");
    assert_eq!(e.msg, "no caster".to_string());
    assert_eq!(e.target, 0);
    assert_eq!(e.source, 0);
}

#[test]
fn caster_new_keeps_pair() {
    let c = Caster::new(ISERVICE, SERVICE);
    assert_eq!(c.target, ISERVICE);
    assert_eq!(c.source, SERVICE);
}
