//! Deferred slots and cells: Ref, Link, RefMut, LinkMut.

use blackbox_di::cast::{Handle, Vtable};
use blackbox_di::link::Link;
use blackbox_di::link_mut::LinkMut;
use blackbox_di::reference::Ref;
use blackbox_di::reference_mut::RefMut;

const SERVICE: u64 = 100;
const IFACE: u64 = 1;

fn vt() -> Vtable {
    let mut vt = Vtable::new();
    vt.register(SERVICE, SERVICE);
    vt.register(IFACE, SERVICE);
    vt
}

#[test]
fn ref_empty_reads_as_none() {
    let r = Ref::empty();
    assert!(r.as_ref().is_none());
    // Reading before the link phase is a typed miss, not a crash.
    let vt = vt();
    assert!(r.cast(&vt, IFACE).is_err());
    assert!(!r.is(&vt, IFACE));
}

#[test]
fn ref_init_then_read() {
    let h = Handle::new(3, SERVICE);
    let mut r = Ref::empty();
    r.__init(h);
    assert_eq!(r.as_ref().unwrap(), h);
    let vt = vt();
    let cast = r.cast(&vt, IFACE).unwrap();
    assert_eq!(cast.as_ref().unwrap().view, IFACE);
    assert_eq!(cast.as_ref().unwrap().instance_id, 3);
    assert!(r.is(&vt, IFACE));
}

#[test]
fn ref_new_is_initialized() {
    let h = Handle::new(4, SERVICE);
    let r = Ref::new(h);
    assert_eq!(r.as_ref().unwrap(), h);
}

#[test]
fn link_init_casts_to_declared_interface() {
    let vt = vt();
    let mut cell = Link::empty(IFACE);
    assert!(cell.as_ref().is_none());
    let h = Handle::new(9, SERVICE);
    cell.init(&vt, h).unwrap();
    let stored = cell.as_ref().unwrap();
    assert_eq!(stored.instance_id, 9);
    assert_eq!(stored.view, IFACE);
    // Cast back to the concrete type.
    let back = cell.cast(&vt, SERVICE).unwrap();
    assert_eq!(back, h);
    assert!(cell.is(&vt, SERVICE));
}

#[test]
fn link_init_fails_without_caster() {
    let vt = vt();
    let mut cell = Link::empty(777);
    let h = Handle::new(9, SERVICE);
    assert!(cell.init(&vt, h).is_err());
    assert!(cell.as_ref().is_none());
}

#[test]
fn ref_mut_reads_and_writes() {
    let mut cell = RefMut::new(5u64);
    assert_eq!(*cell.as_ref(), 5);
    *cell.as_mut() = 8;
    assert_eq!(*cell.as_ref(), 8);
}

#[test]
fn link_mut_reads_and_writes() {
    let mut cell = LinkMut::new("ctx".to_string());
    assert_eq!(cell.as_ref(), &"ctx".to_string());
    *cell.as_mut() = "next".to_string();
    assert_eq!(cell.as_ref(), &"next".to_string());
}
