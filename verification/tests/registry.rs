use json_marshal::registry::{Singleton, SingletonRegistry};
use json_marshal::scalar::{parse_bool, parse_false, parse_none, parse_true};
use json_marshal::value::Value;
use std::rc::Rc;

#[test]
fn registry_starts_without_storage() {
    let registry = SingletonRegistry::new();
    assert!(!registry.initialized());
}

#[test]
fn first_acquisition_makes_the_storage() {
    let mut registry = SingletonRegistry::new();
    let handle = registry.get(Singleton::Null);
    assert!(registry.initialized());
    assert_eq!(*handle, Value::Null);
}

#[test]
fn init_is_idempotent() {
    let mut registry = SingletonRegistry::new();
    registry.init();
    assert!(registry.initialized());
    let first = registry.get(Singleton::EmptyString);
    registry.init();
    registry.get(Singleton::True);
    let second = registry.get(Singleton::EmptyString);
    assert!(Rc::ptr_eq(&first, &second));
    assert!(registry.initialized());
}

#[test]
fn singletons_hold_their_values() {
    let mut registry = SingletonRegistry::new();
    assert_eq!(*registry.get(Singleton::True), Value::Bool(true));
    assert_eq!(*registry.get(Singleton::False), Value::Bool(false));
    assert_eq!(*registry.get(Singleton::Null), Value::Null);
    assert_eq!(*registry.get(Singleton::EmptyString), Value::String(String::new()));
}

#[test]
fn two_acquisitions_share_one_storage() {
    let mut registry = SingletonRegistry::new();
    for which in [Singleton::True, Singleton::False, Singleton::Null, Singleton::EmptyString] {
        let first = registry.get(which);
        let second = registry.get(which);
        assert!(Rc::ptr_eq(&first, &second), "{which:?}");
    }
}

#[test]
fn distinct_singletons_have_distinct_storage() {
    let mut registry = SingletonRegistry::new();
    let truth = registry.get(Singleton::True);
    let falsity = registry.get(Singleton::False);
    assert!(!Rc::ptr_eq(&truth, &falsity));
}

#[test]
fn every_share_counts() {
    let mut registry = SingletonRegistry::new();
    let first = registry.get(Singleton::EmptyString);
    // the registry's own, and the share
    assert_eq!(Rc::strong_count(&first), 2);
    let second = registry.get(Singleton::EmptyString);
    assert_eq!(Rc::strong_count(&first), 3);
    drop(second);
    assert_eq!(Rc::strong_count(&first), 2);
    drop(first);
    // the registry never lets go of its own
    let again = registry.get(Singleton::EmptyString);
    assert_eq!(Rc::strong_count(&again), 2);
}

#[test]
fn handlers_hand_out_the_singletons() {
    let mut registry = SingletonRegistry::new();
    let t = parse_true(&mut registry);
    let f = parse_false(&mut registry);
    let n = parse_none(&mut registry);
    assert_eq!(*t, Value::Bool(true));
    assert_eq!(*f, Value::Bool(false));
    assert_eq!(*n, Value::Null);
    assert!(Rc::ptr_eq(&t, &parse_bool(&mut registry, true)));
    assert!(Rc::ptr_eq(&f, &parse_bool(&mut registry, false)));
    assert!(Rc::ptr_eq(&n, &registry.get(Singleton::Null)));
    assert!(Rc::ptr_eq(&t, &registry.get(Singleton::True)));
}
