use match_kit::registry::PredicateRegistry;

#[test]
fn registry_starts_empty() {
    let r = PredicateRegistry::new();
    assert_eq!(r.lookup("42"), None);
    assert_eq!(r.lookup(""), None);
}

#[test]
fn registering_returns_the_when_key() {
    let mut r = PredicateRegistry::new();
    assert_eq!(r.register(42, 0), "when::42");
    assert_eq!(r.lookup("42"), Some(0));
    assert_eq!(r.lookup("4"), None);
}

#[test]
fn registering_again_replaces_the_slot_only() {
    let mut r = PredicateRegistry::new();
    r.register(42, 0);
    assert_eq!(r.register(7, 1), "when::7");
    assert_eq!(r.register(42, 3), "when::42");
    assert_eq!(r.lookup("42"), Some(3));
    assert_eq!(r.lookup("7"), Some(1));
}
