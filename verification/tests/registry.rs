use baelyks_notification_server::registry::IdentityRegistry;

#[test]
fn a_new_registry_counts_up_from_one() {
    let mut registry = IdentityRegistry::new();
    let mut ids = Vec::new();
    for _ in 0..1000 {
        ids.push(registry.allocate());
    }
    let expected: Vec<u32> = (1..=1000).collect();
    assert_eq!(ids, expected);
}

#[test]
fn an_allocated_id_is_in_use() {
    let mut registry = IdentityRegistry::new();
    assert!(!registry.is_used(1));
    let id = registry.allocate();
    assert_eq!(id, 1);
    assert!(registry.is_used(1));
    assert!(!registry.is_used(2));
    assert!(!registry.is_used(0));
    assert!(registry.has_free_id());
}

#[test]
fn a_released_id_is_free_again() {
    let mut registry = IdentityRegistry::new();
    assert_eq!(registry.allocate(), 1);
    assert_eq!(registry.allocate(), 2);
    assert_eq!(registry.allocate(), 3);
    registry.release(2);
    assert!(!registry.is_used(2));
    assert!(registry.is_used(1));
    assert!(registry.is_used(3));
}

#[test]
fn allocation_goes_on_past_the_last_id_handed_out() {
    let mut registry = IdentityRegistry::new();
    assert_eq!(registry.allocate(), 1);
    assert_eq!(registry.allocate(), 2);
    assert_eq!(registry.allocate(), 3);
    registry.release(2);
    registry.release(3);
    // The registry looks at 4 next, whatever was released before it.
    assert_eq!(registry.allocate(), 4);
    assert_eq!(registry.allocate(), 5);
}

#[test]
fn allocation_never_hands_out_an_id_in_use() {
    let mut registry = IdentityRegistry::new();
    let mut live = std::collections::HashSet::new();
    for round in 0..200u32 {
        let id = registry.allocate();
        assert_ne!(id, 0);
        assert!(live.insert(id), "id {} handed out twice", id);
        if round % 3 == 0 {
            registry.release(id);
            live.remove(&id);
        }
    }
}

#[test]
fn releasing_an_unused_id_changes_nothing() {
    let mut registry = IdentityRegistry::new();
    registry.release(7);
    registry.release(0);
    assert!(!registry.is_used(7));
    assert_eq!(registry.allocate(), 1);
}

#[test]
fn an_id_marked_as_used_is_passed_over() {
    let mut registry = IdentityRegistry::new();
    registry.mark_used(1);
    registry.mark_used(2);
    registry.mark_used(4);
    assert!(registry.is_used(4));
    assert_eq!(registry.allocate(), 3);
    assert_eq!(registry.allocate(), 5);
    registry.mark_used(5);
    assert_eq!(registry.allocate(), 6);
}
