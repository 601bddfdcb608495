use socketioxide::ack::{AckError, AckFailure, AckHandle, AckRegistry};

#[test]
fn a_new_registry_is_empty() {
    let registry = AckRegistry::new();
    assert_eq!(registry.len(), 0);
    assert_eq!(registry.next(), 0);
    assert!(!registry.contains(0));
}

#[test]
fn ids_must_grow() {
    let mut registry = AckRegistry::new();
    assert_eq!(registry.register_pending(1, 100), Some(AckHandle { id: 1 }));
    assert_eq!(registry.next(), 2);
    assert_eq!(registry.register_pending(1, 100), None);
    assert_eq!(registry.register_pending(0, 100), None);
    assert_eq!(registry.register_pending(5, 100), Some(AckHandle { id: 5 }));
    assert_eq!(registry.register_pending(4, 100), None);
    assert_eq!(registry.len(), 2);
    assert!(registry.contains(1) && registry.contains(5) && !registry.contains(4));
}

#[test]
fn the_largest_id_is_refused() {
    let mut registry = AckRegistry::new();
    assert_eq!(registry.register_pending(u64::MAX, 1), None);
    assert_eq!(registry.register_pending(u64::MAX - 1, 1), Some(AckHandle { id: u64::MAX - 1 }));
    assert_eq!(registry.next(), u64::MAX);
    assert_eq!(registry.register_pending(u64::MAX, 1), None);
}

#[test]
fn a_reply_completes_its_waiter_once() {
    let mut registry = AckRegistry::new();
    registry.register_pending(1, 100);
    registry.register_pending(2, 100);
    assert_eq!(registry.resolve(1, "ok"), Some("ok"));
    assert_eq!(registry.len(), 1);
    assert_eq!(registry.resolve(1, "again"), None);
    assert_eq!(registry.len(), 1);
    assert!(registry.contains(2));
    assert_eq!(registry.next(), 3);
}

#[test]
fn a_reply_to_an_unknown_id_is_dropped() {
    let mut registry = AckRegistry::new();
    registry.register_pending(3, 100);
    assert_eq!(registry.resolve(7, 1u8), None);
    assert_eq!(registry.resolve(0, 1u8), None);
    assert_eq!(registry.len(), 1);
}

#[test]
fn deadlines_that_have_come_fail_with_a_timeout() {
    let mut registry = AckRegistry::new();
    registry.register_pending(1, 30);
    registry.register_pending(2, 10);
    registry.register_pending(3, 20);
    registry.register_pending(4, 21);
    assert_eq!(registry.expire(9), vec![]);
    assert_eq!(
        registry.expire(20),
        vec![
            AckFailure { id: 2, error: AckError::Timeout },
            AckFailure { id: 3, error: AckError::Timeout },
        ]
    );
    assert_eq!(registry.len(), 2);
    assert!(registry.contains(1) && registry.contains(4));
    assert_eq!(registry.expire(20), vec![]);
}

#[test]
fn a_reply_after_the_timeout_is_dropped() {
    let mut registry = AckRegistry::new();
    registry.register_pending(1, 10);
    assert_eq!(registry.expire(10), vec![AckFailure { id: 1, error: AckError::Timeout }]);
    assert_eq!(registry.resolve(1, "late"), None);
    assert_eq!(registry.register_pending(1, 50), None);
}

#[test]
fn cancelling_fails_every_waiter() {
    let mut registry = AckRegistry::new();
    registry.register_pending(1, 10);
    registry.register_pending(4, 10);
    assert_eq!(
        registry.cancel_all(AckError::Closed),
        vec![
            AckFailure { id: 1, error: AckError::Closed },
            AckFailure { id: 4, error: AckError::Closed },
        ]
    );
    assert_eq!(registry.len(), 0);
    assert_eq!(registry.cancel_all(AckError::Closed), vec![]);
    assert_eq!(registry.resolve(4, ()), None);
    assert_eq!(registry.next(), 5);
}
