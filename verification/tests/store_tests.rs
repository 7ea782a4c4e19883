use borrow_tracker::ops::{OwnerState, ValueKind, ViolationKind};
use borrow_tracker::store::Store;

#[test]
fn lookup_prefers_latest_binding() {
    let mut s = Store::new();
    s.enter_scope();
    s.bind(1, ValueKind::Owning, OwnerState::Owned(10));
    s.bind(1, ValueKind::Owning, OwnerState::Owned(11));
    assert_eq!(s.lookup(1), Some(1));
    assert_eq!(s.lookup(2), None);
}

#[test]
fn exit_scope_releases_in_reverse_order() {
    let mut s = Store::new();
    s.enter_scope();
    s.bind(1, ValueKind::Owning, OwnerState::Owned(10));
    s.bind(2, ValueKind::Owning, OwnerState::Owned(11));
    s.bind(3, ValueKind::Owning, OwnerState::Owned(12));
    s.exit_scope();
    assert_eq!(s.releases, vec![12, 11, 10]);
    assert!(s.bindings.is_empty());
}

#[test]
fn moved_binding_is_not_released() {
    let mut s = Store::new();
    s.enter_scope();
    s.bind(1, ValueKind::Owning, OwnerState::Owned(10));
    assert_eq!(s.move_out(1), Ok(()));
    s.exit_scope();
    assert_eq!(s.releases, vec![]);
}

#[test]
fn move_out_twice_fails() {
    let mut s = Store::new();
    s.enter_scope();
    s.bind(1, ValueKind::Owning, OwnerState::Owned(10));
    assert_eq!(s.move_out(1), Ok(()));
    assert_eq!(s.move_out(1), Err(ViolationKind::UseAfterMove));
}

#[test]
fn move_out_unknown_name_fails() {
    let mut s = Store::new();
    s.enter_scope();
    assert_eq!(s.move_out(4), Err(ViolationKind::UnknownBinding));
}

#[test]
fn dropped_binding_cannot_be_moved_from() {
    let mut s = Store::new();
    s.enter_scope();
    s.bind(1, ValueKind::Owning, OwnerState::Dropped);
    assert_eq!(s.move_out(1), Err(ViolationKind::UseAfterMove));
}

#[test]
fn reassign_releases_owned_value_first() {
    let mut s = Store::new();
    s.enter_scope();
    s.bind(1, ValueKind::Owning, OwnerState::Owned(10));
    s.reassign(1, 20);
    assert_eq!(s.releases, vec![10]);
    assert_eq!(s.bindings[0].state, OwnerState::Owned(20));
}
