use borrow_tracker::checker::run;
use borrow_tracker::ops::{BorrowKind, Op, Param, PassMode, ValueKind, Violation, ViolationKind};

#[test]
fn use_after_move_on_owning() {
    let ops = vec![
        Op::Bind { name: 1, kind: ValueKind::Owning },
        Op::MoveAssign { dst: 2, src: 1 },
        Op::Read { name: 1 },
    ];
    let r = run(&ops);
    assert_eq!(
        r.err().map(|v| (v.op_index, v.kind)),
        Some((2, ViolationKind::UseAfterMove))
    );
}

#[test]
fn copyable_source_stays_readable() {
    let ops = vec![
        Op::Bind { name: 1, kind: ValueKind::Copyable },
        Op::MoveAssign { dst: 2, src: 1 },
        Op::Read { name: 1 },
        Op::Read { name: 2 },
    ];
    assert!(run(&ops).is_ok());
}

#[test]
fn exclusive_then_shared_conflicts() {
    let ops = vec![
        Op::Bind { name: 1, kind: ValueKind::Owning },
        Op::Borrow { name: 1, kind: BorrowKind::Exclusive },
        Op::Borrow { name: 1, kind: BorrowKind::Shared },
    ];
    let r = run(&ops);
    assert_eq!(
        r.err(),
        Some(Violation {
            op_index: 2,
            kind: ViolationKind::BorrowConflict {
                existing: BorrowKind::Exclusive,
                requested: BorrowKind::Shared,
            },
        })
    );
}

#[test]
fn exclusive_then_exclusive_conflicts() {
    let ops = vec![
        Op::Bind { name: 1, kind: ValueKind::Owning },
        Op::Borrow { name: 1, kind: BorrowKind::Exclusive },
        Op::Borrow { name: 1, kind: BorrowKind::Exclusive },
    ];
    let r = run(&ops);
    assert_eq!(
        r.err(),
        Some(Violation {
            op_index: 2,
            kind: ViolationKind::BorrowConflict {
                existing: BorrowKind::Exclusive,
                requested: BorrowKind::Exclusive,
            },
        })
    );
}

#[test]
fn shared_then_exclusive_conflicts() {
    let ops = vec![
        Op::Bind { name: 1, kind: ValueKind::Owning },
        Op::Borrow { name: 1, kind: BorrowKind::Shared },
        Op::Borrow { name: 1, kind: BorrowKind::Exclusive },
    ];
    let r = run(&ops);
    assert_eq!(
        r.err(),
        Some(Violation {
            op_index: 2,
            kind: ViolationKind::BorrowConflict {
                existing: BorrowKind::Shared,
                requested: BorrowKind::Exclusive,
            },
        })
    );
}

#[test]
fn two_shared_borrows_succeed() {
    let ops = vec![
        Op::Bind { name: 1, kind: ValueKind::Owning },
        Op::Borrow { name: 1, kind: BorrowKind::Shared },
        Op::Borrow { name: 1, kind: BorrowKind::Shared },
    ];
    assert!(run(&ops).is_ok());
}

#[test]
fn non_lexical_release_permits_exclusive() {
    let ops = vec![
        Op::Bind { name: 1, kind: ValueKind::Owning },
        Op::Borrow { name: 1, kind: BorrowKind::Shared },
        Op::Borrow { name: 1, kind: BorrowKind::Shared },
        Op::EndBorrow { borrow: 0 },
        Op::EndBorrow { borrow: 1 },
        Op::Borrow { name: 1, kind: BorrowKind::Exclusive },
    ];
    assert!(run(&ops).is_ok());
}

#[test]
fn dangling_reference_detected() {
    let ops = vec![
        Op::EnterScope,
        Op::Bind { name: 1, kind: ValueKind::Owning },
        Op::Borrow { name: 1, kind: BorrowKind::Shared },
        Op::ScopeExit,
    ];
    let r = run(&ops);
    assert_eq!(
        r.err(),
        Some(Violation { op_index: 3, kind: ViolationKind::DanglingReference })
    );
}

#[test]
fn ended_borrow_does_not_dangle() {
    let ops = vec![
        Op::EnterScope,
        Op::Bind { name: 1, kind: ValueKind::Owning },
        Op::Borrow { name: 1, kind: BorrowKind::Shared },
        Op::EndBorrow { borrow: 0 },
        Op::ScopeExit,
    ];
    assert!(run(&ops).is_ok());
}

#[test]
fn destruction_in_reverse_declaration_order() {
    let ops = vec![
        Op::Bind { name: 1, kind: ValueKind::Owning },
        Op::Bind { name: 2, kind: ValueKind::Owning },
        Op::Bind { name: 3, kind: ValueKind::Owning },
        Op::ScopeExit,
    ];
    let c = run(&ops).unwrap();
    assert_eq!(c.store.releases, vec![2, 1, 0]);
}

#[test]
fn shadowing_releases_both_values() {
    let ops = vec![
        Op::Bind { name: 7, kind: ValueKind::Owning },
        Op::Bind { name: 7, kind: ValueKind::Owning },
        Op::ScopeExit,
    ];
    let c = run(&ops).unwrap();
    assert_eq!(c.store.releases, vec![1, 0]);
}

#[test]
fn shadowed_binding_not_destroyed_early() {
    let ops = vec![
        Op::Bind { name: 7, kind: ValueKind::Owning },
        Op::Bind { name: 7, kind: ValueKind::Owning },
    ];
    let c = run(&ops).unwrap();
    assert_eq!(c.store.releases, vec![]);
    assert_eq!(c.store.bindings.len(), 2);
}

#[test]
fn unknown_binding_reported_at_index() {
    let ops = vec![Op::Read { name: 9 }];
    let r = run(&ops);
    assert_eq!(
        r.err(),
        Some(Violation { op_index: 0, kind: ViolationKind::UnknownBinding })
    );
}

#[test]
fn second_move_of_same_source_fails() {
    let ops = vec![
        Op::Bind { name: 1, kind: ValueKind::Owning },
        Op::MoveAssign { dst: 2, src: 1 },
        Op::MoveAssign { dst: 3, src: 1 },
    ];
    let r = run(&ops);
    assert_eq!(
        r.err(),
        Some(Violation { op_index: 2, kind: ViolationKind::UseAfterMove })
    );
}

#[test]
fn stale_end_borrow_is_unknown() {
    let ops = vec![Op::EndBorrow { borrow: 0 }];
    let r = run(&ops);
    assert_eq!(
        r.err(),
        Some(Violation { op_index: 0, kind: ViolationKind::UnknownBinding })
    );
}

#[test]
fn call_moves_owning_argument() {
    let ops = vec![
        Op::Bind { name: 1, kind: ValueKind::Owning },
        Op::FunctionCall { params: vec![Param { name: 1, mode: PassMode::ByValue }] },
        Op::Read { name: 1 },
    ];
    let r = run(&ops);
    assert_eq!(
        r.err(),
        Some(Violation { op_index: 2, kind: ViolationKind::UseAfterMove })
    );
}

#[test]
fn call_releases_owning_argument() {
    let ops = vec![
        Op::Bind { name: 1, kind: ValueKind::Owning },
        Op::FunctionCall { params: vec![Param { name: 1, mode: PassMode::ByValue }] },
    ];
    let c = run(&ops).unwrap();
    assert_eq!(c.store.releases, vec![0]);
}

#[test]
fn call_copies_copyable_argument() {
    let ops = vec![
        Op::Bind { name: 1, kind: ValueKind::Copyable },
        Op::FunctionCall { params: vec![Param { name: 1, mode: PassMode::ByValue }] },
        Op::Read { name: 1 },
    ];
    assert!(run(&ops).is_ok());
}

#[test]
fn call_with_two_exclusive_refs_conflicts() {
    let ops = vec![
        Op::Bind { name: 1, kind: ValueKind::Owning },
        Op::FunctionCall {
            params: vec![
                Param { name: 1, mode: PassMode::ByRef(BorrowKind::Exclusive) },
                Param { name: 1, mode: PassMode::ByRef(BorrowKind::Exclusive) },
            ],
        },
    ];
    let r = run(&ops);
    assert_eq!(
        r.err(),
        Some(Violation {
            op_index: 1,
            kind: ViolationKind::BorrowConflict {
                existing: BorrowKind::Exclusive,
                requested: BorrowKind::Exclusive,
            },
        })
    );
}

#[test]
fn call_borrows_end_on_return() {
    let ops = vec![
        Op::Bind { name: 1, kind: ValueKind::Owning },
        Op::FunctionCall {
            params: vec![Param { name: 1, mode: PassMode::ByRef(BorrowKind::Exclusive) }],
        },
        Op::Borrow { name: 1, kind: BorrowKind::Exclusive },
    ];
    assert!(run(&ops).is_ok());
}

#[test]
fn reassignment_releases_previous_value() {
    let ops = vec![
        Op::Bind { name: 1, kind: ValueKind::Owning },
        Op::Bind { name: 2, kind: ValueKind::Owning },
        Op::MoveAssign { dst: 1, src: 2 },
    ];
    let c = run(&ops).unwrap();
    assert_eq!(c.store.releases, vec![0]);
}

#[test]
fn inner_scope_shadow_restores_outer_binding() {
    let ops = vec![
        Op::Bind { name: 1, kind: ValueKind::Owning },
        Op::EnterScope,
        Op::Bind { name: 1, kind: ValueKind::Owning },
        Op::ScopeExit,
        Op::Read { name: 1 },
    ];
    let c = run(&ops).unwrap();
    assert_eq!(c.store.releases, vec![1]);
}

#[test]
fn move_of_borrowed_value_dangles() {
    let ops = vec![
        Op::Bind { name: 1, kind: ValueKind::Owning },
        Op::Borrow { name: 1, kind: BorrowKind::Shared },
        Op::MoveAssign { dst: 2, src: 1 },
    ];
    let r = run(&ops);
    assert_eq!(
        r.err(),
        Some(Violation { op_index: 2, kind: ViolationKind::DanglingReference })
    );
}

#[test]
fn move_after_end_borrow_succeeds() {
    let ops = vec![
        Op::Bind { name: 1, kind: ValueKind::Owning },
        Op::Borrow { name: 1, kind: BorrowKind::Shared },
        Op::EndBorrow { borrow: 0 },
        Op::MoveAssign { dst: 2, src: 1 },
    ];
    assert!(run(&ops).is_ok());
}

#[test]
fn reassignment_over_borrowed_value_dangles() {
    let ops = vec![
        Op::Bind { name: 1, kind: ValueKind::Owning },
        Op::Bind { name: 2, kind: ValueKind::Owning },
        Op::Borrow { name: 1, kind: BorrowKind::Shared },
        Op::MoveAssign { dst: 1, src: 2 },
    ];
    let r = run(&ops);
    assert_eq!(
        r.err(),
        Some(Violation { op_index: 3, kind: ViolationKind::DanglingReference })
    );
}

#[test]
fn copy_onto_borrowed_value_dangles() {
    let ops = vec![
        Op::Bind { name: 1, kind: ValueKind::Copyable },
        Op::Bind { name: 2, kind: ValueKind::Copyable },
        Op::Borrow { name: 1, kind: BorrowKind::Shared },
        Op::MoveAssign { dst: 1, src: 2 },
    ];
    let r = run(&ops);
    assert_eq!(
        r.err(),
        Some(Violation { op_index: 3, kind: ViolationKind::DanglingReference })
    );
}

#[test]
fn call_moving_borrowed_value_dangles() {
    let ops = vec![
        Op::Bind { name: 1, kind: ValueKind::Owning },
        Op::Borrow { name: 1, kind: BorrowKind::Shared },
        Op::FunctionCall { params: vec![Param { name: 1, mode: PassMode::ByValue }] },
    ];
    let r = run(&ops);
    assert_eq!(
        r.err(),
        Some(Violation { op_index: 2, kind: ViolationKind::DanglingReference })
    );
}

#[test]
fn call_ref_then_move_of_same_binding_dangles() {
    let ops = vec![
        Op::Bind { name: 1, kind: ValueKind::Owning },
        Op::FunctionCall {
            params: vec![
                Param { name: 1, mode: PassMode::ByRef(BorrowKind::Shared) },
                Param { name: 1, mode: PassMode::ByValue },
            ],
        },
    ];
    let r = run(&ops);
    assert_eq!(
        r.err(),
        Some(Violation { op_index: 1, kind: ViolationKind::DanglingReference })
    );
}

#[test]
fn exit_without_open_scope_is_unknown() {
    let ops = vec![Op::ScopeExit, Op::ScopeExit];
    let r = run(&ops);
    assert_eq!(
        r.err(),
        Some(Violation { op_index: 1, kind: ViolationKind::UnknownBinding })
    );
}

#[test]
fn success_snapshot_reports_bindings() {
    let ops = vec![
        Op::Bind { name: 5, kind: ValueKind::Owning },
        Op::Bind { name: 6, kind: ValueKind::Copyable },
    ];
    let c = run(&ops).unwrap();
    assert_eq!(c.store.bindings.len(), 2);
    assert_eq!(c.store.bindings[0].name, 5);
    assert_eq!(c.store.bindings[1].name, 6);
    assert!(c.store.releases.is_empty());
}
