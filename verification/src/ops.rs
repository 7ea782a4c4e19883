//! The vocabulary shared by the binding store and the borrow checker:
//! bindings, borrows, the operations a client may submit, and the violations
//! the checker reports.

use vstd::prelude::*;

verus! {

/// Whether assignment duplicates a value or transfers its ownership.
///
/// `Copyable` stands for stack-only data (integers, booleans, characters,
/// tuples of such); assigning it duplicates the value.  `Owning` stands for
/// heap-backed data (such as a growable string); assigning it moves the value
/// and invalidates the source binding.
#[derive(Clone, Copy, Debug, PartialEq, Eq, Structural)]
pub enum ValueKind {
    Copyable,
    Owning,
}

/// The ownership state of a binding.
///
/// `Owned(v)` holds the identifier of the value the binding currently owns.
/// `Moved` marks a binding whose value was transferred away; `Dropped` marks
/// one whose value was already released.
#[derive(Clone, Copy, Debug, PartialEq, Eq, Structural)]
pub enum OwnerState {
    Owned(usize),
    Moved,
    Dropped,
}

/// A named slot within a scope.  Names are plain integer identifiers; a later
/// binding with the same name shadows an earlier one without destroying it.
#[derive(Clone, Copy, Debug, PartialEq, Eq, Structural)]
pub struct Binding {
    pub name: u64,
    pub kind: ValueKind,
    pub state: OwnerState,
}

/// The two kinds of borrow: any number of live `Shared` borrows may coexist,
/// while a live `Exclusive` borrow tolerates no other borrow of the same
/// value.
#[derive(Clone, Copy, Debug, PartialEq, Eq, Structural)]
pub enum BorrowKind {
    Shared,
    Exclusive,
}

/// A non-owning reference to a value.  A borrow is identified by its index in
/// the checker's borrow list; `live` is cleared when the borrow's last use has
/// passed.
#[derive(Clone, Copy, Debug, PartialEq, Eq, Structural)]
pub struct Borrow {
    pub kind: BorrowKind,
    pub value: usize,
    pub live: bool,
}

/// How an argument is handed to a called function: by value (move or copy
/// semantics, as assignment) or by reference (a borrow for the duration of
/// the call).
#[derive(Clone, Copy, Debug, PartialEq, Eq, Structural)]
pub enum PassMode {
    ByValue,
    ByRef(BorrowKind),
}

/// One argument of a `FunctionCall` operation.
#[derive(Clone, Copy, Debug, PartialEq, Eq, Structural)]
pub struct Param {
    pub name: u64,
    pub mode: PassMode,
}

/// One operation of a submitted sequence.
///
/// `EnterScope` opens a nested scope and `ScopeExit` closes the innermost
/// one, releasing its still-owned values in reverse declaration order.
/// `Bind` creates a binding owning a fresh value.  `Read` uses a binding as a
/// value.  `MoveAssign` assigns the source binding's value to the destination
/// name, duplicating a `Copyable` value and moving an `Owning` one; a value
/// still under a live borrow can be neither moved out nor released by the
/// reassignment.  `Borrow`
/// creates a live borrow (its identifier is the number of borrows created
/// before it), and `EndBorrow` closes a live borrow after its last use.
/// `FunctionCall` passes each argument by value or by reference; borrows made
/// for the call end when the call returns.
#[derive(Debug)]
pub enum Op {
    EnterScope,
    Bind { name: u64, kind: ValueKind },
    Read { name: u64 },
    MoveAssign { dst: u64, src: u64 },
    Borrow { name: u64, kind: BorrowKind },
    EndBorrow { borrow: usize },
    ScopeExit,
    FunctionCall { params: Vec<Param> },
}

/// Why a sequence was rejected.
///
/// `UnknownBinding` also covers an operation that refers to a borrow
/// identifier that is not live, or to a scope when none is open.
/// `DanglingReference` reports a live borrow whose value would be gone: its
/// target's scope exits, its value is moved out, or its value is released by
/// a reassignment, while the borrow is still live.
#[derive(Clone, Copy, Debug, PartialEq, Eq, Structural)]
pub enum ViolationKind {
    UnknownBinding,
    UseAfterMove,
    BorrowConflict { existing: BorrowKind, requested: BorrowKind },
    DanglingReference,
}

/// The first violation of a rejected sequence: the index of the offending
/// operation and the reason.
#[derive(Clone, Copy, Debug, PartialEq, Eq, Structural)]
pub struct Violation {
    pub op_index: usize,
    pub kind: ViolationKind,
}

} // verus!
