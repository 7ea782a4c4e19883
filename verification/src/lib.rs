//! A static ownership-and-borrow tracker.
//!
//! The library models a minimal variable-binding universe: nested lexical
//! scopes hold named bindings, each binding may own an abstract value, and
//! borrows of those values are either shared or exclusive.  A client submits
//! an ordered sequence of operations (bind, move-assign, borrow, end-borrow,
//! scope exit, function call); the checker either accepts the whole sequence
//! and returns the final state, or reports the first violation together with
//! the index of the offending operation.
//!
//! The enforced discipline: a value has a single owner at a time, shared and
//! exclusive borrows are mutually exclusive, and no borrow may outlive the
//! binding it targets.

pub mod arith;
pub mod checker;
pub mod laws;
pub mod ops;
pub mod store;
pub mod text;
