//! The borrow checker: validates an operation sequence against the ownership
//! and borrowing discipline, producing either the final state or the first
//! violation.
//!
//! The whole algorithm is mirrored by spec functions over [`CheckerModel`];
//! [`run`] is proved to return exactly what [`run_model`] computes on the
//! submitted sequence, starting from one open root scope.

use vstd::prelude::*;
use vstd::pervasive::VecAdditionalExecFns;

use crate::ops::{Binding, Borrow, BorrowKind, Op, OwnerState, Param, PassMode, ValueKind,
    Violation, ViolationKind};
use crate::store::{bind_model, enter_scope_model, exit_scope_model, lookup_idx, reassign_model,
    scope_releases, store_wf, Store, StoreModel};

verus! {

/// The mathematical state of a [`Checker`].
#[verifier::ext_equal]
pub struct CheckerModel {
    pub store: StoreModel,
    pub borrows: Seq<Borrow>,
    pub next_value: usize,
}

/// There is a live borrow of kind `k` on value `v`.
pub open spec fn live_borrow_in(bs: Seq<Borrow>, v: usize, k: BorrowKind) -> bool {
    exists|t: int|
        0 <= t < bs.len() && (#[trigger] bs[t]).live && bs[t].value == v && bs[t].kind == k
}

/// There is a live borrow of either kind on value `v`.
pub open spec fn any_live_borrow(bs: Seq<Borrow>, v: usize) -> bool {
    exists|t: int| 0 <= t < bs.len() && (#[trigger] bs[t]).live && bs[t].value == v
}

/// The kind of live borrow that blocks a request on `v`: exclusive wins over
/// shared when both are reported.
pub open spec fn existing_kind(bs: Seq<Borrow>, v: usize) -> BorrowKind {
    if live_borrow_in(bs, v, BorrowKind::Exclusive) {
        BorrowKind::Exclusive
    } else {
        BorrowKind::Shared
    }
}

/// The borrow state machine of one value: a requested `Exclusive` borrow is
/// blocked by any live borrow, a requested `Shared` borrow only by a live
/// `Exclusive` one.  The result is the kind of the blocking borrow.
pub open spec fn conflict_model(bs: Seq<Borrow>, v: usize, requested: BorrowKind) -> Option<
    BorrowKind,
> {
    match requested {
        BorrowKind::Exclusive => if any_live_borrow(bs, v) {
            Some(existing_kind(bs, v))
        } else {
            None
        },
        BorrowKind::Shared => if live_borrow_in(bs, v, BorrowKind::Exclusive) {
            Some(BorrowKind::Exclusive)
        } else {
            None
        },
    }
}

/// Some live borrow targets one of the values just released.
pub open spec fn dangles(bs: Seq<Borrow>, rel: Seq<usize>) -> bool {
    exists|t: int| 0 <= t < bs.len() && (#[trigger] bs[t]).live && rel.contains(bs[t].value)
}

/// A binding that owns a value owns one created before `n`.
pub open spec fn owned_lt(b: Binding, n: usize) -> bool {
    match b.state {
        OwnerState::Owned(v) => v < n,
        _ => true,
    }
}

/// Two distinct live borrows of the same value are both shared: at any
/// instant a value has either any number of shared borrows or at most one
/// exclusive borrow.
pub open spec fn borrows_ok(bs: Seq<Borrow>) -> bool {
    forall|i: int, j: int|
        0 <= i < bs.len() && 0 <= j < bs.len() && i != j && (#[trigger] bs[i]).live
            && (#[trigger] bs[j]).live && bs[i].value == bs[j].value ==> bs[i].kind
            == BorrowKind::Shared && bs[j].kind == BorrowKind::Shared
}

/// The checker's internal validity: a well-formed scope stack, mutually
/// exclusive borrows, and every value identifier in use below the fresh
/// counter.
pub open spec fn inv(st: CheckerModel) -> bool {
    &&& store_wf(st.store)
    &&& borrows_ok(st.borrows)
    &&& forall|i: int|
        0 <= i < st.borrows.len() ==> (#[trigger] st.borrows[i]).value < st.next_value
    &&& forall|i: int|
        0 <= i < st.store.bindings.len() ==> owned_lt(
            #[trigger] st.store.bindings[i],
            st.next_value,
        )
}

/// The state a run starts from: one open root scope, nothing bound, no
/// borrows, no releases.
pub open spec fn init_model() -> CheckerModel {
    CheckerModel {
        store: StoreModel {
            bindings: Seq::<Binding>::empty(),
            scopes: seq![0usize],
            releases: Seq::<usize>::empty(),
        },
        borrows: Seq::<Borrow>::empty(),
        next_value: 0,
    }
}

/// An `EnterScope` opens a fresh, empty scope and never fails.
pub open spec fn step_enter_scope(st: CheckerModel) -> Result<CheckerModel, ViolationKind> {
    Ok(CheckerModel { store: enter_scope_model(st.store), ..st })
}

/// A `Bind` creates a binding owning a fresh value in the current scope; it
/// needs an open scope.
pub open spec fn step_bind(st: CheckerModel, name: u64, kind: ValueKind) -> Result<
    CheckerModel,
    ViolationKind,
> {
    if st.store.scopes.len() == 0 {
        Err(ViolationKind::UnknownBinding)
    } else {
        Ok(
            CheckerModel {
                store: bind_model(st.store, name, kind, OwnerState::Owned(st.next_value)),
                next_value: (st.next_value + 1) as usize,
                ..st
            },
        )
    }
}

/// A `Read` uses a binding as a value and changes nothing; the binding must
/// be visible and still own its value.
pub open spec fn step_read(st: CheckerModel, name: u64) -> Result<CheckerModel, ViolationKind> {
    match lookup_idx(st.store.bindings, name) {
        None => Err(ViolationKind::UnknownBinding),
        Some(i) => match st.store.bindings[i].state {
            OwnerState::Owned(_) => Ok(st),
            _ => Err(ViolationKind::UseAfterMove),
        },
    }
}

/// The destination of an assignment receives `value`: an existing visible
/// binding is reassigned (releasing what it owned), an unknown name is bound
/// afresh in the current scope with the source's kind.  Releasing a value
/// that a live borrow still targets would leave that borrow dangling, so the
/// reassignment is rejected.
pub open spec fn assign_into(st: CheckerModel, dst: u64, value: usize, kind: ValueKind) -> Result<
    CheckerModel,
    ViolationKind,
> {
    match lookup_idx(st.store.bindings, dst) {
        Some(di) => {
            let released_is_borrowed = match st.store.bindings[di].state {
                OwnerState::Owned(w) => any_live_borrow(st.borrows, w),
                _ => false,
            };
            if released_is_borrowed {
                Err(ViolationKind::DanglingReference)
            } else {
                Ok(CheckerModel { store: reassign_model(st.store, dst, value), ..st })
            }
        },
        None => if st.store.scopes.len() == 0 {
            Err(ViolationKind::UnknownBinding)
        } else {
            Ok(
                CheckerModel {
                    store: bind_model(st.store, dst, kind, OwnerState::Owned(value)),
                    ..st
                },
            )
        },
    }
}

/// A `MoveAssign` duplicates a copyable source value into the destination
/// and leaves the source untouched; an owning source value is moved out
/// first and the source becomes unusable.  Moving a value out from under a
/// live borrow would leave that borrow dangling and is rejected.
pub open spec fn step_move_assign(st: CheckerModel, dst: u64, src: u64) -> Result<
    CheckerModel,
    ViolationKind,
> {
    match lookup_idx(st.store.bindings, src) {
        None => Err(ViolationKind::UnknownBinding),
        Some(si) => {
            let b = st.store.bindings[si];
            match b.state {
                OwnerState::Owned(v) => match b.kind {
                    ValueKind::Copyable => match assign_into(
                        st,
                        dst,
                        st.next_value,
                        ValueKind::Copyable,
                    ) {
                        Ok(st2) => Ok(
                            CheckerModel { next_value: (st.next_value + 1) as usize, ..st2 },
                        ),
                        Err(k) => Err(k),
                    },
                    ValueKind::Owning => {
                        if any_live_borrow(st.borrows, v) {
                            Err(ViolationKind::DanglingReference)
                        } else {
                            let moved = CheckerModel {
                                store: StoreModel {
                                    bindings: st.store.bindings.update(
                                        si,
                                        (Binding { state: OwnerState::Moved, ..b }),
                                    ),
                                    ..st.store
                                },
                                ..st
                            };
                            assign_into(moved, dst, v, ValueKind::Owning)
                        }
                    },
                },
                _ => Err(ViolationKind::UseAfterMove),
            }
        },
    }
}

/// A `Borrow` records a live borrow of the named binding's value, unless a
/// live borrow of an incompatible kind exists.
pub open spec fn step_borrow(st: CheckerModel, name: u64, kind: BorrowKind) -> Result<
    CheckerModel,
    ViolationKind,
> {
    match lookup_idx(st.store.bindings, name) {
        None => Err(ViolationKind::UnknownBinding),
        Some(i) => match st.store.bindings[i].state {
            OwnerState::Owned(v) => match conflict_model(st.borrows, v, kind) {
                Some(ex) => Err(ViolationKind::BorrowConflict { existing: ex, requested: kind }),
                None => Ok(
                    CheckerModel {
                        borrows: st.borrows.push(Borrow { kind, value: v, live: true }),
                        ..st
                    },
                ),
            },
            _ => Err(ViolationKind::UseAfterMove),
        },
    }
}

/// An `EndBorrow` closes a live borrow after its last use; a stale or
/// unknown borrow identifier is reported as unknown.
pub open spec fn step_end_borrow(st: CheckerModel, borrow: usize) -> Result<
    CheckerModel,
    ViolationKind,
> {
    if borrow < st.borrows.len() && st.borrows[borrow as int].live {
        Ok(
            CheckerModel {
                borrows: st.borrows.update(
                    borrow as int,
                    (Borrow { live: false, ..st.borrows[borrow as int] }),
                ),
                ..st
            },
        )
    } else {
        Err(ViolationKind::UnknownBinding)
    }
}

/// A `ScopeExit` releases the values still owned by the innermost scope's
/// bindings; if a live borrow targets one of them the reference would
/// dangle and the sequence is rejected.
pub open spec fn step_scope_exit(st: CheckerModel) -> Result<CheckerModel, ViolationKind> {
    if st.store.scopes.len() == 0 {
        Err(ViolationKind::UnknownBinding)
    } else {
        let rel = scope_releases(
            st.store.bindings.subrange(
                st.store.scopes.last() as int,
                st.store.bindings.len() as int,
            ),
        );
        if dangles(st.borrows, rel) {
            Err(ViolationKind::DanglingReference)
        } else {
            Ok(CheckerModel { store: exit_scope_model(st.store), ..st })
        }
    }
}

/// The arguments of a call, processed in order.  A by-value owning argument
/// moves into the callee, which releases it on return, so it must not be
/// under a live borrow; a by-value copyable argument is duplicated and
/// changes nothing.  A by-reference argument
/// borrows for the duration of the call, checked against the live borrows
/// and against the call's earlier arguments (`temp`); all call borrows end
/// when the call returns, so the surviving borrow set is unchanged.
pub open spec fn call_params_model(st: CheckerModel, temp: Seq<Borrow>, ps: Seq<Param>) -> Result<
    CheckerModel,
    ViolationKind,
>
    decreases ps.len(),
{
    if ps.len() == 0 {
        Ok(st)
    } else {
        let p = ps.first();
        match lookup_idx(st.store.bindings, p.name) {
            None => Err(ViolationKind::UnknownBinding),
            Some(i) => {
                let b = st.store.bindings[i];
                match b.state {
                    OwnerState::Owned(v) => match p.mode {
                        PassMode::ByValue => match b.kind {
                            ValueKind::Copyable => call_params_model(st, temp, ps.drop_first()),
                            ValueKind::Owning => if any_live_borrow(st.borrows + temp, v) {
                                Err(ViolationKind::DanglingReference)
                            } else {
                                call_params_model(
                                    CheckerModel {
                                        store: StoreModel {
                                            bindings: st.store.bindings.update(
                                                i,
                                                (Binding { state: OwnerState::Moved, ..b }),
                                            ),
                                            releases: st.store.releases.push(v),
                                            ..st.store
                                        },
                                        ..st
                                    },
                                    temp,
                                    ps.drop_first(),
                                )
                            },
                        },
                        PassMode::ByRef(k) => match conflict_model(st.borrows + temp, v, k) {
                            Some(ex) => Err(
                                ViolationKind::BorrowConflict { existing: ex, requested: k },
                            ),
                            None => call_params_model(
                                st,
                                temp.push(Borrow { kind: k, value: v, live: true }),
                                ps.drop_first(),
                            ),
                        },
                    },
                    _ => Err(ViolationKind::UseAfterMove),
                }
            },
        }
    }
}

/// One operation applied to the checker state: the next state on success,
/// the reason on failure.
pub open spec fn step_model(st: CheckerModel, op: Op) -> Result<CheckerModel, ViolationKind> {
    match op {
        Op::EnterScope => step_enter_scope(st),
        Op::Bind { name, kind } => step_bind(st, name, kind),
        Op::Read { name } => step_read(st, name),
        Op::MoveAssign { dst, src } => step_move_assign(st, dst, src),
        Op::Borrow { name, kind } => step_borrow(st, name, kind),
        Op::EndBorrow { borrow } => step_end_borrow(st, borrow),
        Op::ScopeExit => step_scope_exit(st),
        Op::FunctionCall { params } => call_params_model(st, Seq::<Borrow>::empty(), params@),
    }
}

/// A whole sequence applied in submission order, halting at the first
/// violation, whose operation index is reported relative to `base`.
pub open spec fn run_model(st: CheckerModel, ops: Seq<Op>, base: int) -> Result<
    CheckerModel,
    (int, ViolationKind),
>
    decreases ops.len(),
{
    if ops.len() == 0 {
        Ok(st)
    } else {
        match step_model(st, ops.first()) {
            Ok(st2) => run_model(st2, ops.drop_first(), base + 1),
            Err(k) => Err((base, k)),
        }
    }
}

/// Extending a scan by one borrow either finds that borrow live on `v` with
/// kind `k` or changes nothing.
proof fn lemma_live_take_step(bs: Seq<Borrow>, v: usize, k: BorrowKind, t: int)
    requires
        0 <= t < bs.len(),
    ensures
        live_borrow_in(bs.take(t + 1), v, k) == (live_borrow_in(bs.take(t), v, k) || (bs[t].live
            && bs[t].value == v && bs[t].kind == k)),
{
    let pre = bs.take(t);
    let cur = bs.take(t + 1);
    if live_borrow_in(cur, v, k) {
        let w = choose|w: int| 0 <= w < cur.len() && (#[trigger] cur[w]).live && cur[w].value == v
            && cur[w].kind == k;
        if w < t {
            assert(pre[w] == bs[w]);
            assert(live_borrow_in(pre, v, k));
        } else {
            assert(cur[w] == bs[t]);
        }
    }
    if live_borrow_in(pre, v, k) {
        let w = choose|w: int| 0 <= w < pre.len() && (#[trigger] pre[w]).live && pre[w].value == v
            && pre[w].kind == k;
        assert(cur[w] == bs[w]);
        assert(live_borrow_in(cur, v, k));
    }
    if bs[t].live && bs[t].value == v && bs[t].kind == k {
        assert(cur[t] == bs[t]);
        assert(live_borrow_in(cur, v, k));
    }
}

/// Scans the live borrows (the checker's list followed by the extra list)
/// for one that blocks a requested borrow of `v`.
fn find_conflict(bs: &Vec<Borrow>, extra: &Vec<Borrow>, v: usize, requested: BorrowKind) -> (r:
    Option<BorrowKind>)
    ensures
        r == conflict_model(bs@ + extra@, v, requested),
{
    let ghost all = bs@ + extra@;
    let mut has_excl = false;
    let mut has_shared = false;
    let mut t: usize = 0;
    proof {
        assert(all.take(0) =~= Seq::<Borrow>::empty());
    }
    while t < bs.len()
        invariant
            t <= bs@.len(),
            all == bs@ + extra@,
            has_excl == live_borrow_in(all.take(t as int), v, BorrowKind::Exclusive),
            has_shared == live_borrow_in(all.take(t as int), v, BorrowKind::Shared),
        decreases bs@.len() - t,
    {
        proof {
            assert(all[t as int] == bs@[t as int]);
            lemma_live_take_step(all, v, BorrowKind::Exclusive, t as int);
            lemma_live_take_step(all, v, BorrowKind::Shared, t as int);
        }
        let b = bs[t];
        if b.live && b.value == v {
            match b.kind {
                BorrowKind::Exclusive => {
                    has_excl = true;
                },
                BorrowKind::Shared => {
                    has_shared = true;
                },
            }
        }
        t = t + 1;
    }
    let n = bs.len();
    let mut u: usize = 0;
    while u < extra.len()
        invariant
            u <= extra@.len(),
            n == bs@.len(),
            all == bs@ + extra@,
            has_excl == live_borrow_in(all.take(n as int + u as int), v, BorrowKind::Exclusive),
            has_shared == live_borrow_in(all.take(n as int + u as int), v, BorrowKind::Shared),
        decreases extra@.len() - u,
    {
        proof {
            assert(all[n as int + u as int] == extra@[u as int]);
            lemma_live_take_step(all, v, BorrowKind::Exclusive, n as int + u as int);
            lemma_live_take_step(all, v, BorrowKind::Shared, n as int + u as int);
        }
        let b = extra[u];
        if b.live && b.value == v {
            match b.kind {
                BorrowKind::Exclusive => {
                    has_excl = true;
                },
                BorrowKind::Shared => {
                    has_shared = true;
                },
            }
        }
        u = u + 1;
    }
    proof {
        assert(all.take(all.len() as int) =~= all);
    }
    match requested {
        BorrowKind::Exclusive => {
            if has_excl {
                Some(BorrowKind::Exclusive)
            } else if has_shared {
                Some(BorrowKind::Shared)
            } else {
                None
            }
        },
        BorrowKind::Shared => {
            if has_excl {
                Some(BorrowKind::Exclusive)
            } else {
                None
            }
        },
    }
}


/// Extending a scan by one borrow either finds that borrow live on `v` or
/// changes nothing.
proof fn lemma_any_live_take_step(bs: Seq<Borrow>, v: usize, t: int)
    requires
        0 <= t < bs.len(),
    ensures
        any_live_borrow(bs.take(t + 1), v) == (any_live_borrow(bs.take(t), v) || (bs[t].live
            && bs[t].value == v)),
{
    let pre = bs.take(t);
    let cur = bs.take(t + 1);
    if any_live_borrow(cur, v) {
        let w = choose|w: int| 0 <= w < cur.len() && (#[trigger] cur[w]).live && cur[w].value == v;
        if w < t {
            assert(pre[w] == bs[w]);
            assert(any_live_borrow(pre, v));
        } else {
            assert(cur[w] == bs[t]);
        }
    }
    if any_live_borrow(pre, v) {
        let w = choose|w: int| 0 <= w < pre.len() && (#[trigger] pre[w]).live && pre[w].value == v;
        assert(cur[w] == bs[w]);
        assert(any_live_borrow(cur, v));
    }
    if bs[t].live && bs[t].value == v {
        assert(cur[t] == bs[t]);
        assert(any_live_borrow(cur, v));
    }
}

/// Scans the live borrows (the checker's list followed by the extra list)
/// for any live borrow of `v`, of either kind.
fn scan_any_live(bs: &Vec<Borrow>, extra: &Vec<Borrow>, v: usize) -> (r: bool)
    ensures
        r == any_live_borrow(bs@ + extra@, v),
{
    let ghost all = bs@ + extra@;
    let mut found = false;
    let mut t: usize = 0;
    proof {
        assert(all.take(0) =~= Seq::<Borrow>::empty());
    }
    while t < bs.len()
        invariant
            t <= bs@.len(),
            all == bs@ + extra@,
            found == any_live_borrow(all.take(t as int), v),
        decreases bs@.len() - t,
    {
        proof {
            assert(all[t as int] == bs@[t as int]);
            lemma_any_live_take_step(all, v, t as int);
        }
        let b = bs[t];
        if b.live && b.value == v {
            found = true;
        }
        t = t + 1;
    }
    let n = bs.len();
    let mut u: usize = 0;
    while u < extra.len()
        invariant
            u <= extra@.len(),
            n == bs@.len(),
            all == bs@ + extra@,
            found == any_live_borrow(all.take(n as int + u as int), v),
        decreases extra@.len() - u,
    {
        proof {
            assert(all[n as int + u as int] == extra@[u as int]);
            lemma_any_live_take_step(all, v, n as int + u as int);
        }
        let b = extra[u];
        if b.live && b.value == v {
            found = true;
        }
        u = u + 1;
    }
    proof {
        assert(all.take(all.len() as int) =~= all);
    }
    found
}

/// The borrow checker: the binding store, the borrows recorded so far, and
/// the next fresh value identifier.
#[derive(Debug)]
pub struct Checker {
    pub store: Store,
    pub borrows: Vec<Borrow>,
    pub next_value: usize,
}

impl View for Checker {
    type V = CheckerModel;

    open spec fn view(&self) -> CheckerModel {
        CheckerModel { store: self.store@, borrows: self.borrows@, next_value: self.next_value }
    }
}


impl Checker {
    /// A checker with one open root scope and nothing bound.
    pub fn new() -> (r: Checker)
        ensures
            r@ == init_model(),
            inv(r@),
    {
        let mut store = Store::new();
        store.enter_scope();
        let r = Checker { store, borrows: Vec::new(), next_value: 0 };
        proof {
            assert(r@ =~~= init_model());
        }
        r
    }

    /// Opens a nested scope.
    fn do_enter_scope(&mut self) -> (r: Result<(), ViolationKind>)
        requires
            inv(old(self)@),
        ensures
            (match r {
                Ok(_) => step_enter_scope(old(self)@) == Ok::<CheckerModel, ViolationKind>(
                    final(self)@,
                ) && inv(final(self)@) && final(self)@.next_value == old(self)@.next_value,
                Err(k) => step_enter_scope(old(self)@) == Err::<CheckerModel, ViolationKind>(k),
            }),
    {
        self.store.enter_scope();
        proof {
            assert(self@ =~~= (CheckerModel {
                store: enter_scope_model(old(self)@.store),
                ..old(self)@
            }));
        }
        Ok(())
    }

    /// Creates a binding owning a fresh value in the current scope.
    fn do_bind(&mut self, name: u64, kind: ValueKind) -> (r: Result<(), ViolationKind>)
        requires
            inv(old(self)@),
            old(self)@.next_value < usize::MAX,
        ensures
            (match r {
                Ok(_) => step_bind(old(self)@, name, kind) == Ok::<CheckerModel, ViolationKind>(
                    final(self)@,
                ) && inv(final(self)@) && final(self)@.next_value <= old(self)@.next_value + 1,
                Err(k) => step_bind(old(self)@, name, kind) == Err::<CheckerModel, ViolationKind>(
                    k,
                ),
            }),
    {
        if self.store.scope_starts.len() == 0 {
            return Err(ViolationKind::UnknownBinding);
        }
        let fresh = self.next_value;
        self.store.bind(name, kind, OwnerState::Owned(fresh));
        self.next_value = self.next_value + 1;
        proof {
            assert(self@ =~~= (CheckerModel {
                store: bind_model(
                    old(self)@.store,
                    name,
                    kind,
                    OwnerState::Owned(old(self)@.next_value),
                ),
                next_value: (old(self)@.next_value + 1) as usize,
                ..old(self)@
            }));
        }
        Ok(())
    }

    /// Uses a binding as a value; the state is unchanged.
    fn do_read(&mut self, name: u64) -> (r: Result<(), ViolationKind>)
        requires
            inv(old(self)@),
        ensures
            (match r {
                Ok(_) => step_read(old(self)@, name) == Ok::<CheckerModel, ViolationKind>(
                    final(self)@,
                ) && inv(final(self)@) && final(self)@.next_value == old(self)@.next_value,
                Err(k) => step_read(old(self)@, name) == Err::<CheckerModel, ViolationKind>(k),
            }),
    {
        let i = match self.store.lookup(name) {
            Some(i) => i,
            None => {
                return Err(ViolationKind::UnknownBinding);
            },
        };
        match self.store.bindings[i].state {
            OwnerState::Owned(_) => Ok(()),
            _ => Err(ViolationKind::UseAfterMove),
        }
    }

    /// Assigns the source binding's value to the destination name: a
    /// copyable value is duplicated, an owning value is moved.
    fn do_move_assign(&mut self, dst: u64, src: u64) -> (r: Result<(), ViolationKind>)
        requires
            inv(old(self)@),
            old(self)@.next_value < usize::MAX,
        ensures
            (match r {
                Ok(_) => step_move_assign(old(self)@, dst, src) == Ok::<
                    CheckerModel,
                    ViolationKind,
                >(final(self)@) && inv(final(self)@) && final(self)@.next_value <= old(
                    self,
                )@.next_value + 1,
                Err(k) => step_move_assign(old(self)@, dst, src) == Err::<
                    CheckerModel,
                    ViolationKind,
                >(k),
            }),
    {
        let si = match self.store.lookup(src) {
            Some(i) => i,
            None => {
                return Err(ViolationKind::UnknownBinding);
            },
        };
        let b = self.store.bindings[si];
        let v = match b.state {
            OwnerState::Owned(v) => v,
            _ => {
                return Err(ViolationKind::UseAfterMove);
            },
        };
        match b.kind {
            ValueKind::Copyable => {
                let fresh = self.next_value;
                let empty: Vec<Borrow> = Vec::new();
                proof {
                    assert(self@.borrows + empty@ =~= self@.borrows);
                }
                match self.store.lookup(dst) {
                    Some(di) => {
                        match self.store.bindings[di].state {
                            OwnerState::Owned(w) => {
                                if scan_any_live(&self.borrows, &empty, w) {
                                    return Err(ViolationKind::DanglingReference);
                                }
                            },
                            _ => {},
                        }
                        self.store.reassign(dst, fresh);
                    },
                    None => {
                        if self.store.scope_starts.len() == 0 {
                            return Err(ViolationKind::UnknownBinding);
                        }
                        self.store.bind(dst, ValueKind::Copyable, OwnerState::Owned(fresh));
                    },
                }
                self.next_value = self.next_value + 1;
                proof {
                    let st2 = assign_into(
                        old(self)@,
                        dst,
                        old(self)@.next_value,
                        ValueKind::Copyable,
                    )->Ok_0;
                    assert(self@ =~~= (CheckerModel {
                        next_value: (old(self)@.next_value + 1) as usize,
                        ..st2
                    }));
                }
                Ok(())
            },
            ValueKind::Owning => {
                let empty: Vec<Borrow> = Vec::new();
                proof {
                    assert(self@.borrows + empty@ =~= self@.borrows);
                }
                if scan_any_live(&self.borrows, &empty, v) {
                    return Err(ViolationKind::DanglingReference);
                }
                let mo = self.store.move_out(src);
                proof {
                    assert(mo is Ok);
                }
                let ghost moved = CheckerModel {
                    store: StoreModel {
                        bindings: old(self)@.store.bindings.update(
                            si as int,
                            (Binding { state: OwnerState::Moved, ..b }),
                        ),
                        ..old(self)@.store
                    },
                    ..old(self)@
                };
                proof {
                    assert(self@ =~~= moved);
                }
                match self.store.lookup(dst) {
                    Some(di) => {
                        match self.store.bindings[di].state {
                            OwnerState::Owned(w) => {
                                if scan_any_live(&self.borrows, &empty, w) {
                                    return Err(ViolationKind::DanglingReference);
                                }
                            },
                            _ => {},
                        }
                        self.store.reassign(dst, v);
                    },
                    None => {
                        if self.store.scope_starts.len() == 0 {
                            return Err(ViolationKind::UnknownBinding);
                        }
                        self.store.bind(dst, ValueKind::Owning, OwnerState::Owned(v));
                    },
                }
                proof {
                    assert(step_move_assign(old(self)@, dst, src) == Ok::<
                        CheckerModel,
                        ViolationKind,
                    >(self@)) by {
                        assert(self@ =~~= assign_into(moved, dst, v, ValueKind::Owning)->Ok_0);
                    }
                }
                Ok(())
            },
        }
    }

    /// Records a live borrow of the named binding's value.
    fn do_borrow(&mut self, name: u64, kind: BorrowKind) -> (r: Result<(), ViolationKind>)
        requires
            inv(old(self)@),
        ensures
            (match r {
                Ok(_) => step_borrow(old(self)@, name, kind) == Ok::<CheckerModel, ViolationKind>(
                    final(self)@,
                ) && inv(final(self)@) && final(self)@.next_value == old(self)@.next_value,
                Err(k) => step_borrow(old(self)@, name, kind) == Err::<CheckerModel, ViolationKind>(
                    k,
                ),
            }),
    {
        let i = match self.store.lookup(name) {
            Some(i) => i,
            None => {
                return Err(ViolationKind::UnknownBinding);
            },
        };
        let v = match self.store.bindings[i].state {
            OwnerState::Owned(v) => v,
            _ => {
                return Err(ViolationKind::UseAfterMove);
            },
        };
        let empty: Vec<Borrow> = Vec::new();
        proof {
            assert(self@.borrows + empty@ =~= self@.borrows);
        }
        match find_conflict(&self.borrows, &empty, v, kind) {
            Some(ex) => Err(ViolationKind::BorrowConflict { existing: ex, requested: kind }),
            None => {
                self.borrows.push(Borrow { kind, value: v, live: true });
                proof {
                    assert(self@ =~~= (CheckerModel {
                        borrows: old(self)@.borrows.push(Borrow { kind, value: v, live: true }),
                        ..old(self)@
                    }));
                    lemma_push_borrow_ok(old(self)@.borrows, kind, v);
                }
                Ok(())
            },
        }
    }

    /// Closes a live borrow after its last use.
    fn do_end_borrow(&mut self, borrow: usize) -> (r: Result<(), ViolationKind>)
        requires
            inv(old(self)@),
        ensures
            (match r {
                Ok(_) => step_end_borrow(old(self)@, borrow) == Ok::<CheckerModel, ViolationKind>(
                    final(self)@,
                ) && inv(final(self)@) && final(self)@.next_value == old(self)@.next_value,
                Err(k) => step_end_borrow(old(self)@, borrow) == Err::<
                    CheckerModel,
                    ViolationKind,
                >(k),
            }),
    {
        if borrow < self.borrows.len() {
            let b = self.borrows[borrow];
            if b.live {
                self.borrows.set(borrow, Borrow { live: false, ..b });
                proof {
                    assert(self@ =~~= (CheckerModel {
                        borrows: old(self)@.borrows.update(
                            borrow as int,
                            (Borrow { live: false, ..b }),
                        ),
                        ..old(self)@
                    }));
                }
                return Ok(());
            }
        }
        Err(ViolationKind::UnknownBinding)
    }

    /// Closes the innermost scope, releasing the values its bindings still
    /// own and rejecting the sequence if a live borrow targets one of them.
    #[verifier::loop_isolation(false)]
    fn do_scope_exit(&mut self) -> (r: Result<(), ViolationKind>)
        requires
            inv(old(self)@),
        ensures
            (match r {
                Ok(_) => step_scope_exit(old(self)@) == Ok::<CheckerModel, ViolationKind>(
                    final(self)@,
                ) && inv(final(self)@) && final(self)@.next_value == old(self)@.next_value,
                Err(k) => step_scope_exit(old(self)@) == Err::<CheckerModel, ViolationKind>(k),
            }),
    {
        if self.store.scope_starts.len() == 0 {
            return Err(ViolationKind::UnknownBinding);
        }
        let r0 = self.store.releases.len();
        self.store.exit_scope();
        let ghost relvals = scope_releases(
            old(self)@.store.bindings.subrange(
                old(self)@.store.scopes.last() as int,
                old(self)@.store.bindings.len() as int,
            ),
        );
        let ghost mid = self@;
        proof {
            assert(mid.store.releases == old(self)@.store.releases + relvals);
            assert(mid.store.releases.len() == r0 + relvals.len());
        }
        let mut t: usize = 0;
        while t < self.borrows.len()
            invariant
                self@ == mid,
                t <= mid.borrows.len(),
                forall|a: int|
                    0 <= a < t ==> !((#[trigger] mid.borrows[a]).live && relvals.contains(
                        mid.borrows[a].value,
                    )),
            decreases mid.borrows.len() - t,
        {
            let b = self.borrows[t];
            if b.live {
                let mut j = r0;
                while j < self.store.releases.len()
                    invariant
                        self@ == mid,
                        r0 <= j <= mid.store.releases.len(),
                        forall|w: int| r0 <= w < j ==> mid.store.releases[w] != b.value,
                    decreases mid.store.releases.len() - j,
                {
                    if self.store.releases[j] == b.value {
                        proof {
                            assert(relvals[j - r0] == b.value);
                            assert(relvals.contains(b.value));
                            assert(mid.borrows[t as int].live);
                            assert(dangles(mid.borrows, relvals));
                        }
                        return Err(ViolationKind::DanglingReference);
                    }
                    j = j + 1;
                }
                proof {
                    if relvals.contains(b.value) {
                        let w = choose|w: int| 0 <= w < relvals.len() && relvals[w] == b.value;
                        assert(mid.store.releases[r0 + w] == b.value);
                        assert(false);
                    }
                }
            }
            t = t + 1;
        }
        proof {
            assert(!dangles(mid.borrows, relvals)) by {
                if dangles(mid.borrows, relvals) {
                    let a = choose|a: int|
                        0 <= a < mid.borrows.len() && (#[trigger] mid.borrows[a]).live
                            && relvals.contains(mid.borrows[a].value);
                    assert(false);
                }
            }
            assert(self@ =~~= (CheckerModel {
                store: exit_scope_model(old(self)@.store),
                ..old(self)@
            }));
        }
        Ok(())
    }

    /// Processes a call's arguments in order; borrows made for the call end
    /// when it returns.
    #[verifier::loop_isolation(false)]
    fn do_call(&mut self, params: &Vec<Param>) -> (r: Result<(), ViolationKind>)
        requires
            inv(old(self)@),
        ensures
            (match r {
                Ok(_) => call_params_model(old(self)@, Seq::<Borrow>::empty(), params@) == Ok::<
                    CheckerModel,
                    ViolationKind,
                >(final(self)@) && inv(final(self)@) && final(self)@.next_value == old(
                    self,
                )@.next_value,
                Err(k) => call_params_model(old(self)@, Seq::<Borrow>::empty(), params@) == Err::<
                    CheckerModel,
                    ViolationKind,
                >(k),
            }),
    {
        let mut temp: Vec<Borrow> = Vec::new();
        let mut j: usize = 0;
        proof {
            assert(params@.skip(0) =~= params@);
        }
        while j < params.len()
            invariant
                j <= params@.len(),
                inv(self@),
                self@.next_value == old(self)@.next_value,
                self@.borrows == old(self)@.borrows,
                call_params_model(self@, temp@, params@.skip(j as int)) == call_params_model(
                    old(self)@,
                    Seq::<Borrow>::empty(),
                    params@,
                ),
            decreases params@.len() - j,
        {
            proof {
                assert(params@.skip(j as int).first() == params@[j as int]);
                assert(params@.skip(j as int).drop_first() =~= params@.skip(j as int + 1));
            }
            let p = params[j];
            let i = match self.store.lookup(p.name) {
                Some(i) => i,
                None => {
                    return Err(ViolationKind::UnknownBinding);
                },
            };
            let b = self.store.bindings[i];
            let v = match b.state {
                OwnerState::Owned(v) => v,
                _ => {
                    return Err(ViolationKind::UseAfterMove);
                },
            };
            match p.mode {
                PassMode::ByValue => {
                    match b.kind {
                        ValueKind::Copyable => {},
                        ValueKind::Owning => {
                            if scan_any_live(&self.borrows, &temp, v) {
                                return Err(ViolationKind::DanglingReference);
                            }
                            let ghost pre = self@;
                            let mo = self.store.move_out(p.name);
                            proof {
                                assert(mo is Ok);
                            }
                            self.store.releases.push(v);
                            proof {
                                assert(self@ =~~= (CheckerModel {
                                    store: StoreModel {
                                        bindings: pre.store.bindings.update(
                                            i as int,
                                            (Binding { state: OwnerState::Moved, ..b }),
                                        ),
                                        releases: pre.store.releases.push(v),
                                        ..pre.store
                                    },
                                    ..pre
                                }));
                            }
                        },
                    }
                },
                PassMode::ByRef(k) => {
                    match find_conflict(&self.borrows, &temp, v, k) {
                        Some(ex) => {
                            return Err(
                                ViolationKind::BorrowConflict { existing: ex, requested: k },
                            );
                        },
                        None => {
                            temp.push(Borrow { kind: k, value: v, live: true });
                        },
                    }
                },
            }
            j = j + 1;
        }
        proof {
            assert(params@.skip(params@.len() as int) =~= Seq::<Param>::empty());
        }
        Ok(())
    }

    /// Applies one operation, mutating the state exactly as [`step_model`]
    /// says; on failure the spec-level reason is returned and the checker is
    /// no longer used.
    fn step_op(&mut self, op: &Op) -> (r: Result<(), ViolationKind>)
        requires
            inv(old(self)@),
            old(self)@.next_value < usize::MAX,
        ensures
            (match r {
                Ok(_) => step_model(old(self)@, *op) == Ok::<CheckerModel, ViolationKind>(
                    final(self)@,
                ) && inv(final(self)@) && final(self)@.next_value <= old(self)@.next_value + 1,
                Err(k) => step_model(old(self)@, *op) == Err::<CheckerModel, ViolationKind>(k),
            }),
    {
        match op {
            Op::EnterScope => self.do_enter_scope(),
            Op::Bind { name, kind } => self.do_bind(*name, *kind),
            Op::Read { name } => self.do_read(*name),
            Op::MoveAssign { dst, src } => self.do_move_assign(*dst, *src),
            Op::Borrow { name, kind } => self.do_borrow(*name, *kind),
            Op::EndBorrow { borrow } => self.do_end_borrow(*borrow),
            Op::ScopeExit => self.do_scope_exit(),
            Op::FunctionCall { params } => self.do_call(params),
        }
    }
}


/// Recording a conflict-free borrow keeps the borrows mutually exclusive and
/// the value identifiers in range.
pub proof fn lemma_push_borrow_ok(bs: Seq<Borrow>, kind: BorrowKind, v: usize)
    requires
        borrows_ok(bs),
        conflict_model(bs, v, kind) is None,
    ensures
        borrows_ok(bs.push(Borrow { kind, value: v, live: true })),
{
    let nb = Borrow { kind, value: v, live: true };
    let bs2 = bs.push(nb);
    let n = bs.len() as int;
    assert forall|i: int, j: int|
        0 <= i < bs2.len() && 0 <= j < bs2.len() && i != j && (#[trigger] bs2[i]).live
            && (#[trigger] bs2[j]).live && bs2[i].value == bs2[j].value implies bs2[i].kind
        == BorrowKind::Shared && bs2[j].kind == BorrowKind::Shared by {
        if i < n && j < n {
            assert(bs2[i] == bs[i]);
            assert(bs2[j] == bs[j]);
        } else {
            let o = if i < n {
                i
            } else {
                j
            };
            assert(o < n);
            assert(bs2[o] == bs[o]);
            assert(bs[o].live && bs[o].value == v);
            assert(any_live_borrow(bs, v));
            assert(kind == BorrowKind::Shared);
            if bs[o].kind == BorrowKind::Exclusive {
                assert(live_borrow_in(bs, v, BorrowKind::Exclusive));
                assert(false);
            }
        }
    }
}

/// Processes the operations in submission order against a fresh checker:
/// the final store and borrow state on success, the first violation and its
/// operation index on failure.  The result is exactly what [`run_model`]
/// computes on the sequence.
pub fn run(ops: &Vec<Op>) -> (r: Result<Checker, Violation>)
    ensures
        (match r {
            Ok(c) => run_model(init_model(), ops@, 0) == Ok::<CheckerModel, (int, ViolationKind)>(
                c@,
            ) && inv(c@),
            Err(v) => run_model(init_model(), ops@, 0) == Err::<CheckerModel, (int, ViolationKind)>(
                (v.op_index as int, v.kind),
            ),
        }),
{
    let mut c = Checker::new();
    let n = ops.len();
    let mut i: usize = 0;
    proof {
        assert(ops@.skip(0) =~= ops@);
    }
    while i < n
        invariant
            i <= n,
            n == ops@.len(),
            inv(c@),
            c@.next_value <= i,
            run_model(c@, ops@.skip(i as int), i as int) == run_model(init_model(), ops@, 0),
        decreases n - i,
    {
        proof {
            assert(ops@.skip(i as int).first() == ops@[i as int]);
            assert(ops@.skip(i as int).drop_first() =~= ops@.skip(i as int + 1));
        }
        let op = &ops[i];
        match c.step_op(op) {
            Ok(_) => {},
            Err(k) => {
                return Err(Violation { op_index: i, kind: k });
            },
        }
        i = i + 1;
    }
    Ok(c)
}

} // verus!
