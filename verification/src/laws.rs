//! The guarantees of the checker, stated and proved over the spec-level
//! state machine that `run` is proved to implement.

use vstd::prelude::*;

use crate::checker::{any_live_borrow, call_params_model, dangles, inv,
    lemma_push_borrow_ok, live_borrow_in, owned_lt, run_model, step_model, CheckerModel};
use crate::ops::{Binding, Borrow, BorrowKind, Op, OwnerState, PassMode, Param, ValueKind,
    ViolationKind};
use crate::store::{lemma_lookup_idx_push, lemma_lookup_idx_some, lemma_lookup_idx_update,
    lookup_idx, released_of, scope_releases, StoreModel};

verus! {

/// Single owner: after a move-assignment takes an owning value out of `src`
/// and into a different name, reading `src` fails with a use after move.
pub proof fn lemma_single_owner(st: CheckerModel, dst: u64, src: u64, st2: CheckerModel)
    requires
        dst != src,
        lookup_idx(st.store.bindings, src) is Some,
        st.store.bindings[lookup_idx(st.store.bindings, src)->Some_0].kind is Owning,
        step_model(st, Op::MoveAssign { dst, src }) == Ok::<CheckerModel, ViolationKind>(st2),
    ensures
        step_model(st2, Op::Read { name: src }) == Err::<CheckerModel, ViolationKind>(
            ViolationKind::UseAfterMove,
        ),
{
    let bs = st.store.bindings;
    let si = lookup_idx(bs, src)->Some_0;
    lemma_lookup_idx_some(bs, src);
    let b = bs[si];
    let mb = Binding { state: OwnerState::Moved, ..b };
    let moved_bs = bs.update(si, mb);
    lemma_lookup_idx_update(bs, si, mb, src);
    lemma_lookup_idx_update(bs, si, mb, dst);
    let v = b.state->Owned_0;
    match lookup_idx(moved_bs, dst) {
        Some(di) => {
            lemma_lookup_idx_some(moved_bs, dst);
            let b2 = Binding { state: OwnerState::Owned(v), ..moved_bs[di] };
            lemma_lookup_idx_update(moved_bs, di, b2, src);
            assert(st2.store.bindings == moved_bs.update(di, b2));
            assert(st2.store.bindings[si].state is Moved);
        },
        None => {
            let nb = Binding { name: dst, kind: ValueKind::Owning, state: OwnerState::Owned(v) };
            lemma_lookup_idx_push(moved_bs, nb, src);
            assert(st2.store.bindings == moved_bs.push(nb));
            assert(st2.store.bindings[si].state is Moved);
        },
    }
}

/// Copy independence: a move-assignment from a copyable source leaves the
/// source readable; no move happened.
pub proof fn lemma_copy_independence(st: CheckerModel, dst: u64, src: u64, st2: CheckerModel)
    requires
        lookup_idx(st.store.bindings, src) is Some,
        st.store.bindings[lookup_idx(st.store.bindings, src)->Some_0].kind is Copyable,
        step_model(st, Op::MoveAssign { dst, src }) == Ok::<CheckerModel, ViolationKind>(st2),
    ensures
        step_model(st2, Op::Read { name: src }) == Ok::<CheckerModel, ViolationKind>(st2),
{
    let bs = st.store.bindings;
    let si = lookup_idx(bs, src)->Some_0;
    lemma_lookup_idx_some(bs, src);
    match lookup_idx(bs, dst) {
        Some(di) => {
            lemma_lookup_idx_some(bs, dst);
            let b2 = Binding { state: OwnerState::Owned(st.next_value), ..bs[di] };
            lemma_lookup_idx_update(bs, di, b2, src);
            assert(st2.store.bindings == bs.update(di, b2));
            assert(st2.store.bindings[si].state is Owned);
        },
        None => {
            let nb = Binding {
                name: dst,
                kind: ValueKind::Copyable,
                state: OwnerState::Owned(st.next_value),
            };
            lemma_lookup_idx_push(bs, nb, src);
            assert(st2.store.bindings == bs.push(nb));
            assert(st2.store.bindings[si].state is Owned);
        },
    }
}

/// Borrow exclusivity, first half: while an exclusive borrow is live, any
/// further borrow of the same binding, of either kind, is a conflict, and
/// the conflict names the live exclusive borrow.
pub proof fn lemma_exclusive_blocks(st: CheckerModel, name: u64, k2: BorrowKind, st2: CheckerModel)
    requires
        step_model(st, Op::Borrow { name, kind: BorrowKind::Exclusive }) == Ok::<
            CheckerModel,
            ViolationKind,
        >(st2),
    ensures
        step_model(st2, Op::Borrow { name, kind: k2 }) == Err::<CheckerModel, ViolationKind>(
            ViolationKind::BorrowConflict { existing: BorrowKind::Exclusive, requested: k2 },
        ),
{
    let bs = st.store.bindings;
    let i = lookup_idx(bs, name)->Some_0;
    let v = bs[i].state->Owned_0;
    let n = st.borrows.len() as int;
    let nb = Borrow { kind: BorrowKind::Exclusive, value: v, live: true };
    assert(st2.borrows == st.borrows.push(nb));
    assert(st2.borrows[n] == nb);
    assert(live_borrow_in(st2.borrows, v, BorrowKind::Exclusive));
    assert(any_live_borrow(st2.borrows, v));
}

/// Borrow exclusivity, second half: two shared borrows of the same binding
/// in sequence both succeed.
pub proof fn lemma_shared_then_shared(st: CheckerModel, name: u64, st2: CheckerModel)
    requires
        step_model(st, Op::Borrow { name, kind: BorrowKind::Shared }) == Ok::<
            CheckerModel,
            ViolationKind,
        >(st2),
    ensures
        step_model(st2, Op::Borrow { name, kind: BorrowKind::Shared }) is Ok,
{
    let bs = st.store.bindings;
    let i = lookup_idx(bs, name)->Some_0;
    let v = bs[i].state->Owned_0;
    let n = st.borrows.len() as int;
    let nb = Borrow { kind: BorrowKind::Shared, value: v, live: true };
    assert(st2.borrows == st.borrows.push(nb));
    if live_borrow_in(st2.borrows, v, BorrowKind::Exclusive) {
        let t = choose|t: int|
            0 <= t < st2.borrows.len() && (#[trigger] st2.borrows[t]).live && st2.borrows[t].value
                == v && st2.borrows[t].kind == BorrowKind::Exclusive;
        if t < n {
            assert(st2.borrows[t] == st.borrows[t]);
            assert(live_borrow_in(st.borrows, v, BorrowKind::Exclusive));
            assert(false);
        } else {
            assert(st2.borrows[t] == nb);
            assert(false);
        }
    }
}

/// Non-lexical release: two shared borrows that have both been ended no
/// longer block an exclusive borrow of the same binding.  The five-step
/// sequence is accepted as a whole.
pub proof fn lemma_non_lexical_release(st: CheckerModel, name: u64)
    requires
        lookup_idx(st.store.bindings, name) is Some,
        st.store.bindings[lookup_idx(st.store.bindings, name)->Some_0].state is Owned,
        !any_live_borrow(
            st.borrows,
            st.store.bindings[lookup_idx(st.store.bindings, name)->Some_0].state->Owned_0,
        ),
        st.borrows.len() + 2 <= usize::MAX,
    ensures
        run_model(
            st,
            seq![
                Op::Borrow { name, kind: BorrowKind::Shared },
                Op::Borrow { name, kind: BorrowKind::Shared },
                Op::EndBorrow { borrow: st.borrows.len() as usize },
                Op::EndBorrow { borrow: (st.borrows.len() + 1) as usize },
                Op::Borrow { name, kind: BorrowKind::Exclusive },
            ],
            0,
        ) is Ok,
{
    let bs = st.store.bindings;
    let i = lookup_idx(bs, name)->Some_0;
    let v = bs[i].state->Owned_0;
    let n = st.borrows.len() as int;
    let sh = Borrow { kind: BorrowKind::Shared, value: v, live: true };
    let dead = Borrow { kind: BorrowKind::Shared, value: v, live: false };

    assert(!live_borrow_in(st.borrows, v, BorrowKind::Exclusive)) by {
        if live_borrow_in(st.borrows, v, BorrowKind::Exclusive) {
            let t = choose|t: int|
                0 <= t < st.borrows.len() && (#[trigger] st.borrows[t]).live && st.borrows[t].value
                    == v && st.borrows[t].kind == BorrowKind::Exclusive;
            assert(any_live_borrow(st.borrows, v));
        }
    }
    let st1 = CheckerModel { borrows: st.borrows.push(sh), ..st };
    assert(step_model(st, Op::Borrow { name, kind: BorrowKind::Shared }) == Ok::<
        CheckerModel,
        ViolationKind,
    >(st1));

    assert(!live_borrow_in(st1.borrows, v, BorrowKind::Exclusive)) by {
        if live_borrow_in(st1.borrows, v, BorrowKind::Exclusive) {
            let t = choose|t: int|
                0 <= t < st1.borrows.len() && (#[trigger] st1.borrows[t]).live
                    && st1.borrows[t].value == v && st1.borrows[t].kind == BorrowKind::Exclusive;
            if t < n {
                assert(st1.borrows[t] == st.borrows[t]);
                assert(any_live_borrow(st.borrows, v));
            } else {
                assert(st1.borrows[t] == sh);
            }
        }
    }
    let st2 = CheckerModel { borrows: st1.borrows.push(sh), ..st1 };
    assert(step_model(st1, Op::Borrow { name, kind: BorrowKind::Shared }) == Ok::<
        CheckerModel,
        ViolationKind,
    >(st2));

    assert(st2.borrows[n] == sh && st2.borrows[n].live);
    let st3 = CheckerModel { borrows: st2.borrows.update(n, dead), ..st2 };
    assert(step_model(st2, Op::EndBorrow { borrow: st.borrows.len() as usize }) == Ok::<
        CheckerModel,
        ViolationKind,
    >(st3)) by {
        assert(st2.borrows.update(n, (Borrow { live: false, ..st2.borrows[n] })) == st2
            .borrows.update(n, dead));
    }

    assert(st3.borrows[n + 1] == sh && st3.borrows[n + 1].live);
    let st4 = CheckerModel { borrows: st3.borrows.update(n + 1, dead), ..st3 };
    assert(step_model(st3, Op::EndBorrow { borrow: (st.borrows.len() + 1) as usize }) == Ok::<
        CheckerModel,
        ViolationKind,
    >(st4)) by {
        assert(st3.borrows.update(n + 1, (Borrow { live: false, ..st3.borrows[n + 1] })) == st3
            .borrows.update(n + 1, dead));
    }

    assert(!any_live_borrow(st4.borrows, v)) by {
        if any_live_borrow(st4.borrows, v) {
            let t = choose|t: int|
                0 <= t < st4.borrows.len() && (#[trigger] st4.borrows[t]).live
                    && st4.borrows[t].value == v;
            if t < n {
                assert(st4.borrows[t] == st.borrows[t]);
                assert(any_live_borrow(st.borrows, v));
            } else {
                assert(st4.borrows[t] == dead);
            }
        }
    }
    let ex = Borrow { kind: BorrowKind::Exclusive, value: v, live: true };
    let st5 = CheckerModel { borrows: st4.borrows.push(ex), ..st4 };
    assert(step_model(st4, Op::Borrow { name, kind: BorrowKind::Exclusive }) == Ok::<
        CheckerModel,
        ViolationKind,
    >(st5));

    let ops = seq![
        Op::Borrow { name, kind: BorrowKind::Shared },
        Op::Borrow { name, kind: BorrowKind::Shared },
        Op::EndBorrow { borrow: st.borrows.len() as usize },
        Op::EndBorrow { borrow: (st.borrows.len() + 1) as usize },
        Op::Borrow { name, kind: BorrowKind::Exclusive },
    ];
    let ops1 = ops.drop_first();
    let ops2 = ops1.drop_first();
    let ops3 = ops2.drop_first();
    let ops4 = ops3.drop_first();
    let ops5 = ops4.drop_first();
    assert(ops1.first() == ops[1] && ops2.first() == ops[2] && ops3.first() == ops[3]
        && ops4.first() == ops[4]);
    assert(run_model(st, ops, 0) == run_model(st1, ops1, 1));
    assert(run_model(st1, ops1, 1) == run_model(st2, ops2, 2));
    assert(run_model(st2, ops2, 2) == run_model(st3, ops3, 3));
    assert(run_model(st3, ops3, 3) == run_model(st4, ops4, 4));
    assert(run_model(st4, ops4, 4) == run_model(st5, ops5, 5));
    assert(ops5.len() == 0);
    assert(run_model(st, ops, 0) == Ok::<CheckerModel, (int, ViolationKind)>(st5));
}

/// Dangling detection: a binding created in a nested scope and still
/// borrowed when that scope exits is reported as a dangling reference, at
/// the index of the scope exit.
pub proof fn lemma_dangling_detection(st: CheckerModel, name: u64, vk: ValueKind, bk: BorrowKind)
    requires
        st.store.bindings.len() <= usize::MAX,
        !any_live_borrow(st.borrows, st.next_value),
    ensures
        run_model(
            st,
            seq![
                Op::EnterScope,
                Op::Bind { name, kind: vk },
                Op::Borrow { name, kind: bk },
                Op::ScopeExit,
            ],
            0,
        ) == Err::<CheckerModel, (int, ViolationKind)>((3, ViolationKind::DanglingReference)),
{
    let len = st.store.bindings.len() as int;
    let nv = st.next_value;
    let st1 = CheckerModel {
        store: StoreModel { scopes: st.store.scopes.push(len as usize), ..st.store },
        ..st
    };
    assert(step_model(st, Op::EnterScope) == Ok::<CheckerModel, ViolationKind>(st1));

    let nb = Binding { name, kind: vk, state: OwnerState::Owned(nv) };
    let st2 = CheckerModel {
        store: StoreModel { bindings: st.store.bindings.push(nb), ..st1.store },
        next_value: (nv + 1) as usize,
        ..st1
    };
    assert(step_model(st1, Op::Bind { name, kind: vk }) == Ok::<CheckerModel, ViolationKind>(st2));

    lemma_lookup_idx_push(st.store.bindings, nb, name);
    assert(lookup_idx(st2.store.bindings, name) == Some(len));
    assert(!live_borrow_in(st.borrows, nv, BorrowKind::Exclusive)) by {
        if live_borrow_in(st.borrows, nv, BorrowKind::Exclusive) {
            let t = choose|t: int|
                0 <= t < st.borrows.len() && (#[trigger] st.borrows[t]).live && st.borrows[t].value
                    == nv && st.borrows[t].kind == BorrowKind::Exclusive;
            assert(any_live_borrow(st.borrows, nv));
        }
    }
    let bw = Borrow { kind: bk, value: nv, live: true };
    let st3 = CheckerModel { borrows: st2.borrows.push(bw), ..st2 };
    assert(step_model(st2, Op::Borrow { name, kind: bk }) == Ok::<CheckerModel, ViolationKind>(
        st3,
    ));

    let doomed = st3.store.bindings.subrange(len, len + 1);
    assert(doomed =~= seq![nb]);
    assert(doomed.drop_first() =~= Seq::<Binding>::empty());
    let rel = scope_releases(doomed);
    assert(scope_releases(doomed.drop_first()) == Seq::<usize>::empty());
    assert(doomed.first() == nb);
    assert(rel == scope_releases(doomed.drop_first()) + released_of(nb));
    assert(rel =~= seq![nv]);
    assert(rel.contains(nv)) by {
        assert(rel[0] == nv);
    }
    assert(st3.borrows[st.borrows.len() as int] == bw);
    assert(dangles(st3.borrows, rel));
    assert(st3.store.scopes.last() == len as usize);
    assert(step_model(st3, Op::ScopeExit) == Err::<CheckerModel, ViolationKind>(
        ViolationKind::DanglingReference,
    ));

    let ops = seq![
        Op::EnterScope,
        Op::Bind { name, kind: vk },
        Op::Borrow { name, kind: bk },
        Op::ScopeExit,
    ];
    let ops1 = ops.drop_first();
    let ops2 = ops1.drop_first();
    let ops3 = ops2.drop_first();
    assert(ops1.first() == ops[1] && ops2.first() == ops[2] && ops3.first() == ops[3]);
    assert(run_model(st, ops, 0) == run_model(st1, ops1, 1));
    assert(run_model(st1, ops1, 1) == run_model(st2, ops2, 2));
    assert(run_model(st2, ops2, 2) == run_model(st3, ops3, 3));
    assert(run_model(st3, ops3, 3) == Err::<CheckerModel, (int, ViolationKind)>((
        3,
        ViolationKind::DanglingReference,
    )));
}

/// Destruction order: three bindings declared in order inside one scope are
/// released in reverse order when the scope exits, and the scope's bindings
/// disappear.
pub proof fn lemma_destruction_order(
    st: CheckerModel,
    a: u64,
    b: u64,
    c: u64,
    ka: ValueKind,
    kb: ValueKind,
    kc: ValueKind,
)
    requires
        st.store.bindings.len() <= usize::MAX,
        st.next_value + 2 <= usize::MAX,
        !any_live_borrow(st.borrows, st.next_value),
        !any_live_borrow(st.borrows, (st.next_value + 1) as usize),
        !any_live_borrow(st.borrows, (st.next_value + 2) as usize),
    ensures
        ({
            let r = run_model(
                st,
                seq![
                    Op::EnterScope,
                    Op::Bind { name: a, kind: ka },
                    Op::Bind { name: b, kind: kb },
                    Op::Bind { name: c, kind: kc },
                    Op::ScopeExit,
                ],
                0,
            );
            &&& r is Ok
            &&& r->Ok_0.store.releases == st.store.releases + seq![
                (st.next_value + 2) as usize,
                (st.next_value + 1) as usize,
                st.next_value,
            ]
            &&& r->Ok_0.store.bindings == st.store.bindings
        }),
{
    let len = st.store.bindings.len() as int;
    let v0 = st.next_value;
    let v1 = (st.next_value + 1) as usize;
    let v2 = (st.next_value + 2) as usize;
    let st1 = CheckerModel {
        store: StoreModel { scopes: st.store.scopes.push(len as usize), ..st.store },
        ..st
    };
    assert(step_model(st, Op::EnterScope) == Ok::<CheckerModel, ViolationKind>(st1));

    let ba = Binding { name: a, kind: ka, state: OwnerState::Owned(v0) };
    let bb = Binding { name: b, kind: kb, state: OwnerState::Owned(v1) };
    let bc = Binding { name: c, kind: kc, state: OwnerState::Owned(v2) };
    let st2 = CheckerModel {
        store: StoreModel { bindings: st1.store.bindings.push(ba), ..st1.store },
        next_value: v1,
        ..st1
    };
    assert(step_model(st1, Op::Bind { name: a, kind: ka }) == Ok::<CheckerModel, ViolationKind>(
        st2,
    ));
    let st3 = CheckerModel {
        store: StoreModel { bindings: st2.store.bindings.push(bb), ..st2.store },
        next_value: v2,
        ..st2
    };
    assert(step_model(st2, Op::Bind { name: b, kind: kb }) == Ok::<CheckerModel, ViolationKind>(
        st3,
    ));
    let st4 = CheckerModel {
        store: StoreModel { bindings: st3.store.bindings.push(bc), ..st3.store },
        next_value: (st.next_value + 3) as usize,
        ..st3
    };
    assert(step_model(st3, Op::Bind { name: c, kind: kc }) == Ok::<CheckerModel, ViolationKind>(
        st4,
    ));

    let doomed = st4.store.bindings.subrange(len, len + 3);
    assert(doomed =~= seq![ba, bb, bc]);
    let rel = scope_releases(doomed);
    assert(doomed.drop_first() =~= seq![bb, bc]);
    assert(seq![bb, bc].drop_first() =~= seq![bc]);
    assert(seq![bc].drop_first() =~= Seq::<Binding>::empty());
    assert(scope_releases(Seq::<Binding>::empty()) == Seq::<usize>::empty());
    assert(scope_releases(seq![bc]) == scope_releases(Seq::<Binding>::empty()) + released_of(bc));
    assert(scope_releases(seq![bb, bc]) == scope_releases(seq![bc]) + released_of(bb));
    assert(rel == scope_releases(seq![bb, bc]) + released_of(ba));
    assert(rel =~= seq![v2, v1, v0]);

    assert(!dangles(st4.borrows, rel)) by {
        if dangles(st4.borrows, rel) {
            let t = choose|t: int|
                0 <= t < st4.borrows.len() && (#[trigger] st4.borrows[t]).live && rel.contains(
                    st4.borrows[t].value,
                );
            let w = choose|w: int| 0 <= w < rel.len() && rel[w] == st4.borrows[t].value;
            assert(any_live_borrow(st.borrows, st4.borrows[t].value));
            assert(w == 0 || w == 1 || w == 2);
            assert(false);
        }
    }
    let st5 = CheckerModel {
        store: StoreModel {
            bindings: st4.store.bindings.take(len),
            scopes: st4.store.scopes.drop_last(),
            releases: st4.store.releases + rel,
        },
        ..st4
    };
    assert(step_model(st4, Op::ScopeExit) == Ok::<CheckerModel, ViolationKind>(st5)) by {
        assert(st4.store.scopes.last() == len as usize);
        assert(st4.store.bindings.subrange(len, st4.store.bindings.len() as int) =~= doomed);
    }
    assert(st5.store.bindings =~= st.store.bindings);
    assert(st5.store.scopes =~= st.store.scopes);

    let ops = seq![
        Op::EnterScope,
        Op::Bind { name: a, kind: ka },
        Op::Bind { name: b, kind: kb },
        Op::Bind { name: c, kind: kc },
        Op::ScopeExit,
    ];
    let ops1 = ops.drop_first();
    let ops2 = ops1.drop_first();
    let ops3 = ops2.drop_first();
    let ops4 = ops3.drop_first();
    assert(ops1.first() == ops[1] && ops2.first() == ops[2] && ops3.first() == ops[3]
        && ops4.first() == ops[4]);
    assert(run_model(st, ops, 0) == run_model(st1, ops1, 1));
    assert(run_model(st1, ops1, 1) == run_model(st2, ops2, 2));
    assert(run_model(st2, ops2, 2) == run_model(st3, ops3, 3));
    assert(run_model(st3, ops3, 3) == run_model(st4, ops4, 4));
    assert(ops4.drop_first().len() == 0);
    assert(run_model(st5, ops4.drop_first(), 5) == Ok::<CheckerModel, (int, ViolationKind)>(st5));
    assert(run_model(st4, ops4, 4) == Ok::<CheckerModel, (int, ViolationKind)>(st5));
}

/// Shadowing does not destroy: binding the same name twice in one scope
/// creates two values, and the scope exit releases both (the shadowing one
/// first), not one.
pub proof fn lemma_shadowing_two_releases(
    st: CheckerModel,
    x: u64,
    k1: ValueKind,
    k2: ValueKind,
)
    requires
        st.store.bindings.len() <= usize::MAX,
        st.next_value + 1 <= usize::MAX,
        !any_live_borrow(st.borrows, st.next_value),
        !any_live_borrow(st.borrows, (st.next_value + 1) as usize),
    ensures
        ({
            let r = run_model(
                st,
                seq![
                    Op::EnterScope,
                    Op::Bind { name: x, kind: k1 },
                    Op::Bind { name: x, kind: k2 },
                    Op::ScopeExit,
                ],
                0,
            );
            &&& r is Ok
            &&& r->Ok_0.store.releases == st.store.releases + seq![
                (st.next_value + 1) as usize,
                st.next_value,
            ]
            &&& r->Ok_0.store.bindings == st.store.bindings
        }),
{
    let len = st.store.bindings.len() as int;
    let v0 = st.next_value;
    let v1 = (st.next_value + 1) as usize;
    let st1 = CheckerModel {
        store: StoreModel { scopes: st.store.scopes.push(len as usize), ..st.store },
        ..st
    };
    assert(step_model(st, Op::EnterScope) == Ok::<CheckerModel, ViolationKind>(st1));

    let b1 = Binding { name: x, kind: k1, state: OwnerState::Owned(v0) };
    let b2 = Binding { name: x, kind: k2, state: OwnerState::Owned(v1) };
    let st2 = CheckerModel {
        store: StoreModel { bindings: st1.store.bindings.push(b1), ..st1.store },
        next_value: v1,
        ..st1
    };
    assert(step_model(st1, Op::Bind { name: x, kind: k1 }) == Ok::<CheckerModel, ViolationKind>(
        st2,
    ));
    let st3 = CheckerModel {
        store: StoreModel { bindings: st2.store.bindings.push(b2), ..st2.store },
        next_value: (st.next_value + 2) as usize,
        ..st2
    };
    assert(step_model(st2, Op::Bind { name: x, kind: k2 }) == Ok::<CheckerModel, ViolationKind>(
        st3,
    ));

    let doomed = st3.store.bindings.subrange(len, len + 2);
    assert(doomed =~= seq![b1, b2]);
    let rel = scope_releases(doomed);
    assert(doomed.drop_first() =~= seq![b2]);
    assert(seq![b2].drop_first() =~= Seq::<Binding>::empty());
    assert(scope_releases(Seq::<Binding>::empty()) == Seq::<usize>::empty());
    assert(scope_releases(seq![b2]) == scope_releases(Seq::<Binding>::empty()) + released_of(b2));
    assert(rel == scope_releases(seq![b2]) + released_of(b1));
    assert(rel =~= seq![v1, v0]);

    assert(!dangles(st3.borrows, rel)) by {
        if dangles(st3.borrows, rel) {
            let t = choose|t: int|
                0 <= t < st3.borrows.len() && (#[trigger] st3.borrows[t]).live && rel.contains(
                    st3.borrows[t].value,
                );
            let w = choose|w: int| 0 <= w < rel.len() && rel[w] == st3.borrows[t].value;
            assert(any_live_borrow(st.borrows, st3.borrows[t].value));
            assert(w == 0 || w == 1);
            assert(false);
        }
    }
    let st4 = CheckerModel {
        store: StoreModel {
            bindings: st3.store.bindings.take(len),
            scopes: st3.store.scopes.drop_last(),
            releases: st3.store.releases + rel,
        },
        ..st3
    };
    assert(step_model(st3, Op::ScopeExit) == Ok::<CheckerModel, ViolationKind>(st4)) by {
        assert(st3.store.scopes.last() == len as usize);
        assert(st3.store.bindings.subrange(len, st3.store.bindings.len() as int) =~= doomed);
    }
    assert(st4.store.bindings =~= st.store.bindings);
    assert(st4.store.scopes =~= st.store.scopes);

    let ops = seq![
        Op::EnterScope,
        Op::Bind { name: x, kind: k1 },
        Op::Bind { name: x, kind: k2 },
        Op::ScopeExit,
    ];
    let ops1 = ops.drop_first();
    let ops2 = ops1.drop_first();
    let ops3 = ops2.drop_first();
    assert(ops1.first() == ops[1] && ops2.first() == ops[2] && ops3.first() == ops[3]);
    assert(run_model(st, ops, 0) == run_model(st1, ops1, 1));
    assert(run_model(st1, ops1, 1) == run_model(st2, ops2, 2));
    assert(run_model(st2, ops2, 2) == run_model(st3, ops3, 3));
    assert(ops3.drop_first().len() == 0);
    assert(run_model(st4, ops3.drop_first(), 4) == Ok::<CheckerModel, (int, ViolationKind)>(st4));
    assert(run_model(st3, ops3, 3) == Ok::<CheckerModel, (int, ViolationKind)>(st4));
}

/// Processing a call's arguments only moves values out of bindings and logs
/// their release: validity is kept, and the borrow set and fresh counter
/// come through unchanged.
proof fn lemma_call_params_inv(st: CheckerModel, temp: Seq<Borrow>, ps: Seq<Param>)
    requires
        inv(st),
        call_params_model(st, temp, ps) is Ok,
    ensures
        inv(call_params_model(st, temp, ps)->Ok_0),
        call_params_model(st, temp, ps)->Ok_0.borrows == st.borrows,
        call_params_model(st, temp, ps)->Ok_0.next_value == st.next_value,
    decreases ps.len(),
{
    if ps.len() > 0 {
        let p = ps.first();
        let i = lookup_idx(st.store.bindings, p.name)->Some_0;
        lemma_lookup_idx_some(st.store.bindings, p.name);
        let b = st.store.bindings[i];
        match p.mode {
            PassMode::ByValue => {
                if b.kind is Owning {
                    let st2 = CheckerModel {
                        store: StoreModel {
                            bindings: st.store.bindings.update(
                                i,
                                (Binding { state: OwnerState::Moved, ..b }),
                            ),
                            releases: st.store.releases.push(b.state->Owned_0),
                            ..st.store
                        },
                        ..st
                    };
                    assert(inv(st2)) by {
                        assert forall|a: int|
                            0 <= a < st2.store.bindings.len() implies owned_lt(
                            #[trigger] st2.store.bindings[a],
                            st2.next_value,
                        ) by {
                            if a != i {
                                assert(st2.store.bindings[a] == st.store.bindings[a]);
                            }
                        }
                    }
                    lemma_call_params_inv(st2, temp, ps.drop_first());
                } else {
                    lemma_call_params_inv(st, temp, ps.drop_first());
                }
            },
            PassMode::ByRef(k) => {
                let v = b.state->Owned_0;
                lemma_call_params_inv(
                    st,
                    temp.push(Borrow { kind: k, value: v, live: true }),
                    ps.drop_first(),
                );
            },
        }
    }
}

/// The checker's validity — well-formed scope stack, mutually exclusive
/// borrows, and every value identifier below the fresh counter — holds
/// again after every operation it accepts.
pub proof fn lemma_step_preserves_inv(st: CheckerModel, op: Op, st2: CheckerModel)
    requires
        inv(st),
        st.next_value < usize::MAX,
        st.store.bindings.len() <= usize::MAX,
        step_model(st, op) == Ok::<CheckerModel, ViolationKind>(st2),
    ensures
        inv(st2),
{
    match op {
        Op::EnterScope => {
            assert(st2.store.scopes == st.store.scopes.push(st.store.bindings.len() as usize));
            assert forall|a: int, c: int|
                0 <= a <= c < st2.store.scopes.len() implies st2.store.scopes[a]
                <= st2.store.scopes[c] by {
                if c < st.store.scopes.len() {
                    assert(st2.store.scopes[a] == st.store.scopes[a]);
                    assert(st2.store.scopes[c] == st.store.scopes[c]);
                } else if a < st.store.scopes.len() {
                    assert(st2.store.scopes[a] == st.store.scopes[a]);
                    assert(st.store.scopes[a] <= st.store.bindings.len());
                }
            }
        },
        Op::Bind { name, kind } => {
            assert forall|a: int|
                0 <= a < st2.store.bindings.len() implies owned_lt(
                #[trigger] st2.store.bindings[a],
                st2.next_value,
            ) by {
                if a < st.store.bindings.len() {
                    assert(st2.store.bindings[a] == st.store.bindings[a]);
                }
            }
        },
        Op::Read { name } => {},
        Op::MoveAssign { dst, src } => {
            let si = lookup_idx(st.store.bindings, src)->Some_0;
            lemma_lookup_idx_some(st.store.bindings, src);
            let b = st.store.bindings[si];
            let mid = if b.kind is Owning {
                CheckerModel {
                    store: StoreModel {
                        bindings: st.store.bindings.update(
                            si,
                            (Binding { state: OwnerState::Moved, ..b }),
                        ),
                        ..st.store
                    },
                    ..st
                }
            } else {
                st
            };
            let value = if b.kind is Owning {
                b.state->Owned_0
            } else {
                st.next_value
            };
            assert(inv(mid) && value <= st.next_value) by {
                if b.kind is Owning {
                    assert forall|a: int|
                        0 <= a < mid.store.bindings.len() implies owned_lt(
                        #[trigger] mid.store.bindings[a],
                        mid.next_value,
                    ) by {
                        if a != si {
                            assert(mid.store.bindings[a] == st.store.bindings[a]);
                        }
                    }
                }
            }
            match lookup_idx(mid.store.bindings, dst) {
                Some(di) => {
                    lemma_lookup_idx_some(mid.store.bindings, dst);
                    assert forall|a: int|
                        0 <= a < st2.store.bindings.len() implies owned_lt(
                        #[trigger] st2.store.bindings[a],
                        st2.next_value,
                    ) by {
                        if a != di {
                            assert(st2.store.bindings[a] == mid.store.bindings[a]);
                        }
                    }
                },
                None => {
                    assert forall|a: int|
                        0 <= a < st2.store.bindings.len() implies owned_lt(
                        #[trigger] st2.store.bindings[a],
                        st2.next_value,
                    ) by {
                        if a < mid.store.bindings.len() {
                            assert(st2.store.bindings[a] == mid.store.bindings[a]);
                        }
                    }
                },
            }
        },
        Op::Borrow { name, kind } => {
            let i = lookup_idx(st.store.bindings, name)->Some_0;
            lemma_lookup_idx_some(st.store.bindings, name);
            let v = st.store.bindings[i].state->Owned_0;
            lemma_push_borrow_ok(st.borrows, kind, v);
            assert forall|a: int|
                0 <= a < st2.borrows.len() implies (#[trigger] st2.borrows[a]).value
                < st2.next_value by {
                if a < st.borrows.len() {
                    assert(st2.borrows[a] == st.borrows[a]);
                }
            }
        },
        Op::EndBorrow { borrow } => {
            assert forall|a: int|
                0 <= a < st2.borrows.len() implies (#[trigger] st2.borrows[a]).value
                < st2.next_value by {
                if a != borrow {
                    assert(st2.borrows[a] == st.borrows[a]);
                }
            }
        },
        Op::ScopeExit => {
            let start = st.store.scopes.last() as int;
            assert(st2.store.bindings == st.store.bindings.take(start));
            assert forall|a: int|
                0 <= a < st2.store.bindings.len() implies owned_lt(
                #[trigger] st2.store.bindings[a],
                st2.next_value,
            ) by {
                assert(st2.store.bindings[a] == st.store.bindings[a]);
            }
            assert forall|a: int|
                0 <= a < st2.store.scopes.len() implies st2.store.scopes[a]
                <= st2.store.bindings.len() by {
                assert(st2.store.scopes[a] == st.store.scopes[a]);
                assert(st.store.scopes[a] <= st.store.scopes[st.store.scopes.len() - 1]);
            }
        },
        Op::FunctionCall { params } => {
            lemma_call_params_inv(st, Seq::<Borrow>::empty(), params@);
        },
    }
}

} // verus!
