//! The binding store: a stack of lexical scopes holding named bindings.
//!
//! The store keeps every live binding in declaration order in one vector;
//! `scope_starts` records, for each open scope, the index of its first
//! binding.  Name resolution picks the latest binding with the looked-up
//! name, which realises shadowing.  `releases` is the ordered list of all
//! release events so far: exiting a scope releases the values its bindings
//! still own, last-declared first.

use vstd::prelude::*;

use crate::ops::{Binding, OwnerState, ValueKind, ViolationKind};

verus! {

/// The mathematical state of a [`Store`].
#[verifier::ext_equal]
pub struct StoreModel {
    pub bindings: Seq<Binding>,
    pub scopes: Seq<usize>,
    pub releases: Seq<usize>,
}

/// The scope starts are weakly increasing and never point past the end of
/// the binding list.
pub open spec fn store_wf(st: StoreModel) -> bool {
    &&& forall|i: int, j: int|
        0 <= i <= j < st.scopes.len() ==> st.scopes[i] <= st.scopes[j]
    &&& forall|i: int| 0 <= i < st.scopes.len() ==> st.scopes[i] <= st.bindings.len()
}

/// The index of the innermost visible binding named `name`: the latest one,
/// since inner scopes and shadowing bindings sit later in the list.
pub open spec fn lookup_idx(bs: Seq<Binding>, name: u64) -> Option<int>
    decreases bs.len(),
{
    if bs.len() == 0 {
        None
    } else if bs.last().name == name {
        Some(bs.len() - 1)
    } else {
        lookup_idx(bs.drop_last(), name)
    }
}

/// A found binding lies in range and carries the looked-up name.
pub proof fn lemma_lookup_idx_some(bs: Seq<Binding>, name: u64)
    ensures
        match lookup_idx(bs, name) {
            Some(i) => 0 <= i < bs.len() && bs[i].name == name,
            None => forall|i: int| 0 <= i < bs.len() ==> bs[i].name != name,
        },
    decreases bs.len(),
{
    if bs.len() > 0 && bs.last().name != name {
        lemma_lookup_idx_some(bs.drop_last(), name);
        assert(forall|i: int| 0 <= i < bs.len() - 1 ==> bs.drop_last()[i] == bs[i]);
    }
}

/// Appending a binding makes it the lookup result for its own name and
/// leaves every other name's resolution unchanged.
pub proof fn lemma_lookup_idx_push(bs: Seq<Binding>, b: Binding, name: u64)
    ensures
        lookup_idx(bs.push(b), name) == if b.name == name {
            Some(bs.len() as int)
        } else {
            lookup_idx(bs, name)
        },
{
    assert(bs.push(b).drop_last() =~= bs);
}

/// Rewriting a binding in place without renaming it leaves every name's
/// resolution unchanged.
pub proof fn lemma_lookup_idx_update(bs: Seq<Binding>, i: int, b: Binding, name: u64)
    requires
        0 <= i < bs.len(),
        b.name == bs[i].name,
    ensures
        lookup_idx(bs.update(i, b), name) == lookup_idx(bs, name),
    decreases bs.len(),
{
    let bs2 = bs.update(i, b);
    if i == bs.len() - 1 {
        assert(bs2.drop_last() =~= bs.drop_last());
    } else {
        assert(bs2.drop_last() =~= bs.drop_last().update(i, b));
        lemma_lookup_idx_update(bs.drop_last(), i, b, name);
    }
}

/// The values still owned by the listed bindings, in reverse declaration
/// order (the release order of a scope exit).
pub open spec fn scope_releases(bs: Seq<Binding>) -> Seq<usize>
    decreases bs.len(),
{
    if bs.len() == 0 {
        Seq::empty()
    } else {
        scope_releases(bs.drop_first()) + released_of(bs.first())
    }
}

/// The release event of one binding leaving scope: its value if it still
/// owns one, nothing otherwise.
pub open spec fn released_of(b: Binding) -> Seq<usize> {
    match b.state {
        OwnerState::Owned(v) => seq![v],
        _ => Seq::empty(),
    }
}

/// The state after opening a fresh, empty scope.
pub open spec fn enter_scope_model(st: StoreModel) -> StoreModel {
    StoreModel { scopes: st.scopes.push(st.bindings.len() as usize), ..st }
}

/// The state after creating a binding in the innermost scope.
pub open spec fn bind_model(
    st: StoreModel,
    name: u64,
    kind: ValueKind,
    state: OwnerState,
) -> StoreModel {
    StoreModel { bindings: st.bindings.push(Binding { name, kind, state }), ..st }
}

/// The state after closing the innermost scope: its bindings disappear and
/// the values they still owned are released, last-declared first.
pub open spec fn exit_scope_model(st: StoreModel) -> StoreModel {
    let start = st.scopes.last() as int;
    StoreModel {
        bindings: st.bindings.take(start),
        scopes: st.scopes.drop_last(),
        releases: st.releases + scope_releases(
            st.bindings.subrange(start, st.bindings.len() as int),
        ),
    }
}

/// The state after moving a binding's value out, or the violation if the
/// binding is unknown or no longer owns a value.
pub open spec fn move_out_model(st: StoreModel, name: u64) -> Result<StoreModel, ViolationKind> {
    match lookup_idx(st.bindings, name) {
        None => Err(ViolationKind::UnknownBinding),
        Some(i) => match st.bindings[i].state {
            OwnerState::Owned(_) => Ok(
                StoreModel {
                    bindings: st.bindings.update(
                        i,
                        (Binding { state: OwnerState::Moved, ..st.bindings[i] }),
                    ),
                    ..st
                },
            ),
            _ => Err(ViolationKind::UseAfterMove),
        },
    }
}

/// The state after a binding is assigned a new value: the value it owned, if
/// any, is released first.
pub open spec fn reassign_model(st: StoreModel, name: u64, value: usize) -> StoreModel {
    let i = lookup_idx(st.bindings, name)->Some_0;
    StoreModel {
        bindings: st.bindings.update(
            i,
            (Binding { state: OwnerState::Owned(value), ..st.bindings[i] }),
        ),
        releases: st.releases + released_of(st.bindings[i]),
        ..st
    }
}

/// The binding store.  `releases` accumulates every release event of the
/// run, in order, so that destruction order is observable.
#[derive(Debug)]
pub struct Store {
    pub bindings: Vec<Binding>,
    pub scope_starts: Vec<usize>,
    pub releases: Vec<usize>,
}

impl View for Store {
    type V = StoreModel;

    open spec fn view(&self) -> StoreModel {
        StoreModel { bindings: self.bindings@, scopes: self.scope_starts@, releases: self.releases@ }
    }
}

impl Store {
    /// An empty store with no open scope.
    pub fn new() -> (r: Store)
        ensures
            r@ == (StoreModel {
                bindings: Seq::<Binding>::empty(),
                scopes: Seq::<usize>::empty(),
                releases: Seq::<usize>::empty(),
            }),
            store_wf(r@),
    {
        let r = Store { bindings: Vec::new(), scope_starts: Vec::new(), releases: Vec::new() };
        proof {
            assert(r@ =~= (StoreModel {
                bindings: Seq::<Binding>::empty(),
                scopes: Seq::<usize>::empty(),
                releases: Seq::<usize>::empty(),
            }));
        }
        r
    }

    /// Pushes a new empty scope.
    pub fn enter_scope(&mut self)
        requires
            store_wf(old(self)@),
        ensures
            final(self)@ == enter_scope_model(old(self)@),
            store_wf(final(self)@),
    {
        let n = self.bindings.len();
        self.scope_starts.push(n);
        proof {
            assert(final(self)@ =~= enter_scope_model(old(self)@));
        }
    }

    /// Creates a binding in the current scope.  A binding with the same name
    /// shadows an earlier one without destroying it.
    pub fn bind(&mut self, name: u64, kind: ValueKind, state: OwnerState)
        requires
            store_wf(old(self)@),
            old(self)@.scopes.len() > 0,
        ensures
            final(self)@ == bind_model(old(self)@, name, kind, state),
            store_wf(final(self)@),
    {
        self.bindings.push(Binding { name, kind, state });
        proof {
            assert(final(self)@ =~= bind_model(old(self)@, name, kind, state));
        }
    }

    /// Returns the index of the innermost visible binding for `name`, or
    /// `None` if no active scope holds one.
    pub fn lookup(&self, name: u64) -> (r: Option<usize>)
        ensures
            match r {
                Some(i) => lookup_idx(self@.bindings, name) == Some(i as int) && i
                    < self@.bindings.len() && self@.bindings[i as int].name == name,
                None => lookup_idx(self@.bindings, name) is None,
            },
    {
        let mut i: usize = self.bindings.len();
        proof {
            assert(self@.bindings.take(i as int) =~= self@.bindings);
        }
        while i > 0
            invariant
                i <= self@.bindings.len(),
                lookup_idx(self@.bindings, name) == lookup_idx(
                    self@.bindings.take(i as int),
                    name,
                ),
            decreases i,
        {
            i = i - 1;
            proof {
                assert(self@.bindings.take(i as int + 1).drop_last() =~= self@.bindings.take(
                    i as int,
                ));
                assert(self@.bindings.take(i as int + 1).last() == self@.bindings[i as int]);
            }
            if self.bindings[i].name == name {
                return Some(i);
            }
        }
        proof {
            assert(self@.bindings.take(0) =~= Seq::<Binding>::empty());
        }
        None
    }

    /// Transfers a binding's value out: its state goes from owned to moved.
    /// Fails when the name is unknown or the value is already gone.
    pub fn move_out(&mut self, name: u64) -> (r: Result<(), ViolationKind>)
        ensures
            match r {
                Ok(_) => move_out_model(old(self)@, name) == Ok::<StoreModel, ViolationKind>(
                    final(self)@,
                ),
                Err(k) => move_out_model(old(self)@, name) == Err::<StoreModel, ViolationKind>(k)
                    && final(self)@ == old(self)@,
            },
    {
        let i = match self.lookup(name) {
            Some(i) => i,
            None => {
                return Err(ViolationKind::UnknownBinding);
            },
        };
        let b = self.bindings[i];
        match b.state {
            OwnerState::Owned(_) => {
                self.bindings.set(i, Binding { state: OwnerState::Moved, ..b });
                proof {
                    assert(move_out_model(old(self)@, name) == Ok::<StoreModel, ViolationKind>(
                        final(self)@,
                    ));
                }
                Ok(())
            },
            _ => Err(ViolationKind::UseAfterMove),
        }
    }

    /// Gives the binding a new value to own, releasing the value it owned
    /// before, if any.
    pub fn reassign(&mut self, name: u64, value: usize)
        requires
            lookup_idx(old(self)@.bindings, name) is Some,
        ensures
            final(self)@ == reassign_model(old(self)@, name, value),
    {
        let i = match self.lookup(name) {
            Some(i) => i,
            None => {
                proof {
                    assert(false);
                }
                return ;
            },
        };
        let b = self.bindings[i];
        match b.state {
            OwnerState::Owned(v) => {
                self.releases.push(v);
            },
            _ => {},
        }
        self.bindings.set(i, Binding { state: OwnerState::Owned(value), ..b });
        proof {
            assert(final(self)@ =~= reassign_model(old(self)@, name, value));
        }
    }

    /// Pops the innermost scope.  Every binding of it that still owns its
    /// value has that value released, in reverse declaration order; the
    /// events are appended to `releases`.
    pub fn exit_scope(&mut self)
        requires
            store_wf(old(self)@),
            old(self)@.scopes.len() > 0,
        ensures
            final(self)@ == exit_scope_model(old(self)@),
            store_wf(final(self)@),
    {
        let start = self.scope_starts[self.scope_starts.len() - 1];
        let ghost n0 = old(self)@.bindings.len() as int;
        self.scope_starts.pop();
        while self.bindings.len() > start
            invariant
                store_wf(old(self)@),
                old(self)@.scopes.len() > 0,
                start == old(self)@.scopes.last(),
                n0 == old(self)@.bindings.len(),
                start <= self@.bindings.len(),
                self@.bindings.len() <= n0,
                self@.bindings =~= old(self)@.bindings.take(self@.bindings.len() as int),
                self@.scopes =~= old(self)@.scopes.drop_last(),
                self@.releases =~= old(self)@.releases + scope_releases(
                    old(self)@.bindings.subrange(self@.bindings.len() as int, n0),
                ),
            decreases self.bindings.len(),
        {
            let ghost m = self@.bindings.len() as int;
            proof {
                assert(old(self)@.bindings.subrange(m - 1, n0).drop_first()
                    =~= old(self)@.bindings.subrange(m, n0));
                assert(old(self)@.bindings.subrange(m - 1, n0).first() == old(
                    self,
                )@.bindings[m - 1]);
                assert(old(self)@.bindings.take(m)[m - 1] == old(self)@.bindings[m - 1]);
            }
            let b = match self.bindings.pop() {
                Some(b) => b,
                None => {
                    proof {
                        assert(false);
                    }
                    return ;
                },
            };
            proof {
                assert(self@.bindings =~= old(self)@.bindings.take(m - 1));
            }
            match b.state {
                OwnerState::Owned(v) => {
                    self.releases.push(v);
                },
                _ => {},
            }
        }
        proof {
            assert(self@.bindings.len() == start);
            assert(final(self)@ =~= exit_scope_model(old(self)@));
        }
    }
}

} // verus!
