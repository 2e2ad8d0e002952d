//! A single component slot with its borrow state.

use vstd::prelude::*;

verus! {

/// The mode in which a borrow is requested: shared (read) or exclusive (write).
#[derive(Clone, Copy, Debug, PartialEq, Eq, Structural)]
pub enum Access {
    Shared,
    Exclusive,
}

/// The borrow state of a cell: no borrow, `n` shared borrows, or one exclusive borrow.
#[derive(Clone, Copy, Debug, PartialEq, Eq, Structural)]
pub enum BorrowState {
    Free,
    Shared(u32),
    Exclusive,
}

/// A state is well formed when a shared state counts at least one borrow.
pub open spec fn valid_state(s: BorrowState) -> bool {
    match s {
        BorrowState::Shared(n) => n >= 1,
        _ => true,
    }
}

/// A borrow of mode `a` may be granted in state `s`.
pub open spec fn can_acquire(s: BorrowState, a: Access) -> bool {
    match a {
        Access::Shared => !(s is Exclusive),
        Access::Exclusive => s is Free,
    }
}

/// Granting one more shared borrow would not overflow the count.
pub open spec fn has_room(s: BorrowState, a: Access) -> bool {
    match (s, a) {
        (BorrowState::Shared(n), Access::Shared) => n < u32::MAX,
        _ => true,
    }
}

/// The state after a borrow of mode `a` is granted in state `s`.
pub open spec fn acquired(s: BorrowState, a: Access) -> BorrowState {
    match a {
        Access::Shared => match s {
            BorrowState::Shared(n) => BorrowState::Shared((n + 1) as u32),
            _ => BorrowState::Shared(1),
        },
        Access::Exclusive => BorrowState::Exclusive,
    }
}

/// A live borrow of mode `a` is consistent with state `s`.
pub open spec fn holds(s: BorrowState, a: Access) -> bool {
    match a {
        Access::Shared => s is Shared,
        Access::Exclusive => s is Exclusive,
    }
}

/// The state after a live borrow of mode `a` ends in state `s`.
pub open spec fn released(s: BorrowState, a: Access) -> BorrowState {
    match s {
        BorrowState::Shared(n) => if a is Shared && n > 1 {
            BorrowState::Shared((n - 1) as u32)
        } else {
            BorrowState::Free
        },
        _ => BorrowState::Free,
    }
}

/// The number of shared borrows that state `s` counts.
pub open spec fn shared_count(s: BorrowState) -> nat {
    match s {
        BorrowState::Shared(n) => n as nat,
        _ => 0,
    }
}

/// While an exclusive borrow is live no other borrow is granted, and a second exclusive
/// borrow is refused; shared borrows are granted alongside each other and keep out an
/// exclusive one.
pub proof fn lemma_exclusive_excludes(s: BorrowState, a: Access)
    ensures
        holds(s, Access::Exclusive) ==> !can_acquire(s, a),
        can_acquire(s, Access::Exclusive) ==> !can_acquire(
            acquired(s, Access::Exclusive),
            a,
        ),
        can_acquire(s, Access::Shared) ==> can_acquire(acquired(s, Access::Shared), Access::Shared)
            && !can_acquire(acquired(s, Access::Shared), Access::Exclusive),
{
}

/// Ending a claim undoes exactly the one change its grant made to the state.
pub proof fn lemma_release_undoes_acquire(s: BorrowState, a: Access)
    requires
        valid_state(s),
        can_acquire(s, a),
        has_room(s, a),
    ensures
        holds(acquired(s, a), a),
        valid_state(acquired(s, a)),
        released(acquired(s, a), a) == s,
        shared_count(acquired(s, a)) == shared_count(s) + if a is Shared {
            1int
        } else {
            0int
        },
{
}

/// What a cell holds, seen from contracts: its value and its borrow state.
pub struct CellView<V> {
    pub value: V,
    pub state: BorrowState,
}

/// A live claim on one cell, naming that cell. It is not `Clone`: it ends exactly once,
/// when handed back to the cell that granted it.
#[derive(Debug)]
pub struct CellGuard {
    cell: u64,
    access: Access,
}

impl CellGuard {
    pub closed spec fn access(&self) -> Access {
        self.access
    }

    pub closed spec fn cell(&self) -> u64 {
        self.cell
    }

    /// The identity of the cell that granted this claim.
    pub fn cell_id(&self) -> (r: u64)
        ensures
            r == self.cell(),
    {
        self.cell
    }

    /// The mode of this claim.
    pub fn mode(&self) -> (r: Access)
        ensures
            r == self.access(),
    {
        self.access
    }
}

/// One component value together with the borrows currently granted on it.
#[derive(Debug)]
pub struct BorrowCell<V> {
    id: u64,
    value: V,
    state: BorrowState,
}

impl<V> View for BorrowCell<V> {
    type V = CellView<V>;

    closed spec fn view(&self) -> CellView<V> {
        CellView { value: self.value, state: self.state }
    }
}

impl<V> BorrowCell<V> {
    pub open spec fn wf(&self) -> bool {
        valid_state(self@.state)
    }

    /// The identity the cell was made with; its guards carry it.
    pub closed spec fn id(&self) -> u64 {
        self.id
    }

    /// A free cell holding `value`, identified by `id`.
    pub fn new(id: u64, value: V) -> (r: Self)
        ensures
            r.id() == id,
            r@.value == value,
            r@.state == BorrowState::Free,
            r.wf(),
    {
        BorrowCell { id, value, state: BorrowState::Free }
    }

    /// The identity of this cell.
    pub fn identity(&self) -> (r: u64)
        ensures
            r == self.id(),
    {
        self.id
    }

    /// The current borrow state.
    pub fn state(&self) -> (r: BorrowState)
        ensures
            r == self@.state,
    {
        self.state
    }

    /// Tries to grant a borrow of mode `access`; on refusal the cell is unchanged.
    pub fn try_acquire(&mut self, access: Access) -> (r: Option<CellGuard>)
        requires
            old(self).wf(),
            has_room(old(self)@.state, access),
        ensures
            final(self).wf(),
            final(self).id() == old(self).id(),
            final(self)@.value == old(self)@.value,
            r is Some ==> r->0.cell() == old(self).id(),
            r is Some <==> can_acquire(old(self)@.state, access),
            r is Some ==> r->0.access() == access && final(self)@.state == acquired(
                old(self)@.state,
                access,
            ),
            r is None ==> final(self)@ == old(self)@,
    {
        match access {
            Access::Shared => match self.state {
                BorrowState::Free => {
                    self.state = BorrowState::Shared(1);
                    Some(CellGuard { cell: self.id, access })
                },
                BorrowState::Shared(n) => {
                    self.state = BorrowState::Shared(n + 1);
                    Some(CellGuard { cell: self.id, access })
                },
                BorrowState::Exclusive => None,
            },
            Access::Exclusive => match self.state {
                BorrowState::Free => {
                    self.state = BorrowState::Exclusive;
                    Some(CellGuard { cell: self.id, access })
                },
                _ => None,
            },
        }
    }

    /// Tries to grant a shared borrow: it succeeds unless the cell is exclusively borrowed.
    pub fn try_acquire_shared(&mut self) -> (r: Option<CellGuard>)
        requires
            old(self).wf(),
            has_room(old(self)@.state, Access::Shared),
        ensures
            final(self).wf(),
            final(self).id() == old(self).id(),
            final(self)@.value == old(self)@.value,
            r is Some ==> r->0.cell() == old(self).id(),
            r is Some <==> !(old(self)@.state is Exclusive),
            r is Some ==> r->0.access() == Access::Shared && final(self)@.state == acquired(
                old(self)@.state,
                Access::Shared,
            ),
            r is None ==> final(self)@ == old(self)@,
    {
        self.try_acquire(Access::Shared)
    }

    /// Tries to grant an exclusive borrow: it succeeds only if the cell is free.
    pub fn try_acquire_exclusive(&mut self) -> (r: Option<CellGuard>)
        requires
            old(self).wf(),
        ensures
            final(self).wf(),
            final(self).id() == old(self).id(),
            final(self)@.value == old(self)@.value,
            r is Some ==> r->0.cell() == old(self).id(),
            r is Some <==> old(self)@.state is Free,
            r is Some ==> r->0.access() == Access::Exclusive && final(self)@.state
                == BorrowState::Exclusive,
            r is None ==> final(self)@ == old(self)@,
    {
        self.try_acquire(Access::Exclusive)
    }

    /// Ends a claim: a shared count goes down by one, an exclusive borrow becomes free.
    pub fn release(&mut self, guard: CellGuard)
        requires
            old(self).wf(),
            guard.cell() == old(self).id(),
            holds(old(self)@.state, guard.access()),
        ensures
            final(self).wf(),
            final(self).id() == old(self).id(),
            final(self)@.value == old(self)@.value,
            final(self)@.state == released(old(self)@.state, guard.access()),
    {
        match self.state {
            BorrowState::Shared(n) => {
                if n > 1 {
                    self.state = BorrowState::Shared(n - 1);
                } else {
                    self.state = BorrowState::Free;
                }
            },
            _ => {
                self.state = BorrowState::Free;
            },
        }
    }

    /// The value, readable under any live claim.
    pub fn get(&self, guard: &CellGuard) -> (r: &V)
        requires
            guard.cell() == self.id(),
            holds(self@.state, guard.access()),
        ensures
            *r == self@.value,
    {
        &self.value
    }

    /// Replaces the value under an exclusive claim.
    pub fn set(&mut self, guard: &CellGuard, value: V)
        requires
            old(self).wf(),
            guard.cell() == old(self).id(),
            guard.access() == Access::Exclusive,
            holds(old(self)@.state, Access::Exclusive),
        ensures
            final(self).wf(),
            final(self).id() == old(self).id(),
            final(self)@.state == old(self)@.state,
            final(self)@.value == value,
    {
        self.value = value;
    }

    /// Takes the value out of a free cell.
    pub fn into_inner(self) -> (r: V)
        ensures
            r == self@.value,
    {
        self.value
    }
}

} // verus!
