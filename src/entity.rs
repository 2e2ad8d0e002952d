//! An entity: a mapping from component kinds to borrow cells.

use std::collections::HashMap;
use vstd::prelude::*;

use crate::borrow_cell::{
    acquired, can_acquire, has_room, holds, released, valid_state, Access, BorrowCell,
    BorrowState, CellGuard, CellView,
};

verus! {

broadcast use vstd::std_specs::hash::group_hash_axioms;

/// Every cell of a component map is in a well-formed state.
pub open spec fn valid_cells<V>(m: Map<u64, CellView<V>>) -> bool {
    forall|k: u64| #[trigger] m.contains_key(k) ==> valid_state(m[k].state)
}

/// The cell of `kind` is absent or has no live borrow.
pub open spec fn unborrowed<V>(m: Map<u64, CellView<V>>, kind: u64) -> bool {
    m.contains_key(kind) ==> m[kind].state is Free
}

/// A live claim on the cell of one component kind of one entity. It names both, and
/// only that entity accepts it back.
#[derive(Debug)]
pub struct Guard {
    entity: u64,
    cell: CellGuard,
}

impl Guard {
    /// The identity of the entity that granted this claim.
    pub closed spec fn entity(&self) -> u64 {
        self.entity
    }

    pub closed spec fn kind(&self) -> u64 {
        self.cell.cell()
    }

    /// The identity of the entity this claim is on.
    pub fn entity_id(&self) -> (r: u64)
        ensures
            r == self.entity(),
    {
        self.entity
    }

    pub closed spec fn access(&self) -> Access {
        self.cell.access()
    }

    /// The component kind this claim is on.
    pub fn component(&self) -> (r: u64)
        ensures
            r == self.kind(),
    {
        self.cell.cell_id()
    }

    /// The mode of this claim.
    pub fn mode(&self) -> (r: Access)
        ensures
            r == self.access(),
    {
        self.cell.mode()
    }
}

/// A live claim of mode `a` on the cell of `kind` is consistent with the map `m`.
pub open spec fn claim_live<V>(m: Map<u64, CellView<V>>, kind: u64, a: Access) -> bool {
    m.contains_key(kind) && holds(m[kind].state, a)
}

/// Components of one entity, keyed by a stable number for each component kind.
#[derive(Debug)]
pub struct Entity<V> {
    id: u64,
    cells: HashMap<u64, BorrowCell<V>>,
}

impl<V> View for Entity<V> {
    type V = Map<u64, CellView<V>>;

    closed spec fn view(&self) -> Map<u64, CellView<V>> {
        Map::new(|k: u64| self.cells@.contains_key(k), |k: u64| self.cells@[k]@)
    }
}

impl<V> Entity<V> {
    /// The identity the entity was made with; its guards carry it.
    pub closed spec fn id(&self) -> u64 {
        self.id
    }

    /// Each cell is identified by its component kind.
    pub closed spec fn cells_named(&self) -> bool {
        forall|k: u64| #[trigger] self.cells@.contains_key(k) ==> self.cells@[k].id() == k
    }

    pub open spec fn wf(&self) -> bool {
        valid_cells(self@) && self.cells_named()
    }

    /// An entity with no component, identified by `id`. Entities that live side by side
    /// are to be given distinct identities, as `World` does.
    pub fn new(id: u64) -> (r: Self)
        ensures
            r.id() == id,
            r@ == Map::<u64, CellView<V>>::empty(),
            r.wf(),
    {
        let r = Entity { id, cells: HashMap::new() };
        assert(r@ =~= Map::<u64, CellView<V>>::empty());
        r
    }

    /// The identity of this entity.
    pub fn identity(&self) -> (r: u64)
        ensures
            r == self.id(),
    {
        self.id
    }

    /// Whether the entity has a component of `kind`.
    pub fn has(&self, kind: u64) -> (r: bool)
        ensures
            r == self@.contains_key(kind),
    {
        self.cells.contains_key(&kind)
    }

    /// The cell of the component of `kind`, if the entity has one.
    pub fn get_cell(&self, kind: u64) -> (r: Option<&BorrowCell<V>>)
        ensures
            r is Some <==> self@.contains_key(kind),
            r is Some ==> r->0@ == self@[kind],
    {
        self.cells.get(&kind)
    }

    /// The borrow state of the component of `kind`, if the entity has one.
    pub fn state_of(&self, kind: u64) -> (r: Option<BorrowState>)
        ensures
            r is Some <==> self@.contains_key(kind),
            r is Some ==> r->0 == self@[kind].state,
    {
        match self.cells.get(&kind) {
            Some(cell) => Some(cell.state()),
            None => None,
        }
    }

    /// Attaches `value` as the component of `kind`, replacing any earlier one.
    /// The cell it replaces must have no live borrow.
    pub fn insert(&mut self, kind: u64, value: V)
        requires
            old(self).wf(),
            unborrowed(old(self)@, kind),
        ensures
            final(self).wf(),
            final(self).id() == old(self).id(),
            final(self)@ == old(self)@.insert(kind, CellView { value, state: BorrowState::Free }),
    {
        let cell = BorrowCell::new(kind, value);
        self.cells.insert(kind, cell);
        assert(self@ =~= old(self)@.insert(kind, CellView { value, state: BorrowState::Free }));
    }

    /// Detaches the component of `kind` and returns its value; `None` if there is none.
    /// Its cell must have no live borrow.
    pub fn remove(&mut self, kind: u64) -> (r: Option<V>)
        requires
            old(self).wf(),
            unborrowed(old(self)@, kind),
        ensures
            final(self).wf(),
            final(self).id() == old(self).id(),
            final(self)@ == old(self)@.remove(kind),
            r is Some <==> old(self)@.contains_key(kind),
            r is Some ==> r->0 == old(self)@[kind].value,
    {
        let removed = self.cells.remove(&kind);
        assert(self@ =~= old(self)@.remove(kind));
        match removed {
            Some(cell) => Some(cell.into_inner()),
            None => None,
        }
    }

    /// Tries to borrow the component of `kind` in mode `access`. It fails when the
    /// component is absent or conflictingly borrowed, and then changes nothing.
    pub fn try_borrow(&mut self, kind: u64, access: Access) -> (r: Option<Guard>)
        requires
            old(self).wf(),
            old(self)@.contains_key(kind) ==> has_room(old(self)@[kind].state, access),
        ensures
            final(self).wf(),
            final(self).id() == old(self).id(),
            r is Some <==> (old(self)@.contains_key(kind) && can_acquire(
                old(self)@[kind].state,
                access,
            )),
            r is Some ==> r->0.entity() == old(self).id() && r->0.kind() == kind && r->0.access()
                == access && final(self)@ == old(
                self,
            )@.insert(
                kind,
                CellView {
                    value: old(self)@[kind].value,
                    state: acquired(old(self)@[kind].state, access),
                },
            ),
            r is None ==> final(self)@ == old(self)@,
    {
        let removed = self.cells.remove(&kind);
        match removed {
            None => {
                assert(self@ =~= old(self)@);
                None
            },
            Some(mut cell) => {
                assert(old(self)@.contains_key(kind) && cell@ == old(self)@[kind]);
                let g = cell.try_acquire(access);
                self.cells.insert(kind, cell);
                match g {
                    Some(cg) => {
                        assert(self@ =~= old(self)@.insert(
                            kind,
                            CellView {
                                value: old(self)@[kind].value,
                                state: acquired(old(self)@[kind].state, access),
                            },
                        ));
                        Some(Guard { entity: self.id, cell: cg })
                    },
                    None => {
                        assert(self@ =~= old(self)@);
                        None
                    },
                }
            },
        }
    }

    /// Ends a claim on this entity, exactly once: the guard is consumed.
    pub fn release(&mut self, guard: Guard)
        requires
            old(self).wf(),
            guard.entity() == old(self).id(),
            claim_live(old(self)@, guard.kind(), guard.access()),
        ensures
            final(self).wf(),
            final(self).id() == old(self).id(),
            final(self)@ == old(self)@.insert(
                guard.kind(),
                CellView {
                    value: old(self)@[guard.kind()].value,
                    state: released(old(self)@[guard.kind()].state, guard.access()),
                },
            ),
    {
        let Guard { entity: _, cell: cg } = guard;
        let kind = cg.cell_id();
        let removed = self.cells.remove(&kind);
        match removed {
            Some(mut cell) => {
                assert(old(self)@.contains_key(kind) && cell@ == old(self)@[kind]);
                cell.release(cg);
                self.cells.insert(kind, cell);
                assert(self@ =~= old(self)@.insert(
                    kind,
                    CellView {
                        value: old(self)@[kind].value,
                        state: released(old(self)@[kind].state, guard.access()),
                    },
                ));
            },
            None => {},
        }
    }

    /// The value of the component a live claim is on.
    pub fn get(&self, guard: &Guard) -> (r: &V)
        requires
            self.wf(),
            guard.entity() == self.id(),
            claim_live(self@, guard.kind(), guard.access()),
        ensures
            *r == self@[guard.kind()].value,
    {
        let cell = self.cells.get(&guard.cell.cell_id()).unwrap();
        cell.get(&guard.cell)
    }

    /// Replaces the value of the component an exclusive claim is on.
    pub fn set(&mut self, guard: &Guard, value: V)
        requires
            old(self).wf(),
            guard.entity() == old(self).id(),
            guard.access() == Access::Exclusive,
            claim_live(old(self)@, guard.kind(), Access::Exclusive),
        ensures
            final(self).wf(),
            final(self).id() == old(self).id(),
            final(self)@ == old(self)@.insert(
                guard.kind(),
                CellView { value, state: old(self)@[guard.kind()].state },
            ),
    {
        let kind = guard.cell.cell_id();
        let removed = self.cells.remove(&kind);
        match removed {
            Some(mut cell) => {
                assert(old(self)@.contains_key(kind) && cell@ == old(self)@[kind]);
                cell.set(&guard.cell, value);
                self.cells.insert(kind, cell);
                assert(self@ =~= old(self)@.insert(
                    kind,
                    CellView { value, state: old(self)@[kind].state },
                ));
            },
            None => {},
        }
    }
}

} // verus!
