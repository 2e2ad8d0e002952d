//! A world: entities side by side, and queries driven across them.

use vstd::prelude::*;

use crate::borrow_cell::{Access, BorrowState, CellView};
use crate::entity::{claim_live, unborrowed, Entity, Guard};
use crate::query::{
    acquire_all, all_live, lemma_release_restores, release_all, release_direct, releasable,
    room_for, Borrows, Query,
};

verus! {

/// All entities of a world. The entity at index `i` has identity `i`, so guards granted
/// by one entity are refused by every other.
#[derive(Debug)]
pub struct World<V> {
    entities: Vec<Entity<V>>,
}

impl<V> View for World<V> {
    type V = Seq<Map<u64, CellView<V>>>;

    closed spec fn view(&self) -> Seq<Map<u64, CellView<V>>> {
        self.entities@.map_values(|e: Entity<V>| e@)
    }
}

impl<V> World<V> {
    pub closed spec fn wf(&self) -> bool {
        &&& self.entities@.len() <= u64::MAX
        &&& forall|i: int|
            0 <= i < self.entities@.len() ==> (#[trigger] self.entities@[i]).wf()
                && self.entities@[i].id() == i
    }

    /// A world with no entity.
    pub fn new() -> (r: Self)
        ensures
            r.wf(),
            r@ == Seq::<Map<u64, CellView<V>>>::empty(),
    {
        let r = World { entities: Vec::new() };
        assert(r@ =~= Seq::<Map<u64, CellView<V>>>::empty());
        r
    }

    /// Adds an entity with no component and returns its index, which is also its identity.
    pub fn spawn(&mut self) -> (r: usize)
        requires
            old(self).wf(),
            old(self)@.len() < u64::MAX,
        ensures
            final(self).wf(),
            final(self)@ == old(self)@.push(Map::<u64, CellView<V>>::empty()),
            r == old(self)@.len(),
    {
        let r = self.entities.len();
        let e = Entity::new(r as u64);
        self.entities.push(e);
        assert(self@ =~= old(self)@.push(Map::<u64, CellView<V>>::empty()));
        assert(self.entities@[r as int].id() == r);
        r
    }

    /// The number of entities.
    pub fn len(&self) -> (r: usize)
        ensures
            r == self@.len(),
    {
        self.entities.len()
    }

    /// The entity at index `i`.
    pub fn entity(&self, i: usize) -> (r: &Entity<V>)
        requires
            self.wf(),
            i < self@.len(),
        ensures
            r@ == self@[i as int],
            r.id() == i,
            r.wf(),
    {
        &self.entities[i]
    }

    /// Attaches `value` as the component of `kind` of entity `i`, replacing any earlier
    /// one. The cell it replaces must have no live borrow.
    pub fn insert(&mut self, i: usize, kind: u64, value: V)
        requires
            old(self).wf(),
            i < old(self)@.len(),
            unborrowed(old(self)@[i as int], kind),
        ensures
            final(self).wf(),
            final(self)@ == old(self)@.update(
                i as int,
                old(self)@[i as int].insert(kind, CellView { value, state: BorrowState::Free }),
            ),
    {
        assert(self.entities@[i as int].wf());
        let e = &mut self.entities[i];
        e.insert(kind, value);
        assert(self@ =~= old(self)@.update(
            i as int,
            old(self)@[i as int].insert(kind, CellView { value, state: BorrowState::Free }),
        ));
    }

    /// Detaches the component of `kind` of entity `i`. Its cell must have no live borrow.
    pub fn remove(&mut self, i: usize, kind: u64) -> (r: Option<V>)
        requires
            old(self).wf(),
            i < old(self)@.len(),
            unborrowed(old(self)@[i as int], kind),
        ensures
            final(self).wf(),
            final(self)@ == old(self)@.update(i as int, old(self)@[i as int].remove(kind)),
            r is Some <==> old(self)@[i as int].contains_key(kind),
            r is Some ==> r->0 == old(self)@[i as int][kind].value,
    {
        assert(self.entities@[i as int].wf());
        let e = &mut self.entities[i];
        let r = e.remove(kind);
        assert(self@ =~= old(self)@.update(i as int, old(self)@[i as int].remove(kind)));
        r
    }

    /// Runs `q` on entity `i`, as `Query::borrow_direct` does; no other entity changes.
    pub fn borrow_direct(&mut self, i: usize, q: &Query) -> (r: Option<Borrows>)
        requires
            old(self).wf(),
            i < old(self)@.len(),
            room_for(old(self)@[i as int], q@),
        ensures
            final(self).wf(),
            r is Some <==> acquire_all(old(self)@[i as int], q@) is Some,
            r is Some ==> final(self)@ == old(self)@.update(
                i as int,
                acquire_all(old(self)@[i as int], q@)->0,
            ),
            r is Some ==> all_live(final(self)@[i as int], q@) && releasable(
                final(self)@[i as int],
                q@,
            ) && r->0.requests() == q@ && r->0.granted_by(i as u64),
            r is None ==> final(self)@ == old(self)@,
    {
        assert(self.entities@[i as int].wf());
        let e = &mut self.entities[i];
        let r = q.borrow_direct(e);
        assert(self@ =~= old(self)@.update(i as int, self.entities@[i as int]@));
        proof {
            if r is None {
                assert(self@ =~= old(self)@);
            }
        }
        r
    }

    /// The values of the fields of `q` on entity `i`, under borrows it granted there.
    pub fn get_direct<'a>(&'a self, i: usize, q: &Query, b: &Borrows) -> (r: Vec<&'a V>)
        requires
            self.wf(),
            i < self@.len(),
            b.granted_by(i as u64),
            b.requests() == q@,
            all_live(self@[i as int], q@),
        ensures
            r@.len() == q@.len(),
            forall|j: int|
                0 <= j < r@.len() ==> *r@[j] == self@[i as int][#[trigger] q@[j].kind].value,
    {
        let e = &self.entities[i];
        q.get_direct(e, b)
    }

    /// Replaces, on entity `i`, the value of the component an exclusive claim is on.
    pub fn set(&mut self, i: usize, guard: &Guard, value: V)
        requires
            old(self).wf(),
            i < old(self)@.len(),
            guard.entity() == i,
            guard.access() == Access::Exclusive,
            claim_live(old(self)@[i as int], guard.kind(), Access::Exclusive),
        ensures
            final(self).wf(),
            final(self)@ == old(self)@.update(
                i as int,
                old(self)@[i as int].insert(
                    guard.kind(),
                    CellView { value, state: old(self)@[i as int][guard.kind()].state },
                ),
            ),
    {
        assert(self.entities@[i as int].wf());
        let e = &mut self.entities[i];
        e.set(guard, value);
        assert(self@ =~= old(self)@.update(i as int, self.entities@[i as int]@));
    }

    /// Hands back, to entity `i`, every guard of a query it granted, the last first.
    pub fn release_direct(&mut self, i: usize, b: Borrows)
        requires
            old(self).wf(),
            i < old(self)@.len(),
            b.granted_by(i as u64),
            releasable(old(self)@[i as int], b.requests()),
        ensures
            final(self).wf(),
            final(self)@ == old(self)@.update(
                i as int,
                release_all(old(self)@[i as int], b.requests()),
            ),
    {
        assert(self.entities@[i as int].wf());
        let e = &mut self.entities[i];
        release_direct(e, b);
        assert(self@ =~= old(self)@.update(i as int, self.entities@[i as int]@));
    }

    /// The indices, in increasing order, of the entities on which `q` would be granted
    /// now. Each attempt is handed back at once, so no entity changes.
    pub fn matching(&mut self, q: &Query) -> (r: Vec<usize>)
        requires
            old(self).wf(),
            forall|i: int| 0 <= i < old(self)@.len() ==> room_for(#[trigger] old(self)@[i], q@),
        ensures
            final(self).wf(),
            final(self)@ == old(self)@,
            forall|j: int| 0 <= j < r@.len() ==> #[trigger] r@[j] < old(self)@.len(),
            forall|j: int, k: int| 0 <= j < k < r@.len() ==> r@[j] < r@[k],
            forall|i: int|
                0 <= i < old(self)@.len() ==> (acquire_all(#[trigger] old(self)@[i], q@) is Some
                    <==> r@.contains(i as usize)),
    {
        let mut out: Vec<usize> = Vec::new();
        let mut i: usize = 0;
        while i < self.entities.len()
            invariant
                self.wf(),
                self@ == old(self)@,
                i <= self@.len(),
                forall|i: int| 0 <= i < old(self)@.len() ==> room_for(#[trigger] old(self)@[i], q@),
                forall|j: int| 0 <= j < out@.len() ==> #[trigger] out@[j] < i,
                forall|j: int, k: int| 0 <= j < k < out@.len() ==> out@[j] < out@[k],
                forall|t: int|
                    0 <= t < i ==> (acquire_all(#[trigger] old(self)@[t], q@) is Some
                        <==> out@.contains(t as usize)),
            decreases self@.len() - i,
        {
            let ghost m = self@[i as int];
            assert(self.entities@[i as int].wf());
            assert(self.entities@[i as int]@ == m);
            let e = &mut self.entities[i];
            let got = q.borrow_direct(e);
            let ghost before = out@;
            match got {
                Some(b) => {
                    proof {
                        lemma_release_restores(m, q@);
                    }
                    release_direct(e, b);
                    out.push(i);
                },
                None => {},
            }
            proof {
                assert forall|t: int| 0 <= t < i + 1 implies (acquire_all(
                    #[trigger] old(self)@[t],
                    q@,
                ) is Some <==> out@.contains(t as usize)) by {
                    if out@.contains(t as usize) {
                        let w = choose|w: int| 0 <= w < out@.len() && out@[w] == t as usize;
                        if w < before.len() {
                            assert(before[w] == out@[w]);
                            assert(before.contains(t as usize));
                        }
                    }
                    if t < i && before.contains(t as usize) {
                        let w = choose|w: int| 0 <= w < before.len() && before[w] == t as usize;
                        assert(out@[w] == before[w]);
                    }
                    if t == i && got is Some {
                        assert(out@[before.len() as int] == i);
                    }
                }
            }
            i += 1;
        }
        out
    }
}

} // verus!
