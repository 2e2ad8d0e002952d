//! Queries: all-or-nothing acquisition of a list of component borrows on one entity.
//!
//! A query is a list of requests, one per field in declaration order. A field that is
//! itself a query contributes its own requests in place, so nesting flattens into the
//! same list and keeps the same order.

use vstd::prelude::*;

use crate::borrow_cell::{
    acquired, can_acquire, has_room, released, shared_count, valid_state, Access, CellView,
};
use crate::entity::{claim_live, valid_cells, Entity, Guard};

verus! {

/// One primitive request: a component kind and the mode it is wanted in.
#[derive(Clone, Copy, Debug, PartialEq, Eq, Structural)]
pub struct Request {
    pub kind: u64,
    pub access: Access,
}

/// The component map after granting request `r` on `m`, or `None` if it is refused.
pub open spec fn step<V>(m: Map<u64, CellView<V>>, r: Request) -> Option<Map<u64, CellView<V>>> {
    if m.contains_key(r.kind) && can_acquire(m[r.kind].state, r.access) {
        Some(
            m.insert(
                r.kind,
                CellView { value: m[r.kind].value, state: acquired(m[r.kind].state, r.access) },
            ),
        )
    } else {
        None
    }
}

/// The component map after granting `rs` in order on `m`, or `None` if one is refused.
pub open spec fn acquire_all<V>(m: Map<u64, CellView<V>>, rs: Seq<Request>) -> Option<
    Map<u64, CellView<V>>,
>
    decreases rs.len(),
{
    if rs.len() == 0 {
        Some(m)
    } else {
        match acquire_all(m, rs.drop_last()) {
            Some(m1) => step(m1, rs.last()),
            None => None,
        }
    }
}

/// The component map after the live claim made by request `r` ends.
pub open spec fn unstep<V>(m: Map<u64, CellView<V>>, r: Request) -> Map<u64, CellView<V>> {
    m.insert(
        r.kind,
        CellView { value: m[r.kind].value, state: released(m[r.kind].state, r.access) },
    )
}

/// The component map after the claims made by `rs` end, the last one first.
pub open spec fn release_all<V>(m: Map<u64, CellView<V>>, rs: Seq<Request>) -> Map<
    u64,
    CellView<V>,
>
    decreases rs.len(),
{
    if rs.len() == 0 {
        m
    } else {
        release_all(unstep(m, rs.last()), rs.drop_last())
    }
}

/// The claims made by `rs` are live on `m` in a way that lets them end, the last one first.
pub open spec fn releasable<V>(m: Map<u64, CellView<V>>, rs: Seq<Request>) -> bool
    decreases rs.len(),
{
    rs.len() == 0 || (claim_live(m, rs.last().kind, rs.last().access) && releasable(
        unstep(m, rs.last()),
        rs.drop_last(),
    ))
}

/// Every claim made by `rs` is live on `m`.
pub open spec fn all_live<V>(m: Map<u64, CellView<V>>, rs: Seq<Request>) -> bool {
    forall|i: int| 0 <= i < rs.len() ==> claim_live(m, #[trigger] rs[i].kind, rs[i].access)
}

/// The number of shared requests on the component of `kind` in `rs`.
pub open spec fn shared_requests(rs: Seq<Request>, kind: u64) -> nat
    decreases rs.len(),
{
    if rs.len() == 0 {
        0
    } else {
        shared_requests(rs.drop_last(), kind) + if rs.last().kind == kind && rs.last().access
            is Shared {
            1nat
        } else {
            0nat
        }
    }
}

/// Granting the shared requests of `rs` does not overflow the count of any cell of `m`.
/// A cell that `rs` does not read needs no spare count.
pub open spec fn room_for<V>(m: Map<u64, CellView<V>>, rs: Seq<Request>) -> bool {
    forall|k: u64| #[trigger]
        m.contains_key(k) ==> shared_count(m[k].state) + shared_requests(rs, k) <= u32::MAX
}

/// A prefix of the requests makes no more shared requests on a kind than the whole list.
pub proof fn lemma_prefix_requests(rs: Seq<Request>, j: int, kind: u64)
    requires
        0 <= j <= rs.len(),
    ensures
        shared_requests(rs.take(j), kind) <= shared_requests(rs, kind),
    decreases rs.len() - j,
{
    if j == rs.len() {
        assert(rs.take(j) =~= rs);
    } else {
        assert(rs.take(j + 1).drop_last() =~= rs.take(j));
        lemma_prefix_requests(rs, j + 1, kind);
    }
}

/// Room for a list of requests is room for each of its prefixes.
pub proof fn lemma_room_prefix<V>(m: Map<u64, CellView<V>>, rs: Seq<Request>, j: int)
    requires
        0 <= j <= rs.len(),
        room_for(m, rs),
    ensures
        room_for(m, rs.take(j)),
{
    assert forall|k: u64| #[trigger] m.contains_key(k) implies shared_count(m[k].state)
        + shared_requests(rs.take(j), k) <= u32::MAX by {
        lemma_prefix_requests(rs, j, k);
    }
}

/// Granting requests keeps the components and their values, keeps states well formed,
/// and adds at most one shared borrow per request to any cell.
pub proof fn lemma_acquire_facts<V>(m: Map<u64, CellView<V>>, rs: Seq<Request>)
    requires
        valid_cells(m),
        room_for(m, rs),
        acquire_all(m, rs) is Some,
    ensures
        ({
            let m2 = acquire_all(m, rs)->0;
            &&& m2.dom() == m.dom()
            &&& valid_cells(m2)
            &&& forall|k: u64| #[trigger]
                m.contains_key(k) ==> m2[k].value == m[k].value && shared_count(m2[k].state)
                    <= shared_count(m[k].state) + shared_requests(rs, k)
        }),
    decreases rs.len(),
{
    if rs.len() > 0 {
        let rs1 = rs.drop_last();
        assert(rs.take(rs.len() - 1) =~= rs1);
        lemma_room_prefix(m, rs, rs.len() - 1);
        lemma_acquire_facts(m, rs1);
        let m1 = acquire_all(m, rs1)->0;
        let m2 = acquire_all(m, rs)->0;
        let r = rs.last();
        assert(m2.dom() =~= m.dom());
        assert forall|k: u64| #[trigger] m2.contains_key(k) implies valid_state(m2[k].state) by {
            if k == r.kind {
                assert(m.contains_key(k));
            } else {
                assert(m1.contains_key(k));
            }
        }
    }
}

/// A granted request can be ended, and ending it gives back the map it was granted on.
pub proof fn lemma_step_undo<V>(m: Map<u64, CellView<V>>, r: Request)
    requires
        valid_cells(m),
        step(m, r) is Some,
        has_room(m[r.kind].state, r.access),
    ensures
        claim_live(step(m, r)->0, r.kind, r.access),
        unstep(step(m, r)->0, r) == m,
{
    let m2 = step(m, r)->0;
    assert(valid_state(m[r.kind].state));
    assert(released(acquired(m[r.kind].state, r.access), r.access) == m[r.kind].state);
    assert(unstep(m2, r) =~= m);
}

/// Once a prefix of the requests is refused, the whole list is refused.
pub proof fn lemma_refusal_extends<V>(m: Map<u64, CellView<V>>, rs: Seq<Request>, j: int)
    requires
        0 <= j <= rs.len(),
        acquire_all(m, rs.take(j)) is None,
    ensures
        acquire_all(m, rs) is None,
    decreases rs.len() - j,
{
    if j == rs.len() {
        assert(rs.take(j) =~= rs);
    } else {
        assert(rs.take(j + 1).drop_last() =~= rs.take(j));
        lemma_refusal_extends(m, rs, j + 1);
    }
}

/// Requests that are all granted leave every one of their claims live.
pub proof fn lemma_granted_live<V>(m: Map<u64, CellView<V>>, rs: Seq<Request>)
    requires
        acquire_all(m, rs) is Some,
    ensures
        all_live(acquire_all(m, rs)->0, rs),
    decreases rs.len(),
{
    if rs.len() > 0 {
        let rs1 = rs.drop_last();
        lemma_granted_live(m, rs1);
        let m1 = acquire_all(m, rs1)->0;
        let m2 = acquire_all(m, rs)->0;
        assert forall|i: int| 0 <= i < rs.len() implies claim_live(
            m2,
            #[trigger] rs[i].kind,
            rs[i].access,
        ) by {
            if i < rs.len() - 1 {
                assert(rs1[i] == rs[i]);
                assert(claim_live(m1, rs1[i].kind, rs1[i].access));
            }
        }
    }
}

/// Ending the claims of a query that was granted, last first, restores the borrow state
/// the entity had before the query ran, so running the query again then gives the same
/// outcome and the same state as the first run.
pub proof fn lemma_release_restores<V>(m: Map<u64, CellView<V>>, rs: Seq<Request>)
    requires
        valid_cells(m),
        room_for(m, rs),
        acquire_all(m, rs) is Some,
    ensures
        releasable(acquire_all(m, rs)->0, rs),
        release_all(acquire_all(m, rs)->0, rs) == m,
        acquire_all(release_all(acquire_all(m, rs)->0, rs), rs) == acquire_all(m, rs),
    decreases rs.len(),
{
    if rs.len() > 0 {
        let rs1 = rs.drop_last();
        assert(rs.take(rs.len() - 1) =~= rs1);
        lemma_room_prefix(m, rs, rs.len() - 1);
        lemma_release_restores(m, rs1);
        lemma_acquire_facts(m, rs1);
        let m1 = acquire_all(m, rs1)->0;
        let r = rs.last();
        assert(m.contains_key(r.kind));
        lemma_step_undo(m1, r);
    }
}

/// A composite query: its requests in field-declaration order.
#[derive(Debug)]
pub struct Query {
    requests: Vec<Request>,
}

impl View for Query {
    type V = Seq<Request>;

    closed spec fn view(&self) -> Seq<Request> {
        self.requests@
    }
}

/// The guards that a granted query holds, in the order they were granted.
#[derive(Debug)]
pub struct Borrows {
    guards: Vec<Guard>,
}

impl Borrows {
    /// Every guard held was granted by the entity identified by `id`.
    pub closed spec fn granted_by(&self, id: u64) -> bool {
        forall|i: int| 0 <= i < self.guards@.len() ==> (#[trigger] self.guards@[i]).entity() == id
    }

    /// The requests these guards were granted for.
    pub closed spec fn requests(&self) -> Seq<Request> {
        self.guards@.map_values(|g: Guard| Request { kind: g.kind(), access: g.access() })
    }

    /// The guard granted for the request at position `i`.
    pub fn guard(&self, i: usize) -> (r: &Guard)
        requires
            i < self.requests().len(),
        ensures
            forall|id: u64| self.granted_by(id) ==> r.entity() == id,
            r.kind() == self.requests()[i as int].kind,
            r.access() == self.requests()[i as int].access,
    {
        &self.guards[i]
    }

    /// How many guards are held.
    pub fn len(&self) -> (r: usize)
        ensures
            r == self.requests().len(),
    {
        self.guards.len()
    }
}

impl Query {
    /// The query with no field; it always succeeds.
    pub fn new() -> (r: Self)
        ensures
            r@ == Seq::<Request>::empty(),
    {
        Query { requests: Vec::new() }
    }

    /// Adds a field that reads the component of `kind`.
    pub fn with(self, kind: u64) -> (r: Self)
        ensures
            r@ == self@.push(Request { kind, access: Access::Shared }),
    {
        let mut q = self;
        q.requests.push(Request { kind, access: Access::Shared });
        q
    }

    /// Adds a field that writes the component of `kind`.
    pub fn with_mut(self, kind: u64) -> (r: Self)
        ensures
            r@ == self@.push(Request { kind, access: Access::Exclusive }),
    {
        let mut q = self;
        q.requests.push(Request { kind, access: Access::Exclusive });
        q
    }

    /// Adds a field that is itself a composite query.
    pub fn nest(self, inner: &Query) -> (r: Self)
        ensures
            r@ == self@ + inner@,
    {
        let mut q = self;
        let mut i: usize = 0;
        while i < inner.requests.len()
            invariant
                i <= inner@.len(),
                q@ == self@ + inner@.take(i as int),
            decreases inner@.len() - i,
        {
            q.requests.push(inner.requests[i]);
            i += 1;
            assert(q@ =~= self@ + inner@.take(i as int));
        }
        assert(inner@.take(inner@.len() as int) =~= inner@);
        q
    }

    /// The number of primitive requests.
    pub fn len(&self) -> (r: usize)
        ensures
            r == self@.len(),
    {
        self.requests.len()
    }
}

impl Query {
    /// Tries to borrow every field of the query on `e`, in field order. If one request is
    /// refused, the guards already granted are handed back, last first, and `e` is left
    /// exactly as it was.
    pub fn borrow_direct<V>(&self, e: &mut Entity<V>) -> (r: Option<Borrows>)
        requires
            old(e).wf(),
            room_for(old(e)@, self@),
        ensures
            final(e).wf(),
            r is Some <==> acquire_all(old(e)@, self@) is Some,
            r is Some ==> final(e)@ == acquire_all(old(e)@, self@)->0 && r->0.requests()
                == self@,
            r is Some ==> all_live(final(e)@, self@) && releasable(final(e)@, self@),
            r is Some ==> r->0.granted_by(old(e).id()),
            r is None ==> final(e)@ == old(e)@,
            final(e).id() == old(e).id(),
    {
        let ghost m0 = e@;
        let ghost q = self@;
        let mut guards: Vec<Guard> = Vec::new();
        let mut i: usize = 0;
        while i < self.requests.len()
            invariant
                i <= q.len(),
                q == self@,
                m0 == old(e)@,
                e.wf(),
                e.id() == old(e).id(),
                forall|t: int| 0 <= t < guards@.len() ==> (#[trigger] guards@[t]).entity() == e.id(),
                valid_cells(m0),
                room_for(m0, q),
                acquire_all(m0, q.take(i as int)) == Some(e@),
                guards@.len() == i,
                forall|t: int|
                    0 <= t < i ==> #[trigger] guards@[t].kind() == q[t].kind && guards@[t].access()
                        == q[t].access,
            decreases q.len() - i,
        {
            let r = self.requests[i];
            proof {
                lemma_room_prefix(m0, q, i as int);
                lemma_acquire_facts(m0, q.take(i as int));
                assert(q.take(i as int + 1).drop_last() =~= q.take(i as int));
                if e@.contains_key(r.kind) {
                    assert(m0.contains_key(r.kind));
                    lemma_prefix_requests(q, i as int + 1, r.kind);
                    assert(q.take(i as int + 1).last() == r);
                }
            }
            match e.try_borrow(r.kind, r.access) {
                Some(g) => {
                    let ghost before = guards@;
                    guards.push(g);
                    proof {
                        assert forall|t: int| 0 <= t < i + 1 implies #[trigger] guards@[t].kind()
                            == q[t].kind && guards@[t].access() == q[t].access by {
                            if t < i {
                                assert(guards@[t] == before[t]);
                                assert(before[t].kind() == q[t].kind);
                                assert(before[t].entity() == e.id());
                            }
                        }
                    }
                    i += 1;
                },
                None => {
                    proof {
                        lemma_refusal_extends(m0, q, i as int + 1);
                    }
                    while guards.len() > 0
                        invariant
                            guards@.len() <= q.len(),
                            q == self@,
                            m0 == old(e)@,
                            acquire_all(m0, q) is None,
                            e.wf(),
                            e.id() == old(e).id(),
                            forall|t: int| 0 <= t < guards@.len() ==> (#[trigger] guards@[t]).entity() == e.id(),
                            valid_cells(m0),
                            room_for(m0, q),
                            acquire_all(m0, q.take(guards@.len() as int)) == Some(e@),
                            forall|t: int|
                                0 <= t < guards@.len() ==> #[trigger] guards@[t].kind() == q[t].kind
                                    && guards@[t].access() == q[t].access,
                        decreases guards@.len(),
                    {
                        let ghost j = guards@.len() as int;
                        let ghost before = guards@;
                        let g = guards.pop().unwrap();
                        proof {
                            assert forall|t: int| 0 <= t < guards@.len() implies #[trigger] guards@[t].kind()
                                == q[t].kind && guards@[t].access() == q[t].access by {
                                assert(guards@[t] == before[t]);
                                assert(before[t].kind() == q[t].kind);
                                assert(before[t].entity() == e.id());
                            }
                            assert(g == before[j - 1]);
                            assert(before[j - 1].entity() == e.id());
                            let p = q.take(j - 1);
                            assert(q.take(j).drop_last() =~= p);
                            lemma_room_prefix(m0, q, j - 1);
                            lemma_acquire_facts(m0, p);
                            assert(m0.contains_key(q[j - 1].kind));
                            lemma_prefix_requests(q, j, q[j - 1].kind);
                            assert(q.take(j).last() == q[j - 1]);
                            lemma_step_undo(acquire_all(m0, p)->0, q[j - 1]);
                        }
                        e.release(g);
                    }
                    assert(q.take(0) =~= Seq::<Request>::empty());
                    return None;
                },
            }
        }
        assert(q.take(q.len() as int) =~= q);
        proof {
            lemma_granted_live(m0, q);
            lemma_release_restores(m0, q);
        }
        let b = Borrows { guards };
        assert(b.requests() =~= q);
        Some(b)
    }

    /// The values of the fields, in field order, under borrows that this query was granted.
    pub fn get_direct<'a, V>(&self, e: &'a Entity<V>, b: &Borrows) -> (r: Vec<&'a V>)
        requires
            e.wf(),
            b.granted_by(e.id()),
            b.requests() == self@,
            all_live(e@, self@),
        ensures
            r@.len() == self@.len(),
            forall|i: int| 0 <= i < r@.len() ==> *r@[i] == e@[#[trigger] self@[i].kind].value,
    {
        let mut out: Vec<&'a V> = Vec::new();
        let mut i: usize = 0;
        while i < b.guards.len()
            invariant
                i <= self@.len(),
                e.wf(),
                b.granted_by(e.id()),
                b.requests() == self@,
                b.guards@.len() == self@.len(),
                all_live(e@, self@),
                out@.len() == i,
                forall|t: int| 0 <= t < i ==> *out@[t] == e@[#[trigger] self@[t].kind].value,
            decreases self@.len() - i,
        {
            let g = &b.guards[i];
            assert(g.entity() == e.id());
            assert(self@[i as int].kind == g.kind() && self@[i as int].access == g.access());
            out.push(e.get(g));
            i += 1;
        }
        out
    }
}

/// Runs `q` on `e`, hands the field values to `f`, and hands every guard back before
/// returning, on every path. `None` when the query is refused; `e` ends as it began.
pub fn inspect<V, R, F: FnOnce(&Vec<&V>) -> R>(q: &Query, e: &mut Entity<V>, f: F) -> (r: Option<R>)
    requires
        old(e).wf(),
        room_for(old(e)@, q@),
        forall|vs: &Vec<&V>| #[trigger] f.requires((vs,)),
    ensures
        final(e).wf(),
        final(e).id() == old(e).id(),
        final(e)@ == old(e)@,
        r is Some <==> acquire_all(old(e)@, q@) is Some,
        r is Some ==> exists|vs: &Vec<&V>|
            vs@.len() == q@.len() && (forall|i: int|
                0 <= i < vs@.len() ==> *vs@[i] == old(e)@[#[trigger] q@[i].kind].value)
                && #[trigger] f.ensures((vs,), r->0),
{
    let ghost m0 = e@;
    match q.borrow_direct(e) {
        None => None,
        Some(b) => {
            proof {
                lemma_acquire_facts(m0, q@);
                lemma_release_restores(m0, q@);
            }
            let ghost mut wit: Vec<&V>;
            let out = {
                let vs = q.get_direct(e, &b);
                proof {
                    assert forall|i: int| 0 <= i < vs@.len() implies *vs@[i] == m0[
                        #[trigger] q@[i].kind
                    ].value by {
                        assert(claim_live(e@, q@[i].kind, q@[i].access));
                    }
                }
                let out = f(&vs);
                proof {
                    wit = vs;
                }
                out
            };
            release_direct(e, b);
            proof {
                let w = &wit;
                assert(f.ensures((w,), out));
                assert(w@.len() == q@.len());
                assert(forall|i: int|
                    0 <= i < w@.len() ==> *w@[i] == m0[#[trigger] q@[i].kind].value);
                assert(m0 == old(e)@);
                assert(w@.len() == q@.len() && (forall|i: int|
                    0 <= i < w@.len() ==> *w@[i] == old(e)@[#[trigger] q@[i].kind].value)
                    && f.ensures((w,), out));
                assert(exists|vs: &Vec<&V>|
                    vs@.len() == q@.len() && (forall|i: int|
                        0 <= i < vs@.len() ==> *vs@[i] == old(e)@[#[trigger] q@[i].kind].value)
                        && #[trigger] f.ensures((vs,), out));
            }
            let r = Some(out);
            assert(r->0 == out);
            r
        },
    }
}

/// Hands back every guard of a granted query, the last granted first.
pub fn release_direct<V>(e: &mut Entity<V>, b: Borrows)
    requires
        old(e).wf(),
        b.granted_by(old(e).id()),
        releasable(old(e)@, b.requests()),
    ensures
        final(e).wf(),
        final(e).id() == old(e).id(),
        final(e)@ == release_all(old(e)@, b.requests()),
{
    let ghost target = release_all(e@, b.requests());
    let mut guards = b.guards;
    while guards.len() > 0
        invariant
            e.wf(),
            e.id() == old(e).id(),
            (Borrows { guards }).granted_by(e.id()),
            releasable(e@, (Borrows { guards }).requests()),
            release_all(e@, (Borrows { guards }).requests()) == target,
        decreases guards@.len(),
    {
        let ghost rs = (Borrows { guards }).requests();
        let ghost before = guards@;
        let g = guards.pop().unwrap();
        assert((Borrows { guards }).requests() =~= rs.drop_last());
        assert(before[before.len() - 1].entity() == e.id());
        assert forall|t: int| 0 <= t < guards@.len() implies (#[trigger] guards@[t]).entity()
            == e.id() by {
            assert(guards@[t] == before[t]);
            assert(before[t].entity() == e.id());
        }
        e.release(g);
    }
}

} // verus!
