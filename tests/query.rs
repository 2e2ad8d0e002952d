use geng_ecs::borrow_cell::{Access, BorrowState};
use geng_ecs::entity::Entity;
use geng_ecs::query::{inspect, release_direct, Query};
use geng_ecs::world::World;

const POSITION: u64 = 1;
const VELOCITY: u64 = 2;
const HEALTH: u64 = 3;

#[derive(Clone, Copy, Debug, PartialEq)]
enum Comp {
    Position { x: i64, y: i64 },
    Velocity { dx: i64, dy: i64 },
    Health(u32),
}

fn movable() -> Query {
    Query::new().with_mut(POSITION).with(VELOCITY)
}

fn moving_entity() -> Entity<Comp> {
    let mut e = Entity::new(0);
    e.insert(POSITION, Comp::Position { x: 0, y: 0 });
    e.insert(VELOCITY, Comp::Velocity { dx: 1, dy: 0 });
    e
}

fn states(e: &Entity<Comp>) -> Vec<Option<BorrowState>> {
    vec![e.state_of(POSITION), e.state_of(VELOCITY), e.state_of(HEALTH)]
}

#[test]
fn composite_query_reads_and_writes() {
    let mut e = moving_entity();
    let q = movable();
    let b = q.borrow_direct(&mut e).expect("query should be granted");
    assert_eq!(e.state_of(POSITION), Some(BorrowState::Exclusive));
    assert_eq!(e.state_of(VELOCITY), Some(BorrowState::Shared(1)));
    {
        let values = q.get_direct(&e, &b);
        assert_eq!(values.len(), 2);
        assert_eq!(*values[0], Comp::Position { x: 0, y: 0 });
        assert_eq!(*values[1], Comp::Velocity { dx: 1, dy: 0 });
    }
    e.set(b.guard(0), Comp::Position { x: 1, y: 0 });
    release_direct(&mut e, b);
    assert_eq!(e.state_of(POSITION), Some(BorrowState::Free));
    assert_eq!(e.state_of(VELOCITY), Some(BorrowState::Free));
    let g = e.try_borrow(POSITION, Access::Shared).expect("free cell");
    assert_eq!(*e.get(&g), Comp::Position { x: 1, y: 0 });
    e.release(g);
}

#[test]
fn composite_query_fails_on_missing_component() {
    let mut e = Entity::new(1);
    e.insert(VELOCITY, Comp::Velocity { dx: 1, dy: 0 });
    let q = movable();
    assert!(q.borrow_direct(&mut e).is_none());
    assert_eq!(e.state_of(POSITION), None);
    assert_eq!(e.state_of(VELOCITY), Some(BorrowState::Free));
}

#[test]
fn second_exclusive_query_conflicts() {
    let mut e = moving_entity();
    let q = Query::new().with_mut(POSITION);
    let first = q.borrow_direct(&mut e).expect("first is granted");
    assert!(q.borrow_direct(&mut e).is_none());
    assert_eq!(e.state_of(POSITION), Some(BorrowState::Exclusive));
    release_direct(&mut e, first);
    assert!(q.borrow_direct(&mut e).is_some());
}

#[test]
fn shared_queries_coexist_and_block_exclusive() {
    let mut e = moving_entity();
    let read = Query::new().with(POSITION);
    let a = read.borrow_direct(&mut e).expect("first shared");
    let b = read.borrow_direct(&mut e).expect("second shared");
    assert_eq!(e.state_of(POSITION), Some(BorrowState::Shared(2)));
    let write = Query::new().with_mut(POSITION);
    assert!(write.borrow_direct(&mut e).is_none());
    assert_eq!(e.state_of(POSITION), Some(BorrowState::Shared(2)));
    release_direct(&mut e, b);
    assert_eq!(e.state_of(POSITION), Some(BorrowState::Shared(1)));
    release_direct(&mut e, a);
    assert_eq!(e.state_of(POSITION), Some(BorrowState::Free));
}

#[test]
fn same_type_twice_self_conflicts() {
    let mut e = moving_entity();
    let q = Query::new().with_mut(POSITION).with_mut(POSITION);
    assert!(q.borrow_direct(&mut e).is_none());
    assert_eq!(e.state_of(POSITION), Some(BorrowState::Free));
    assert!(q.borrow_direct(&mut e).is_none());
    assert_eq!(e.state_of(POSITION), Some(BorrowState::Free));
}

#[test]
fn failed_query_leaves_states_unchanged() {
    let mut e = moving_entity();
    e.insert(HEALTH, Comp::Health(5));
    let held = Query::new().with(VELOCITY).borrow_direct(&mut e).expect("shared velocity");
    let before = states(&e);
    let q = Query::new().with(POSITION).with(HEALTH).with_mut(VELOCITY);
    assert!(q.borrow_direct(&mut e).is_none());
    assert_eq!(states(&e), before);
    release_direct(&mut e, held);
}

#[test]
fn exclusive_guard_excludes_everything() {
    let mut e = moving_entity();
    let g = e.try_borrow(POSITION, Access::Exclusive).expect("free cell");
    assert!(e.try_borrow(POSITION, Access::Exclusive).is_none());
    assert!(e.try_borrow(POSITION, Access::Shared).is_none());
    assert_eq!(e.state_of(POSITION), Some(BorrowState::Exclusive));
    e.release(g);
    assert_eq!(e.state_of(POSITION), Some(BorrowState::Free));
}

#[test]
fn rerun_gives_same_outcome() {
    let mut e = moving_entity();
    let q = movable();
    let b = q.borrow_direct(&mut e).expect("granted");
    let granted = states(&e);
    release_direct(&mut e, b);
    let b = q.borrow_direct(&mut e).expect("granted again");
    assert_eq!(states(&e), granted);
    release_direct(&mut e, b);
    let missing = Query::new().with(HEALTH);
    assert!(missing.borrow_direct(&mut e).is_none());
    assert!(missing.borrow_direct(&mut e).is_none());
}

#[test]
fn release_decrements_once() {
    let mut e = moving_entity();
    let a = e.try_borrow(VELOCITY, Access::Shared).expect("shared");
    let b = e.try_borrow(VELOCITY, Access::Shared).expect("shared");
    let c = e.try_borrow(VELOCITY, Access::Shared).expect("shared");
    assert_eq!(e.state_of(VELOCITY), Some(BorrowState::Shared(3)));
    e.release(b);
    assert_eq!(e.state_of(VELOCITY), Some(BorrowState::Shared(2)));
    e.release(a);
    assert_eq!(e.state_of(VELOCITY), Some(BorrowState::Shared(1)));
    e.release(c);
    assert_eq!(e.state_of(VELOCITY), Some(BorrowState::Free));
}

#[test]
fn empty_query_always_succeeds() {
    let mut e: Entity<Comp> = Entity::new(2);
    let q = Query::new();
    let b = q.borrow_direct(&mut e).expect("empty query");
    assert_eq!(b.len(), 0);
    assert!(q.get_direct(&e, &b).is_empty());
    release_direct(&mut e, b);
}

#[test]
fn nested_query_flattens_in_order() {
    let mut e = moving_entity();
    e.insert(HEALTH, Comp::Health(7));
    let inner = Query::new().with(VELOCITY).with_mut(HEALTH);
    let q = Query::new().with(POSITION).nest(&inner);
    assert_eq!(q.len(), 3);
    let b = q.borrow_direct(&mut e).expect("granted");
    assert_eq!(b.guard(0).component(), POSITION);
    assert_eq!(b.guard(1).component(), VELOCITY);
    assert_eq!(b.guard(2).component(), HEALTH);
    assert_eq!(b.guard(2).mode(), Access::Exclusive);
    {
        let values = q.get_direct(&e, &b);
        assert_eq!(*values[2], Comp::Health(7));
    }
    release_direct(&mut e, b);
    let blocked = Query::new().with(POSITION).nest(&Query::new().with_mut(POSITION));
    assert!(blocked.borrow_direct(&mut e).is_none());
    assert_eq!(e.state_of(POSITION), Some(BorrowState::Free));
}

#[test]
fn insert_replaces_and_remove_returns() {
    let mut e = Entity::new(1);
    assert!(!e.has(HEALTH));
    assert_eq!(e.remove(HEALTH), None);
    e.insert(HEALTH, Comp::Health(1));
    e.insert(HEALTH, Comp::Health(2));
    assert!(e.has(HEALTH));
    assert_eq!(e.remove(HEALTH), Some(Comp::Health(2)));
    assert!(!e.has(HEALTH));
    assert_eq!(e.state_of(HEALTH), None);
}

#[test]
fn world_matching_lists_granted_entities() {
    let mut w = World::new();
    for _ in 0..3 {
        w.spawn();
    }
    for i in [0usize, 2] {
        w.insert(i, POSITION, Comp::Position { x: 0, y: 0 });
        w.insert(i, VELOCITY, Comp::Velocity { dx: 1, dy: 0 });
    }
    w.insert(1, VELOCITY, Comp::Velocity { dx: 2, dy: 2 });
    assert_eq!(w.len(), 3);
    let hits = w.matching(&movable());
    assert_eq!(hits, vec![0, 2]);
    assert_eq!(w.entity(0).state_of(POSITION), Some(BorrowState::Free));
    assert_eq!(w.entity(1).state_of(VELOCITY), Some(BorrowState::Free));
    assert!(w.matching(&Query::new().with(HEALTH)).is_empty());
}

#[test]
fn world_forwards_to_one_entity() {
    let mut w = World::new();
    let a = w.spawn();
    let b = w.spawn();
    assert_eq!((a, b), (0, 1));
    assert_eq!(w.entity(b).identity(), 1);
    w.insert(a, POSITION, Comp::Position { x: 3, y: 4 });
    w.insert(b, POSITION, Comp::Position { x: 5, y: 6 });
    let q = Query::new().with_mut(POSITION);
    let ba = w.borrow_direct(a, &q).expect("granted on a");
    assert_eq!(ba.guard(0).entity_id(), 0);
    assert_eq!(w.entity(a).state_of(POSITION), Some(BorrowState::Exclusive));
    assert_eq!(w.entity(b).state_of(POSITION), Some(BorrowState::Free));
    assert!(w.borrow_direct(a, &q).is_none());
    assert_eq!(*w.get_direct(a, &q, &ba)[0], Comp::Position { x: 3, y: 4 });
    w.set(a, ba.guard(0), Comp::Position { x: 9, y: 9 });
    w.release_direct(a, ba);
    assert_eq!(w.entity(a).state_of(POSITION), Some(BorrowState::Free));
    assert_eq!(w.remove(a, POSITION), Some(Comp::Position { x: 9, y: 9 }));
    assert_eq!(w.remove(b, POSITION), Some(Comp::Position { x: 5, y: 6 }));
    assert_eq!(w.remove(b, POSITION), None);
}

#[test]
fn guards_name_their_entity_and_kind() {
    let mut e = Entity::new(42);
    e.insert(HEALTH, Comp::Health(3));
    assert_eq!(e.identity(), 42);
    let g = e.try_borrow(HEALTH, Access::Exclusive).expect("free");
    assert_eq!(g.entity_id(), 42);
    assert_eq!(g.component(), HEALTH);
    e.release(g);
}

#[test]
fn inspect_releases_on_every_path() {
    let mut e = moving_entity();
    let seen = inspect(&movable(), &mut e, |vs: &Vec<&Comp>| (*vs[0], *vs[1]));
    assert_eq!(
        seen,
        Some((Comp::Position { x: 0, y: 0 }, Comp::Velocity { dx: 1, dy: 0 }))
    );
    assert_eq!(e.state_of(POSITION), Some(BorrowState::Free));
    assert_eq!(e.state_of(VELOCITY), Some(BorrowState::Free));
    let refused = inspect(&Query::new().with(HEALTH), &mut e, |vs: &Vec<&Comp>| vs.len());
    assert_eq!(refused, None);
    let twice = Query::new().with_mut(POSITION).with_mut(POSITION);
    assert_eq!(inspect(&twice, &mut e, |vs: &Vec<&Comp>| vs.len()), None);
    assert_eq!(e.state_of(POSITION), Some(BorrowState::Free));
}

#[test]
fn cell_lookup_by_kind() {
    let mut e = moving_entity();
    assert!(e.get_cell(HEALTH).is_none());
    let g = e.try_borrow(VELOCITY, Access::Shared).expect("shared");
    assert_eq!(e.get_cell(VELOCITY).map(|c| c.state()), Some(BorrowState::Shared(1)));
    e.release(g);
    assert_eq!(e.get_cell(POSITION).map(|c| c.state()), Some(BorrowState::Free));
}
