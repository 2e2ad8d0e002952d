use geng_ecs::borrow_cell::{Access, BorrowCell, BorrowState};

#[test]
fn cell_shared_then_exclusive() {
    let mut c = BorrowCell::new(7, 10u32);
    assert_eq!(c.state(), BorrowState::Free);
    let a = c.try_acquire_shared().expect("shared on free");
    let b = c.try_acquire_shared().expect("shared on shared");
    assert_eq!(c.state(), BorrowState::Shared(2));
    assert!(c.try_acquire_exclusive().is_none());
    assert_eq!(*c.get(&a), 10);
    c.release(a);
    c.release(b);
    assert_eq!(c.state(), BorrowState::Free);
}

#[test]
fn cell_exclusive_write() {
    let mut c = BorrowCell::new(8, 1u32);
    let g = c.try_acquire_exclusive().expect("exclusive on free");
    assert_eq!(g.mode(), Access::Exclusive);
    assert_eq!(g.cell_id(), 8);
    assert_eq!(c.identity(), 8);
    assert!(c.try_acquire_shared().is_none());
    assert!(c.try_acquire(Access::Exclusive).is_none());
    c.set(&g, 5);
    assert_eq!(c.state(), BorrowState::Exclusive);
    c.release(g);
    assert_eq!(c.state(), BorrowState::Free);
    assert_eq!(c.into_inner(), 5);
}
