use geng_ecs::asset::{AssetManager, Job};
use geng_ecs::input::{Key, MouseButton};

#[test]
fn jobs_compare_by_priority() {
    let a = Job { priority: 1, id: 7 };
    let b = Job { priority: 1, id: 8 };
    let c = Job { priority: 3, id: 9 };
    assert!(a == b);
    assert!(a < c);
    assert_eq!(c.cmp(&a), std::cmp::Ordering::Greater);
    assert_eq!(a.cmp(&b), std::cmp::Ordering::Equal);
}

#[test]
fn queue_serves_highest_priority_first() {
    let mut m = AssetManager::new();
    assert_eq!(m.len(), 0);
    assert!(m.pop().is_none());
    m.push(Job { priority: 2, id: 1 });
    m.push(Job { priority: -5, id: 2 });
    m.push(Job { priority: 9, id: 3 });
    m.push(Job { priority: 4, id: 4 });
    let order: Vec<u64> = (0..4).map(|_| m.pop().unwrap().id).collect();
    assert_eq!(order, vec![3, 4, 1, 2]);
    assert!(m.pop().is_none());
}

#[test]
fn input_identifiers_compare() {
    assert_eq!(MouseButton::Left, MouseButton::Left);
    assert_ne!(MouseButton::Left, MouseButton::Right);
    assert_ne!(Key::A, Key::Unknown);
}
