use cancel_context::context::{Background, CancelFunc, WithCancel};
use cancel_context::tree::{ContextError, ContextKey, ContextTree, ContextValueError};

fn root_and_child() -> (ContextTree, Background, WithCancel, CancelFunc) {
    let mut tree = ContextTree::new();
    let root = Background::new(&mut tree);
    let (a, cancel_a) = WithCancel::new(&mut tree, root.id());
    (tree, root, a, cancel_a)
}

#[test]
fn handle_cancel_resolves_done() {
    let (mut tree, _root, a, cancel_a) = root_and_child();
    assert_eq!(a.done(&tree), None);
    let woken = cancel_a.cancel(&mut tree);
    assert_eq!(woken, vec![a.id()]);
    assert_eq!(a.done(&tree), Some(Err(ContextError::Canceled)));
    assert_eq!(a.err(&tree), Some(ContextError::Canceled));
}

#[test]
fn cancel_reaches_grandchild_not_root() {
    let (mut tree, root, a, cancel_a) = root_and_child();
    let (b, _cancel_b) = WithCancel::new(&mut tree, a.id());
    let woken = cancel_a.cancel(&mut tree);
    assert_eq!(woken.len(), 2);
    assert!(woken.contains(&a.id()));
    assert!(woken.contains(&b.id()));
    assert_eq!(a.done(&tree), Some(Err(ContextError::Canceled)));
    assert_eq!(b.done(&tree), Some(Err(ContextError::Canceled)));
    assert_eq!(root.err(&tree), None);
    assert_eq!(root.done(&tree), None);
}

#[test]
fn value_not_found_before_and_after_cancel() {
    let (mut tree, _root, a, cancel_a) = root_and_child();
    let key = ContextKey::String("missing-key".to_string());
    assert!(matches!(a.value(&tree, &key), Err(ContextValueError::NotFound)));
    cancel_a.cancel(&mut tree);
    assert!(matches!(a.value(&tree, &key), Err(ContextValueError::NotFound)));
}

#[test]
fn sibling_untouched_by_cancel() {
    let (mut tree, root, a, cancel_a) = root_and_child();
    let (b, _cancel_b) = WithCancel::new(&mut tree, root.id());
    let woken = cancel_a.cancel(&mut tree);
    assert!(!woken.contains(&b.id()));
    assert_eq!(b.err(&tree), None);
    assert_eq!(b.done(&tree), None);
    assert_eq!(a.err(&tree), Some(ContextError::Canceled));
}

#[test]
fn cause_stays_after_later_operations() {
    let (mut tree, root, a, cancel_a) = root_and_child();
    cancel_a.cancel(&mut tree);
    let (b, cancel_b) = WithCancel::new(&mut tree, root.id());
    let (_c, _cancel_c) = WithCancel::new(&mut tree, a.id());
    cancel_b.cancel(&mut tree);
    assert_eq!(a.err(&tree), Some(ContextError::Canceled));
    assert_eq!(b.err(&tree), Some(ContextError::Canceled));
}

#[test]
fn cancel_twice_is_safe() {
    let (mut tree, _root, a, cancel_a) = root_and_child();
    let (b, _cancel_b) = WithCancel::new(&mut tree, a.id());
    let first = cancel_a.cancel(&mut tree);
    let second = cancel_a.cancel(&mut tree);
    assert_eq!(first, second);
    assert_eq!(a.err(&tree), Some(ContextError::Canceled));
    assert_eq!(b.err(&tree), Some(ContextError::Canceled));
}

#[test]
fn every_waiter_sees_the_cause() {
    let (mut tree, _root, a, cancel_a) = root_and_child();
    cancel_a.cancel(&mut tree);
    for _ in 0..5 {
        assert_eq!(a.done(&tree), Some(Err(ContextError::Canceled)));
    }
}

#[test]
fn ancestor_untouched_by_cancel() {
    let (mut tree, root, a, _cancel_a) = root_and_child();
    let (b, cancel_b) = WithCancel::new(&mut tree, a.id());
    let (c, _cancel_c) = WithCancel::new(&mut tree, b.id());
    let woken = cancel_b.cancel(&mut tree);
    assert_eq!(woken, vec![c.id(), b.id()]);
    assert_eq!(a.err(&tree), None);
    assert_eq!(root.err(&tree), None);
    assert_eq!(c.err(&tree), Some(ContextError::Canceled));
}

#[test]
fn value_not_found_everywhere() {
    let mut tree = ContextTree::new();
    let root = Background::new(&mut tree);
    let (a, _) = WithCancel::new(&mut tree, root.id());
    let (b, _) = WithCancel::new(&mut tree, a.id());
    let (c, _) = WithCancel::new(&mut tree, b.id());
    for key in [ContextKey::CancelContext, ContextKey::String(String::new())] {
        assert!(matches!(root.value(&key), Err(ContextValueError::NotFound)));
        assert!(matches!(a.value(&tree, &key), Err(ContextValueError::NotFound)));
        assert!(matches!(c.value(&tree, &key), Err(ContextValueError::NotFound)));
        assert_eq!(tree.value(b.id(), &key), Err(ContextValueError::NotFound));
    }
}

#[test]
fn creation_registers_child() {
    let (mut tree, root, a, cancel_a) = root_and_child();
    assert_eq!(tree.len(), 2);
    assert_eq!(root.id(), 0);
    assert_eq!(a.id(), 1);
    assert_eq!(cancel_a.id(), 1);
    assert_eq!(tree.parent(a.id()), Some(root.id()));
    assert_eq!(tree.parent(root.id()), None);
    let (b, _) = WithCancel::new(&mut tree, a.id());
    assert_eq!(b.id(), 2);
    assert_eq!(tree.parent(b.id()), Some(1));
}

#[test]
fn cancel_through_tree_with_flag() {
    let (mut tree, root, a, _cancel_a) = root_and_child();
    let woken = a.cancel(&mut tree, false, ContextError::Canceled);
    assert_eq!(woken, vec![a.id()]);
    assert_eq!(tree.err(a.id()), Some(ContextError::Canceled));
    assert_eq!(tree.done(root.id()), None);
    let second_root = Background::new(&mut tree);
    assert_eq!(second_root.err(&tree), None);
    assert_eq!(second_root.id(), 2);
}
