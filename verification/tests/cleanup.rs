use mf_ui::cleanup::{CleanupStack, Scope};

#[test]
fn cleanups_outside_any_scope_are_dropped() {
    let mut stack: CleanupStack<u32> = CleanupStack::new();
    assert!(!stack.is_running());
    assert!(!stack.register(1));
    assert_eq!(stack.close_frame(), Vec::<u32>::new());
}

#[test]
fn cleanups_go_to_the_innermost_scope() {
    let mut stack = CleanupStack::new();
    stack.open_frame();
    assert!(stack.register(1));
    stack.open_frame();
    assert!(stack.register(2));
    assert!(stack.register(3));
    assert_eq!(stack.close_frame(), vec![2, 3]);
    assert!(stack.register(4));
    assert_eq!(stack.close_frame(), vec![1, 4]);
    assert!(!stack.is_running());
}

#[test]
fn a_scope_hands_cleanups_back_last_first() {
    let mut scope = Scope::new();
    scope.absorb(vec![1, 2]);
    scope.absorb(vec![3]);
    assert_eq!(scope.next_cleanup(), Some(3));
    assert_eq!(scope.next_cleanup(), Some(2));
    assert_eq!(scope.next_cleanup(), Some(1));
    assert_eq!(scope.next_cleanup(), None);
}
