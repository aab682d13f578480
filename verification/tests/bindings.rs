use mf_ui::bindings::{BindingStore, ControlBinding};
use mf_ui::events::UiEvent;
use mf_ui::mutation::EventKind;

#[test]
fn first_wiring_reports_fresh_and_second_does_not() {
    let mut store = BindingStore::new();
    assert_eq!(store.binding(3), None);
    assert!(store.update_binding(3, 11, EventKind::Tap));
    assert!(!store.update_binding(3, 11, EventKind::Tap));
    assert!(store.update_binding(3, 11, EventKind::FocusChanged));
    assert_eq!(
        store.binding(3),
        Some(ControlBinding {
            node_id: 11,
            tap: true,
            text_input: false,
            focus_changed: true,
            appear: false,
            disappear: false,
        })
    );
}

#[test]
fn rebinding_a_handle_keeps_its_flags_and_takes_the_new_node() {
    let mut store = BindingStore::new();
    store.update_binding(4, 1, EventKind::Appear);
    assert!(!store.update_binding(4, 2, EventKind::Appear));
    let b = store.binding(4).unwrap();
    assert_eq!(b.node_id, 2);
    assert!(b.appear);
}

#[test]
fn unregistering_forgets_the_control() {
    let mut store = BindingStore::new();
    store.update_binding(4, 1, EventKind::Disappear);
    store.unregister_binding(4);
    assert_eq!(store.binding(4), None);
    assert!(store.update_binding(4, 1, EventKind::Disappear));
}

#[test]
fn appear_is_queued_only_for_the_wired_node() {
    let mut store = BindingStore::new();
    store.update_binding(5, 7, EventKind::Appear);
    store.emit_appear_if_needed(8, 5);
    store.emit_appear_if_needed(7, 6);
    store.emit_appear_if_needed(7, 5);
    store.queue_event(UiEvent::Tap { id: 9 });
    assert_eq!(store.take_events(), vec![UiEvent::Appear { id: 7 }, UiEvent::Tap { id: 9 }]);
    assert_eq!(store.take_events(), Vec::<UiEvent>::new());
}
