use mf_ui::backend::BackendError;
use mf_ui::events::UiEvent;
use mf_ui::executor::{ExecutorState, PlatformAdapter};
use mf_ui::float32::Fp32;
use mf_ui::layout::LayoutFrame;
use mf_ui::mutation::{ElementKind, EventKind, Mutation, PropKey, PropValue, UiNodeId};
use mf_ui::props::PropMap;

#[derive(Default)]
struct MockAdapter {
    next_handle: usize,
    events: Vec<UiEvent>,
    log: Vec<String>,
    fail_insert: bool,
}

impl PlatformAdapter for MockAdapter {
    type Handle = usize;

    fn create_view(
        &mut self,
        _kind: ElementKind,
        _text: Option<&str>,
    ) -> Result<Self::Handle, BackendError> {
        let handle = self.next_handle;
        self.next_handle += 1;
        Ok(handle)
    }

    fn attach_root(&mut self, node_id: UiNodeId, _handle: Self::Handle) -> Result<(), BackendError> {
        self.log.push(format!("attach_root {node_id}"));
        Ok(())
    }

    fn detach_root(&mut self, node_id: UiNodeId, _handle: Self::Handle) -> Result<(), BackendError> {
        self.log.push(format!("detach_root {node_id}"));
        Ok(())
    }

    fn insert_child(
        &mut self,
        _parent: Self::Handle,
        child_id: UiNodeId,
        _child: Self::Handle,
        index: usize,
    ) -> Result<(), BackendError> {
        if self.fail_insert {
            return Err(BackendError::BatchRejected("platform refused".to_string()));
        }
        self.log.push(format!("insert {child_id} at {index}"));
        Ok(())
    }

    fn remove_child(&mut self, _parent: Self::Handle, _child: Self::Handle) -> Result<(), BackendError> {
        Ok(())
    }

    fn remove_view(
        &mut self,
        node_id: UiNodeId,
        _handle: Self::Handle,
        _listeners: &[EventKind],
    ) -> Result<(), BackendError> {
        self.log.push(format!("remove_view {node_id}"));
        Ok(())
    }

    fn set_text(&mut self, _kind: ElementKind, _handle: Self::Handle, _text: &str) -> Result<(), BackendError> {
        Ok(())
    }

    fn set_prop(
        &mut self,
        _kind: ElementKind,
        _handle: Self::Handle,
        _props: &PropMap,
        _key: PropKey,
    ) -> Result<(), BackendError> {
        Ok(())
    }

    fn unset_prop(
        &mut self,
        _kind: ElementKind,
        _handle: Self::Handle,
        _props: &PropMap,
        _key: PropKey,
    ) -> Result<(), BackendError> {
        Ok(())
    }

    fn attach_listener(
        &mut self,
        _kind: ElementKind,
        _handle: Self::Handle,
        node_id: UiNodeId,
        event: EventKind,
    ) -> Result<(), BackendError> {
        if event == EventKind::Tap {
            self.events.push(UiEvent::Tap { id: node_id });
        }
        Ok(())
    }

    fn apply_frame(&mut self, _handle: Self::Handle, frame: LayoutFrame) -> Result<(), BackendError> {
        self.log.push(format!("frame {}", frame.id));
        Ok(())
    }

    fn flush(&mut self) -> Result<(), BackendError> {
        self.log.push("flush".to_string());
        Ok(())
    }

    fn drain_events(&mut self) -> Vec<UiEvent> {
        std::mem::take(&mut self.events)
    }
}

fn f(x: f32) -> Fp32 {
    Fp32::from_bits(x.to_bits())
}

fn frame(id: UiNodeId, width: f32) -> LayoutFrame {
    LayoutFrame { id, x: f(0.0), y: f(0.0), width: f(width), height: f(10.0) }
}

fn rejection(result: Result<(), BackendError>) -> String {
    match result {
        Err(BackendError::BatchRejected(text)) => text,
        Ok(()) => panic!("the batch was accepted"),
    }
}

#[test]
fn insert_move_and_replace_preserve_tree_invariants() {
    let mut state = ExecutorState::default();
    let mut adapter = MockAdapter::default();

    state
        .apply_mutations(
            &mut adapter,
            &[
                Mutation::CreateNode { id: 1, kind: ElementKind::Stack },
                Mutation::CreateNode { id: 2, kind: ElementKind::Stack },
                Mutation::CreateTextNode { id: 3, text: "hello".to_string() },
                Mutation::InsertChild { parent: 1, child: 2, index: 0 },
                Mutation::InsertChild { parent: 2, child: 3, index: 0 },
                Mutation::MoveNode { id: 3, new_parent: 1, index: 1 },
                Mutation::ReplaceNode { old: 2, new_id: 4, kind: ElementKind::Image },
            ],
        )
        .unwrap();

    assert_eq!(state.node(1).unwrap().children, vec![4, 3]);
    assert_eq!(state.node(3).unwrap().parent, Some(1));
    assert_eq!(state.node(4).unwrap().parent, Some(1));
    assert!(state.node(2).is_none());
}

#[test]
fn invalid_parent_and_root_removal_are_rejected() {
    let mut state = ExecutorState::default();
    let mut adapter = MockAdapter::default();

    state
        .apply_mutations(
            &mut adapter,
            &[
                Mutation::CreateNode { id: 1, kind: ElementKind::Stack },
                Mutation::CreateTextNode { id: 2, text: "hello".to_string() },
            ],
        )
        .unwrap();

    let insert_result = state.apply_mutations(
        &mut adapter,
        &[Mutation::InsertChild { parent: 2, child: 1, index: 0 }],
    );
    assert!(matches!(insert_result, Err(BackendError::BatchRejected(_))));

    let remove_result = state.apply_mutations(&mut adapter, &[Mutation::RemoveNode { id: 1 }]);
    assert!(matches!(remove_result, Err(BackendError::BatchRejected(_))));
}

#[test]
fn set_text_rejects_non_text_nodes() {
    let mut state = ExecutorState::default();
    let mut adapter = MockAdapter::default();

    state
        .apply_mutations(&mut adapter, &[Mutation::CreateNode { id: 1, kind: ElementKind::Image }])
        .unwrap();

    let result = state.apply_mutations(
        &mut adapter,
        &[Mutation::SetText { id: 1, text: "oops".to_string() }],
    );

    assert!(matches!(result, Err(BackendError::BatchRejected(_))));
}

#[test]
fn layout_requires_known_nodes_and_events_drain_through_adapter() {
    let mut state = ExecutorState::default();
    let mut adapter = MockAdapter::default();

    state
        .apply_mutations(
            &mut adapter,
            &[
                Mutation::CreateNode { id: 1, kind: ElementKind::Stack },
                Mutation::CreateNode { id: 2, kind: ElementKind::Button },
                Mutation::InsertChild { parent: 1, child: 2, index: 0 },
                Mutation::AttachEventListener { id: 2, event: EventKind::Tap },
            ],
        )
        .unwrap();

    state
        .apply_layout(&[LayoutFrame { id: 2, x: f(0.0), y: f(0.0), width: f(100.0), height: f(40.0) }])
        .unwrap();
    state.flush(&mut adapter).unwrap();

    assert_eq!(state.drain_events(&mut adapter), vec![UiEvent::Tap { id: 2 }]);

    let layout_result = state.apply_layout(&[LayoutFrame {
        id: 99,
        x: f(0.0),
        y: f(0.0),
        width: f(10.0),
        height: f(10.0),
    }]);
    assert!(matches!(layout_result, Err(BackendError::BatchRejected(_))));
}

#[test]
fn rejections_name_the_offending_nodes() {
    let mut state = ExecutorState::default();
    let mut adapter = MockAdapter::default();
    state
        .apply_mutations(
            &mut adapter,
            &[
                Mutation::CreateNode { id: 1, kind: ElementKind::Stack },
                Mutation::CreateNode { id: 2, kind: ElementKind::Stack },
                Mutation::CreateNode { id: 3, kind: ElementKind::Stack },
                Mutation::CreateNode { id: 5, kind: ElementKind::Image },
                Mutation::InsertChild { parent: 1, child: 3, index: 0 },
            ],
        )
        .unwrap();

    let cases: Vec<(Mutation, &str)> = vec![
        (Mutation::CreateNode { id: 2, kind: ElementKind::Text }, "duplicate node id 2"),
        (Mutation::SetText { id: 42, text: "x".to_string() }, "unknown node id 42"),
        (Mutation::SetText { id: 5, text: "x".to_string() }, "set_text is unsupported for Image"),
        (Mutation::InsertChild { parent: 7, child: 2, index: 0 }, "unknown parent node id 7"),
        (Mutation::InsertChild { parent: 2, child: 8, index: 0 }, "unknown child node id 8"),
        (Mutation::InsertChild { parent: 2, child: 2, index: 0 }, "node cannot be its own parent"),
        (Mutation::InsertChild { parent: 2, child: 1, index: 0 }, "root node cannot become a child"),
        (Mutation::InsertChild { parent: 5, child: 2, index: 0 }, "Image cannot accept children"),
        (Mutation::InsertChild { parent: 2, child: 3, index: 0 }, "node 3 already has a parent"),
        (Mutation::MoveNode { id: 1, new_parent: 2, index: 0 }, "root node cannot be moved"),
        (Mutation::MoveNode { id: 9, new_parent: 2, index: 0 }, "unknown node id 9"),
        (Mutation::MoveNode { id: 2, new_parent: 3, index: 0 }, "node 2 has no parent"),
        (Mutation::MoveNode { id: 3, new_parent: 6, index: 0 }, "unknown parent node id 6"),
        (Mutation::MoveNode { id: 3, new_parent: 5, index: 0 }, "Image cannot accept children"),
        (Mutation::MoveNode { id: 3, new_parent: 3, index: 0 }, "moving node 3 under 3 would create a cycle"),
        (Mutation::ReplaceNode { old: 3, new_id: 2, kind: ElementKind::Text }, "duplicate node id 2"),
        (Mutation::ReplaceNode { old: 9, new_id: 10, kind: ElementKind::Text }, "unknown node id 9"),
        (Mutation::RemoveNode { id: 1 }, "root node cannot be removed without replacement"),
        (Mutation::RemoveNode { id: 9 }, "unknown node id 9"),
        (Mutation::AttachEventListener { id: 9, event: EventKind::Tap }, "unknown node id 9"),
        (Mutation::UnsetProp { id: 9, key: PropKey::Color }, "unknown node id 9"),
    ];
    for (mutation, expected) in cases {
        assert_eq!(rejection(state.apply_mutations(&mut adapter, &[mutation])), expected);
    }
    assert_eq!(state.node(1).unwrap().children, vec![3]);
}

#[test]
fn inserting_an_ancestor_below_its_descendant_is_a_cycle() {
    let mut state = ExecutorState::default();
    let mut adapter = MockAdapter::default();
    state
        .apply_mutations(
            &mut adapter,
            &[
                Mutation::CreateNode { id: 1, kind: ElementKind::Stack },
                Mutation::CreateNode { id: 2, kind: ElementKind::Stack },
                Mutation::CreateNode { id: 3, kind: ElementKind::Stack },
                Mutation::InsertChild { parent: 2, child: 3, index: 0 },
            ],
        )
        .unwrap();
    let result = state.apply_mutations(&mut adapter, &[Mutation::InsertChild { parent: 3, child: 2, index: 0 }]);
    assert_eq!(rejection(result), "inserting node 2 under 3 would create a cycle");
    state
        .apply_mutations(&mut adapter, &[Mutation::InsertChild { parent: 1, child: 2, index: 0 }])
        .unwrap();
    let result = state.apply_mutations(&mut adapter, &[Mutation::MoveNode { id: 2, new_parent: 3, index: 0 }]);
    assert_eq!(rejection(result), "moving node 2 under 3 would create a cycle");
}

#[test]
fn removal_takes_the_whole_subtree_children_first() {
    let mut state = ExecutorState::default();
    let mut adapter = MockAdapter::default();
    state
        .apply_mutations(
            &mut adapter,
            &[
                Mutation::CreateNode { id: 1, kind: ElementKind::Stack },
                Mutation::CreateNode { id: 2, kind: ElementKind::Stack },
                Mutation::CreateTextNode { id: 3, text: "a".to_string() },
                Mutation::CreateTextNode { id: 4, text: "b".to_string() },
                Mutation::InsertChild { parent: 1, child: 2, index: 0 },
                Mutation::InsertChild { parent: 2, child: 3, index: 0 },
                Mutation::InsertChild { parent: 2, child: 4, index: 5 },
            ],
        )
        .unwrap();
    assert_eq!(state.node(2).unwrap().children, vec![3, 4]);
    state.apply_layout(&[frame(3, 5.0)]).unwrap();
    adapter.log.clear();
    state.apply_mutations(&mut adapter, &[Mutation::RemoveNode { id: 2 }]).unwrap();
    assert!(state.node(2).is_none());
    assert!(state.node(3).is_none());
    assert!(state.node(4).is_none());
    assert!(state.node(1).unwrap().children.is_empty());
    assert_eq!(adapter.log, vec!["remove_view 3", "remove_view 4", "remove_view 2"]);
    adapter.log.clear();
    state.flush(&mut adapter).unwrap();
    assert_eq!(adapter.log, vec!["flush"]);
}

#[test]
fn replacing_the_root_makes_a_new_root() {
    let mut state = ExecutorState::default();
    let mut adapter = MockAdapter::default();
    state
        .apply_mutations(
            &mut adapter,
            &[
                Mutation::CreateNode { id: 1, kind: ElementKind::Stack },
                Mutation::CreateTextNode { id: 2, text: "a".to_string() },
                Mutation::InsertChild { parent: 1, child: 2, index: 0 },
                Mutation::ReplaceNode { old: 1, new_id: 7, kind: ElementKind::List },
            ],
        )
        .unwrap();
    assert!(state.node(1).is_none());
    assert!(state.node(2).is_none());
    let root = state.node(7).unwrap();
    assert_eq!(root.kind, ElementKind::List);
    assert_eq!(root.parent, None);
    assert!(root.children.is_empty());
    assert!(adapter.log.contains(&"detach_root 1".to_string()));
    assert!(adapter.log.contains(&"attach_root 7".to_string()));
    let result = state.apply_mutations(&mut adapter, &[Mutation::RemoveNode { id: 7 }]);
    assert_eq!(rejection(result), "root node cannot be removed without replacement");
}

#[test]
fn properties_keep_their_order_and_listeners_attach_once() {
    let mut state = ExecutorState::default();
    let mut adapter = MockAdapter::default();
    state
        .apply_mutations(
            &mut adapter,
            &[
                Mutation::CreateNode { id: 1, kind: ElementKind::Button },
                Mutation::SetText { id: 1, text: "Tap".to_string() },
                Mutation::SetProp { id: 1, key: PropKey::Enabled, value: PropValue::Bool(false) },
                Mutation::SetProp { id: 1, key: PropKey::Opacity, value: PropValue::Float(f(0.5)) },
                Mutation::SetProp { id: 1, key: PropKey::Enabled, value: PropValue::Bool(true) },
                Mutation::AttachEventListener { id: 1, event: EventKind::Tap },
                Mutation::AttachEventListener { id: 1, event: EventKind::Tap },
                Mutation::AttachEventListener { id: 1, event: EventKind::Appear },
                Mutation::UnsetProp { id: 1, key: PropKey::Opacity },
            ],
        )
        .unwrap();
    let rec = state.node(1).unwrap();
    assert_eq!(rec.text.as_deref(), Some("Tap"));
    assert_eq!(rec.listeners, vec![EventKind::Tap, EventKind::Appear]);
    assert_eq!(rec.props.len(), 1);
    assert_eq!(rec.props.get(PropKey::Enabled), Some(&PropValue::Bool(true)));
    assert_eq!(rec.props.get(PropKey::Opacity), None);
}

#[test]
fn a_batch_stops_at_the_first_rejected_mutation() {
    let mut state = ExecutorState::default();
    let mut adapter = MockAdapter::default();
    let result = state.apply_mutations(
        &mut adapter,
        &[
            Mutation::CreateNode { id: 1, kind: ElementKind::Stack },
            Mutation::CreateNode { id: 1, kind: ElementKind::Stack },
            Mutation::CreateNode { id: 2, kind: ElementKind::Stack },
        ],
    );
    assert_eq!(rejection(result), "duplicate node id 1");
    assert!(state.node(1).is_some());
    assert!(state.node(2).is_none());
}

#[test]
fn layout_checks_frames_in_order() {
    let mut state = ExecutorState::default();
    let mut adapter = MockAdapter::default();
    state
        .apply_mutations(&mut adapter, &[Mutation::CreateNode { id: 1, kind: ElementKind::Stack }])
        .unwrap();
    let result = state.apply_layout(&[frame(1, 4.0), frame(1, -4.0), frame(9, 1.0)]);
    assert_eq!(rejection(result), "invalid layout frame: NegativeSize");
    let result = state.apply_layout(&[LayoutFrame { id: 1, x: f(f32::INFINITY), y: f(0.0), width: f(1.0), height: f(1.0) }]);
    assert_eq!(rejection(result), "invalid layout frame: NonFinitePosition");
    let result = state.apply_layout(&[frame(12, 1.0)]);
    assert_eq!(rejection(result), "layout references unknown node id 12");
    state.flush(&mut adapter).unwrap();
    assert_eq!(adapter.log, vec!["attach_root 1", "frame 1", "flush"]);
    adapter.log.clear();
    state.flush(&mut adapter).unwrap();
    assert_eq!(adapter.log, vec!["flush"]);
}

#[test]
fn a_refused_move_leaves_the_node_where_it_was_linked() {
    let mut state = ExecutorState::default();
    let mut adapter = MockAdapter::default();
    state
        .apply_mutations(
            &mut adapter,
            &[
                Mutation::CreateNode { id: 1, kind: ElementKind::Stack },
                Mutation::CreateNode { id: 2, kind: ElementKind::Stack },
                Mutation::CreateNode { id: 3, kind: ElementKind::Stack },
                Mutation::InsertChild { parent: 1, child: 2, index: 0 },
                Mutation::InsertChild { parent: 1, child: 3, index: 1 },
            ],
        )
        .unwrap();
    adapter.fail_insert = true;
    let result = state.apply_mutations(&mut adapter, &[Mutation::MoveNode { id: 3, new_parent: 2, index: 0 }]);
    assert_eq!(rejection(result), "platform refused");
    assert_eq!(state.node(3).unwrap().parent, Some(1));
    assert_eq!(state.node(1).unwrap().children, vec![2]);
    assert!(state.node(2).unwrap().children.is_empty());
}

#[test]
fn moving_within_the_same_parent_reorders() {
    let mut state = ExecutorState::default();
    let mut adapter = MockAdapter::default();
    state
        .apply_mutations(
            &mut adapter,
            &[
                Mutation::CreateNode { id: 1, kind: ElementKind::Stack },
                Mutation::CreateNode { id: 2, kind: ElementKind::Stack },
                Mutation::CreateNode { id: 3, kind: ElementKind::Stack },
                Mutation::CreateNode { id: 4, kind: ElementKind::Stack },
                Mutation::InsertChild { parent: 1, child: 2, index: 0 },
                Mutation::InsertChild { parent: 1, child: 3, index: 1 },
                Mutation::InsertChild { parent: 1, child: 4, index: 2 },
                Mutation::MoveNode { id: 2, new_parent: 1, index: 9 },
            ],
        )
        .unwrap();
    assert_eq!(state.node(1).unwrap().children, vec![3, 4, 2]);
}

#[test]
fn removing_a_subtree_removes_each_view_children_first() {
    let mut state = ExecutorState::default();
    let mut adapter = MockAdapter::default();
    state
        .apply_mutations(
            &mut adapter,
            &[
                Mutation::CreateNode { id: 1, kind: ElementKind::Stack },
                Mutation::CreateNode { id: 2, kind: ElementKind::Stack },
                Mutation::CreateNode { id: 3, kind: ElementKind::Stack },
                Mutation::InsertChild { parent: 1, child: 2, index: 0 },
                Mutation::InsertChild { parent: 2, child: 3, index: 0 },
            ],
        )
        .unwrap();
    adapter.log.clear();
    assert_eq!(state.apply_mutations(&mut adapter, &[Mutation::RemoveNode { id: 2 }]), Ok(()));
    assert_eq!(adapter.log, vec!["remove_view 3".to_string(), "remove_view 2".to_string()]);
    assert!(state.node(2).is_none());
    assert!(state.node(3).is_none());
}

#[test]
fn a_refused_insert_returns_the_adapter_error_and_keeps_the_state() {
    let mut state = ExecutorState::default();
    let mut adapter = MockAdapter::default();
    state
        .apply_mutations(
            &mut adapter,
            &[
                Mutation::CreateNode { id: 1, kind: ElementKind::Stack },
                Mutation::CreateNode { id: 2, kind: ElementKind::Stack },
            ],
        )
        .unwrap();
    adapter.fail_insert = true;
    assert_eq!(
        state.apply_mutations(&mut adapter, &[Mutation::InsertChild { parent: 1, child: 2, index: 0 }]),
        Err(BackendError::BatchRejected("platform refused".to_string()))
    );
    assert!(state.node(1).unwrap().children.is_empty());
    assert_eq!(state.node(2).unwrap().parent, None);
}
