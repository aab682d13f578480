use mf_ui::android::{ensure_ui_thread, font_of, lists_event, AndroidAdapter, AndroidBackend, AndroidBridge};
use mf_ui::backend::{Backend, BackendError};
use mf_ui::events::UiEvent;
use mf_ui::executor::PlatformAdapter;
use mf_ui::float32::Fp32;
use mf_ui::layout::{EdgeInsets, LayoutFrame};
use mf_ui::mutation::{ColorValue, ElementKind, EventKind, FontWeight, Mutation, PropKey, PropValue, UiNodeId};
use mf_ui::props::PropMap;

fn f(x: f32) -> Fp32 {
    Fp32::from_bits(x.to_bits())
}

fn color(r: f32, g: f32, b: f32, a: f32) -> ColorValue {
    ColorValue::new(f(r), f(g), f(b), f(a))
}

#[derive(Debug, Clone, PartialEq)]
enum Op {
    BindTap(usize, UiNodeId),
    BindTextInput(usize, UiNodeId),
    SetColor(ElementKind, usize, ColorValue),
    SetBackgroundColor(usize, ColorValue),
    SetFont(ElementKind, usize, Fp32, FontWeight),
    SetCornerRadius(usize, Fp32),
    SetEnabled(usize, bool),
    SetSource(usize, String),
}

struct MockBridge {
    ops: Vec<Op>,
    ui_thread: bool,
    pending: Vec<UiEvent>,
    next_handle: usize,
}

impl Default for MockBridge {
    fn default() -> Self {
        MockBridge { ops: Vec::new(), ui_thread: true, pending: Vec::new(), next_handle: 1 }
    }
}

impl AndroidBridge for MockBridge {
    fn is_ui_thread(&self) -> bool {
        self.ui_thread
    }

    fn create_view(&mut self, _kind: ElementKind, _text: Option<&str>) -> Result<usize, BackendError> {
        let handle = self.next_handle;
        self.next_handle += 1;
        Ok(handle)
    }

    fn attach_root(&mut self, _node_id: UiNodeId, _handle: usize) -> Result<(), BackendError> {
        Ok(())
    }

    fn detach_root(&mut self, _node_id: UiNodeId, _handle: usize) -> Result<(), BackendError> {
        Ok(())
    }

    fn insert_child(
        &mut self,
        _parent: usize,
        _child_id: UiNodeId,
        _child: usize,
        _index: usize,
    ) -> Result<(), BackendError> {
        Ok(())
    }

    fn remove_child(&mut self, _parent: usize, _child: usize) -> Result<(), BackendError> {
        Ok(())
    }

    fn remove_view(
        &mut self,
        _node_id: UiNodeId,
        _handle: usize,
        _listeners: &[EventKind],
    ) -> Result<(), BackendError> {
        Ok(())
    }

    fn set_text(&mut self, _kind: ElementKind, _handle: usize, _text: &str) -> Result<(), BackendError> {
        Ok(())
    }

    fn set_color(&mut self, kind: ElementKind, handle: usize, color: ColorValue) -> Result<(), BackendError> {
        self.ops.push(Op::SetColor(kind, handle, color));
        Ok(())
    }

    fn set_background_color(&mut self, handle: usize, color: ColorValue) -> Result<(), BackendError> {
        self.ops.push(Op::SetBackgroundColor(handle, color));
        Ok(())
    }

    fn set_font(
        &mut self,
        kind: ElementKind,
        handle: usize,
        size: Fp32,
        weight: FontWeight,
    ) -> Result<(), BackendError> {
        self.ops.push(Op::SetFont(kind, handle, size, weight));
        Ok(())
    }

    fn set_corner_radius(&mut self, handle: usize, radius: Fp32) -> Result<(), BackendError> {
        self.ops.push(Op::SetCornerRadius(handle, radius));
        Ok(())
    }

    fn set_enabled(&mut self, handle: usize, enabled: bool) -> Result<(), BackendError> {
        self.ops.push(Op::SetEnabled(handle, enabled));
        Ok(())
    }

    fn set_source(&mut self, handle: usize, source: &str) -> Result<(), BackendError> {
        self.ops.push(Op::SetSource(handle, source.to_string()));
        Ok(())
    }

    fn bind_tap(&mut self, handle: usize, node_id: UiNodeId) -> Result<(), BackendError> {
        self.ops.push(Op::BindTap(handle, node_id));
        Ok(())
    }

    fn bind_text_input(&mut self, handle: usize, node_id: UiNodeId) -> Result<(), BackendError> {
        self.ops.push(Op::BindTextInput(handle, node_id));
        Ok(())
    }

    fn apply_frame(&mut self, _handle: usize, _frame: LayoutFrame) -> Result<(), BackendError> {
        Ok(())
    }

    fn flush(&mut self) -> Result<(), BackendError> {
        Ok(())
    }

    fn drain_events(&mut self) -> Vec<UiEvent> {
        std::mem::take(&mut self.pending)
    }
}

#[test]
fn visual_props_forward_to_bridge_and_layout_props_are_ignored() {
    let mut adapter = AndroidAdapter::new(MockBridge::default());
    let mut props = PropMap::new();
    props.insert(PropKey::Color, PropValue::Color(color(1.0, 0.5, 0.0, 1.0)));
    props.insert(PropKey::BackgroundColor, PropValue::Color(color(0.1, 0.2, 0.3, 0.8)));
    props.insert(PropKey::FontSize, PropValue::Float(f(18.0)));
    props.insert(PropKey::FontWeight, PropValue::FontWeight(FontWeight::Bold));
    props.insert(PropKey::CornerRadius, PropValue::Float(f(12.0)));
    props.insert(PropKey::Enabled, PropValue::Bool(false));
    props.insert(PropKey::Source, PropValue::String("cover.png".to_string()));
    props.insert(PropKey::Padding, PropValue::Insets(EdgeInsets::all(f(8.0))));

    adapter.set_prop(ElementKind::Button, 7, &props, PropKey::Color).unwrap();
    adapter.set_prop(ElementKind::Button, 7, &props, PropKey::BackgroundColor).unwrap();
    adapter.set_prop(ElementKind::Button, 7, &props, PropKey::FontSize).unwrap();
    adapter.set_prop(ElementKind::Button, 7, &props, PropKey::CornerRadius).unwrap();
    adapter.set_prop(ElementKind::Button, 7, &props, PropKey::Enabled).unwrap();
    adapter.set_prop(ElementKind::Image, 7, &props, PropKey::Source).unwrap();
    adapter.set_prop(ElementKind::Stack, 7, &props, PropKey::Padding).unwrap();

    assert_eq!(
        adapter.bridge.ops,
        vec![
            Op::SetColor(ElementKind::Button, 7, color(1.0, 0.5, 0.0, 1.0)),
            Op::SetBackgroundColor(7, color(0.1, 0.2, 0.3, 0.8)),
            Op::SetFont(ElementKind::Button, 7, f(18.0), FontWeight::Bold),
            Op::SetCornerRadius(7, f(12.0)),
            Op::SetEnabled(7, false),
            Op::SetSource(7, "cover.png".to_string()),
        ]
    );
}

#[test]
fn tap_and_text_input_listeners_bind_once() {
    let mut adapter = AndroidAdapter::new(MockBridge::default());

    adapter.attach_listener(ElementKind::Button, 3, 11, EventKind::Tap).unwrap();
    adapter.attach_listener(ElementKind::Button, 3, 11, EventKind::Tap).unwrap();
    adapter.attach_listener(ElementKind::Input, 4, 12, EventKind::TextInput).unwrap();
    adapter.attach_listener(ElementKind::Input, 4, 12, EventKind::TextInput).unwrap();

    assert_eq!(adapter.bridge.ops, vec![Op::BindTap(3, 11), Op::BindTextInput(4, 12)]);
}

#[test]
fn appear_and_disappear_are_queued_from_binding_state() {
    let mut adapter = AndroidAdapter::new(MockBridge::default());

    adapter.attach_listener(ElementKind::Button, 9, 21, EventKind::Appear).unwrap();
    adapter.attach_root(21, 9).unwrap();
    adapter.remove_view(21, 9, &[EventKind::Disappear]).unwrap();

    assert_eq!(
        adapter.drain_events(),
        vec![UiEvent::Appear { id: 21 }, UiEvent::Disappear { id: 21 }]
    );
}

#[test]
fn tap_on_a_non_button_and_scroll_are_not_wired() {
    let mut adapter = AndroidAdapter::new(MockBridge::default());
    adapter.attach_listener(ElementKind::Text, 3, 11, EventKind::Tap).unwrap();
    adapter.attach_listener(ElementKind::Button, 3, 11, EventKind::TextInput).unwrap();
    adapter.attach_listener(ElementKind::Stack, 3, 11, EventKind::Scroll).unwrap();
    assert!(adapter.bridge.ops.is_empty());
}

#[test]
fn rewiring_a_handle_for_another_node_binds_tap_again_after_removal() {
    let mut adapter = AndroidAdapter::new(MockBridge::default());
    adapter.attach_listener(ElementKind::Button, 3, 11, EventKind::Tap).unwrap();
    adapter.remove_view(11, 3, &[EventKind::Tap]).unwrap();
    adapter.attach_listener(ElementKind::Button, 3, 12, EventKind::Tap).unwrap();
    assert_eq!(adapter.bridge.ops, vec![Op::BindTap(3, 11), Op::BindTap(3, 12)]);
}

#[test]
fn appear_is_not_queued_for_another_node_or_without_listener() {
    let mut adapter = AndroidAdapter::new(MockBridge::default());
    adapter.attach_listener(ElementKind::Button, 9, 21, EventKind::Appear).unwrap();
    adapter.attach_root(22, 9).unwrap();
    adapter.insert_child(1, 30, 10, 0).unwrap();
    adapter.remove_view(30, 10, &[EventKind::Tap]).unwrap();
    assert_eq!(adapter.drain_events(), Vec::<UiEvent>::new());
}

#[test]
fn insert_child_queues_appear_for_a_wired_child() {
    let mut adapter = AndroidAdapter::new(MockBridge::default());
    adapter.attach_listener(ElementKind::Text, 5, 40, EventKind::Appear).unwrap();
    adapter.insert_child(1, 40, 5, 0).unwrap();
    assert_eq!(adapter.drain_events(), vec![UiEvent::Appear { id: 40 }]);
}

#[test]
fn drained_events_put_the_adapter_queue_before_the_bridge_events() {
    let mut bridge = MockBridge::default();
    bridge.pending.push(UiEvent::Tap { id: 3 });
    let mut adapter = AndroidAdapter::new(bridge);
    adapter.remove_view(8, 2, &[EventKind::Disappear]).unwrap();
    assert_eq!(
        adapter.drain_events(),
        vec![UiEvent::Disappear { id: 8 }, UiEvent::Tap { id: 3 }]
    );
    assert_eq!(adapter.drain_events(), Vec::<UiEvent>::new());
}

#[test]
fn invalid_visual_props_are_ignored() {
    let mut adapter = AndroidAdapter::new(MockBridge::default());
    let mut props = PropMap::new();
    props.insert(PropKey::Color, PropValue::Float(f(1.0)));
    props.insert(PropKey::FontSize, PropValue::Bool(true));
    props.insert(PropKey::Enabled, PropValue::Float(f(1.0)));
    adapter.set_prop(ElementKind::Button, 7, &props, PropKey::Color).unwrap();
    adapter.set_prop(ElementKind::Button, 7, &props, PropKey::FontWeight).unwrap();
    adapter.set_prop(ElementKind::Button, 7, &props, PropKey::Enabled).unwrap();
    adapter.set_prop(ElementKind::Button, 7, &props, PropKey::CornerRadius).unwrap();
    adapter.unset_prop(ElementKind::Button, 7, &props, PropKey::Color).unwrap();
    assert!(adapter.bridge.ops.is_empty());
}

#[test]
fn font_defaults_to_fourteen_points_and_regular_weight() {
    let mut props = PropMap::new();
    assert_eq!(font_of(&props), Some((f(14.0), FontWeight::Regular)));
    props.insert(PropKey::FontWeight, PropValue::FontWeight(FontWeight::SemiBold));
    assert_eq!(font_of(&props), Some((f(14.0), FontWeight::SemiBold)));
    props.insert(PropKey::FontSize, PropValue::Float(f(20.0)));
    assert_eq!(font_of(&props), Some((f(20.0), FontWeight::SemiBold)));
    props.insert(PropKey::FontWeight, PropValue::Bool(true));
    assert_eq!(font_of(&props), None);

    let mut adapter = AndroidAdapter::new(MockBridge::default());
    let empty = PropMap::new();
    adapter.set_prop(ElementKind::Text, 2, &empty, PropKey::FontSize).unwrap();
    assert_eq!(adapter.bridge.ops, vec![Op::SetFont(ElementKind::Text, 2, f(14.0), FontWeight::Regular)]);
}

#[test]
fn lists_event_finds_listed_kinds() {
    assert!(lists_event(&[EventKind::Tap, EventKind::Disappear], EventKind::Disappear));
    assert!(!lists_event(&[EventKind::Tap], EventKind::Disappear));
    assert!(!lists_event(&[], EventKind::Tap));
}

#[test]
fn calls_off_the_ui_thread_are_refused() {
    let mut bridge = MockBridge::default();
    bridge.ui_thread = false;
    let adapter = AndroidAdapter::new(bridge);
    assert_eq!(
        ensure_ui_thread(&adapter),
        Err(BackendError::BatchRejected("android backend requires UI thread".to_string()))
    );
    assert!(!adapter.is_ui_thread());

    let mut bridge = MockBridge::default();
    bridge.ui_thread = false;
    let mut backend = AndroidBackend::new(bridge);
    let expected = Err(BackendError::BatchRejected("android backend requires UI thread".to_string()));
    assert_eq!(backend.apply_mutations(&[]), expected.clone());
    assert_eq!(backend.apply_layout(&[]), expected.clone());
    assert_eq!(backend.flush(), expected);
}

#[test]
fn backend_applies_batches_on_the_ui_thread() {
    let mut backend = AndroidBackend::new(MockBridge::default());
    let batch = vec![
        Mutation::CreateNode { id: 1, kind: ElementKind::Stack },
        Mutation::InsertChild { parent: 0, child: 1, index: 0 },
    ];
    assert!(backend.apply_mutations(&batch[..1]).is_ok());
    assert_eq!(
        backend.apply_mutations(&batch[1..]),
        Err(BackendError::BatchRejected("unknown parent node id 0".to_string()))
    );
    assert!(backend.flush().is_ok());
    assert_eq!(backend.drain_events(), Vec::<UiEvent>::new());
}
