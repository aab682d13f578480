use mf_ui::backend::{Backend, BackendError};
use mf_ui::events::UiEvent;
use mf_ui::executor::PlatformAdapter;
use mf_ui::float32::Fp32;
use mf_ui::ios::{prop_update, view_class, ControlEvent, IosAdapter, IosBackend, IosBridge, PropUpdate, ViewClass};
use mf_ui::layout::{EdgeInsets, LayoutFrame};
use mf_ui::mutation::{ColorValue, ElementKind, EventKind, FontWeight, Mutation, PropKey, PropValue, UiNodeId};
use mf_ui::props::PropMap;

fn f(x: f32) -> Fp32 {
    Fp32::from_bits(x.to_bits())
}

#[derive(Debug, Clone, PartialEq)]
enum Op {
    Bootstrap,
    Create(ViewClass, usize),
    SetText(ElementKind, usize, String),
    AddSubview(usize, usize),
    InsertSubview(usize, usize, usize),
    RemoveFromSuperview(usize),
    Release(usize),
    Color(ElementKind, usize, ColorValue),
    VisualStyle(usize),
    Font(ElementKind, usize, Fp32, FontWeight),
    Enabled(usize, bool),
    Focus(usize, bool),
    Source(usize, String),
    ReapplyFrame(usize),
    SetFrame(usize, LayoutFrame),
    Target(usize, ControlEvent),
}

struct MockUiKit {
    ops: Vec<Op>,
    main: bool,
    next: usize,
}

impl Default for MockUiKit {
    fn default() -> Self {
        MockUiKit { ops: Vec::new(), main: true, next: 100 }
    }
}

impl IosBridge for MockUiKit {
    fn is_main_thread(&self) -> bool {
        self.main
    }
    fn bootstrap_host(&mut self) -> Result<usize, BackendError> {
        self.ops.push(Op::Bootstrap);
        Ok(1)
    }
    fn create(&mut self, class: ViewClass) -> usize {
        self.next += 1;
        self.ops.push(Op::Create(class, self.next));
        self.next
    }
    fn set_text_on_view(&mut self, kind: ElementKind, handle: usize, text: &str) -> Result<(), BackendError> {
        self.ops.push(Op::SetText(kind, handle, text.to_string()));
        Ok(())
    }
    fn add_subview(&mut self, parent: usize, child: usize) {
        self.ops.push(Op::AddSubview(parent, child));
    }
    fn insert_subview(&mut self, parent: usize, child: usize, index: usize) {
        self.ops.push(Op::InsertSubview(parent, child, index));
    }
    fn remove_from_superview(&mut self, handle: usize) {
        self.ops.push(Op::RemoveFromSuperview(handle));
    }
    fn release_object(&mut self, handle: usize) {
        self.ops.push(Op::Release(handle));
    }
    fn apply_color(&mut self, kind: ElementKind, handle: usize, color: ColorValue) -> Result<(), BackendError> {
        self.ops.push(Op::Color(kind, handle, color));
        Ok(())
    }
    fn reapply_visual_style(&mut self, handle: usize, _props: &PropMap) -> Result<(), BackendError> {
        self.ops.push(Op::VisualStyle(handle));
        Ok(())
    }
    fn apply_font(&mut self, kind: ElementKind, handle: usize, size: Fp32, weight: FontWeight) -> Result<(), BackendError> {
        self.ops.push(Op::Font(kind, handle, size, weight));
        Ok(())
    }
    fn apply_enabled(&mut self, handle: usize, enabled: bool) {
        self.ops.push(Op::Enabled(handle, enabled));
    }
    fn apply_focus(&mut self, handle: usize, focused: bool) -> Result<(), BackendError> {
        self.ops.push(Op::Focus(handle, focused));
        Ok(())
    }
    fn apply_image_source(&mut self, handle: usize, source: &str) -> Result<(), BackendError> {
        self.ops.push(Op::Source(handle, source.to_string()));
        Ok(())
    }
    fn reapply_frame(&mut self, handle: usize, _props: &PropMap) -> Result<(), BackendError> {
        self.ops.push(Op::ReapplyFrame(handle));
        Ok(())
    }
    fn set_frame(&mut self, handle: usize, frame: LayoutFrame) -> Result<(), BackendError> {
        self.ops.push(Op::SetFrame(handle, frame));
        Ok(())
    }
    fn add_target(&mut self, handle: usize, event: ControlEvent) {
        self.ops.push(Op::Target(handle, event));
    }
}

#[test]
fn elements_map_to_uikit_views() {
    assert_eq!(view_class(ElementKind::Text), ViewClass::Label);
    assert_eq!(view_class(ElementKind::Button), ViewClass::Button);
    assert_eq!(view_class(ElementKind::Image), ViewClass::ImageView);
    assert_eq!(view_class(ElementKind::Input), ViewClass::TextField);
    assert_eq!(view_class(ElementKind::Stack), ViewClass::PlainView);
    assert_eq!(view_class(ElementKind::List), ViewClass::PlainView);
}

#[test]
fn the_host_is_set_up_once_and_texts_are_set_at_creation() {
    let mut adapter = IosAdapter::new(MockUiKit::default());
    let label = adapter.create_view(ElementKind::Text, Some("hi")).unwrap();
    let stack = adapter.create_view(ElementKind::Stack, Some("ignored")).unwrap();
    adapter.attach_root(1, stack).unwrap();
    assert_eq!(
        adapter.bridge.ops,
        vec![
            Op::Bootstrap,
            Op::Create(ViewClass::Label, label),
            Op::SetText(ElementKind::Text, label, "hi".to_string()),
            Op::Create(ViewClass::PlainView, stack),
            Op::AddSubview(1, stack),
        ]
    );
}

#[test]
fn property_changes_pick_their_uikit_update() {
    let mut props = PropMap::new();
    let red = ColorValue::new(f(1.0), f(0.0), f(0.0), f(1.0));
    props.insert(PropKey::Color, PropValue::Color(red));
    props.insert(PropKey::Enabled, PropValue::Bool(false));
    props.insert(PropKey::Focused, PropValue::Bool(true));
    props.insert(PropKey::Source, PropValue::String("a.png".to_string()));
    props.insert(PropKey::Padding, PropValue::Insets(EdgeInsets::all(f(2.0))));
    assert_eq!(prop_update(ElementKind::Button, &props, PropKey::Color), PropUpdate::Color(red));
    assert_eq!(prop_update(ElementKind::Stack, &props, PropKey::Opacity), PropUpdate::VisualStyle);
    assert_eq!(prop_update(ElementKind::Text, &props, PropKey::FontSize), PropUpdate::Font(f(17.0), FontWeight::Regular));
    assert_eq!(prop_update(ElementKind::Stack, &props, PropKey::FontSize), PropUpdate::Nothing);
    assert_eq!(prop_update(ElementKind::Button, &props, PropKey::Enabled), PropUpdate::Enabled(false));
    assert_eq!(prop_update(ElementKind::Input, &props, PropKey::Focused), PropUpdate::Focus(true));
    assert_eq!(prop_update(ElementKind::Button, &props, PropKey::Focused), PropUpdate::UnsupportedFocus);
    assert_eq!(prop_update(ElementKind::Image, &props, PropKey::Source), PropUpdate::Source("a.png".to_string()));
    assert_eq!(prop_update(ElementKind::Stack, &props, PropKey::Offset), PropUpdate::Frame);
    assert_eq!(prop_update(ElementKind::Stack, &props, PropKey::Padding), PropUpdate::Nothing);
    props.insert(PropKey::Color, PropValue::Float(f(1.0)));
    assert_eq!(prop_update(ElementKind::Button, &props, PropKey::Color), PropUpdate::Nothing);
}

#[test]
fn focus_on_a_non_input_is_refused() {
    let mut adapter = IosAdapter::new(MockUiKit::default());
    let mut props = PropMap::new();
    props.insert(PropKey::Focused, PropValue::Bool(true));
    assert_eq!(
        adapter.set_prop(ElementKind::Button, 5, &props, PropKey::Focused),
        Err(BackendError::BatchRejected("Focused is unsupported for Button".to_string()))
    );
    assert_eq!(
        adapter.unset_prop(ElementKind::Text, 5, &props, PropKey::Focused),
        Err(BackendError::BatchRejected("Focused is unsupported for Text".to_string()))
    );
    adapter.set_prop(ElementKind::Input, 5, &props, PropKey::Focused).unwrap();
    assert_eq!(adapter.bridge.ops, vec![Op::Focus(5, true)]);
}

#[test]
fn listeners_wire_control_events_once() {
    let mut adapter = IosAdapter::new(MockUiKit::default());
    adapter.attach_listener(ElementKind::Button, 3, 11, EventKind::Tap).unwrap();
    adapter.attach_listener(ElementKind::Button, 3, 11, EventKind::Tap).unwrap();
    adapter.attach_listener(ElementKind::Input, 4, 12, EventKind::TextInput).unwrap();
    adapter.attach_listener(ElementKind::Input, 4, 12, EventKind::FocusChanged).unwrap();
    adapter.attach_listener(ElementKind::Input, 4, 12, EventKind::FocusChanged).unwrap();
    adapter.attach_listener(ElementKind::Text, 5, 13, EventKind::Tap).unwrap();
    adapter.attach_listener(ElementKind::Stack, 6, 14, EventKind::Scroll).unwrap();
    assert_eq!(
        adapter.bridge.ops,
        vec![
            Op::Target(3, ControlEvent::TouchUpInside),
            Op::Target(4, ControlEvent::EditingChanged),
            Op::Target(4, ControlEvent::EditingDidBegin),
            Op::Target(4, ControlEvent::EditingDidEnd),
        ]
    );
}

#[test]
fn appear_and_disappear_come_from_the_wiring() {
    let mut adapter = IosAdapter::new(MockUiKit::default());
    adapter.attach_listener(ElementKind::Text, 9, 21, EventKind::Appear).unwrap();
    adapter.insert_child(1, 21, 9, 0).unwrap();
    adapter.remove_view(21, 9, &[EventKind::Disappear]).unwrap();
    assert_eq!(adapter.drain_events(), vec![UiEvent::Appear { id: 21 }, UiEvent::Disappear { id: 21 }]);
    assert_eq!(
        adapter.bridge.ops,
        vec![Op::InsertSubview(1, 9, 0), Op::RemoveFromSuperview(9), Op::Release(9)]
    );
}

#[test]
fn ios_backend_requires_the_main_thread() {
    let mut bridge = MockUiKit::default();
    bridge.main = false;
    let mut backend = IosBackend::new(bridge);
    let refused = Err(BackendError::BatchRejected("ios backend requires main thread".to_string()));
    assert_eq!(backend.apply_mutations(&[]), refused.clone());
    assert_eq!(backend.apply_layout(&[]), refused.clone());
    assert_eq!(backend.flush(), refused);
}

#[test]
fn ios_backend_applies_a_batch_and_lays_it_out() {
    let mut backend = IosBackend::new(MockUiKit::default());
    let root: UiNodeId = 1;
    let batch = vec![
        Mutation::CreateNode { id: root, kind: ElementKind::Stack },
        Mutation::CreateTextNode { id: 2, text: "hello".to_string() },
        Mutation::InsertChild { parent: root, child: 2, index: 0 },
    ];
    assert_eq!(backend.apply_mutations(&batch), Ok(()));
    let frame = LayoutFrame { id: 2, x: f(0.0), y: f(0.0), width: f(10.0), height: f(20.0) };
    assert_eq!(backend.apply_layout(&[frame]), Ok(()));
    assert_eq!(backend.flush(), Ok(()));
    assert_eq!(backend.drain_events(), Vec::<UiEvent>::new());
}
