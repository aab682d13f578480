use mf_ui::events::UiEvent;
use mf_ui::float32::Fp32;
use mf_ui::layout::LayoutFrame;
use mf_ui::mutation::{ElementKind, EventKind, Mutation, PropKey, PropValue, ProtocolVersion};
use mf_ui::props::PropMap;
use mf_ui::backend::{Backend, BackendError};
use mf_ui::runtime::{after_send, has_work, send_batch, tick_step, RenderBatch, RenderStep, TickStep, VdomRuntime};
use mf_ui::vdom::{is_well_formed, node_count, CanonicalNode, NodeDescriptor};
use mf_ui::view::{flatten_children, is_fragment, View, WidgetElement};

fn f(x: f32) -> Fp32 {
    Fp32::from_bits(x.to_bits())
}

fn draft(descriptor: NodeDescriptor, text: Option<&str>, children: Vec<CanonicalNode>) -> CanonicalNode {
    CanonicalNode {
        id: 0,
        descriptor,
        props: PropMap::new(),
        text: text.map(|t| t.to_string()),
        tap_handler: false,
        input_handler: false,
        focus_change_handler: false,
        children,
    }
}

fn text(content: &str) -> CanonicalNode {
    draft(NodeDescriptor::Text, Some(content), Vec::new())
}

fn stack(children: Vec<CanonicalNode>) -> CanonicalNode {
    draft(NodeDescriptor::Element(ElementKind::Stack), None, children)
}

fn button(label: &str) -> CanonicalNode {
    let mut node = draft(NodeDescriptor::Element(ElementKind::Button), Some(label), Vec::new());
    node.tap_handler = true;
    node
}

fn frames(ids: &[u32], width: f32) -> Vec<LayoutFrame> {
    ids.iter()
        .map(|id| LayoutFrame { id: *id, x: f(0.0), y: f(0.0), width: f(width), height: f(10.0) })
        .collect()
}

fn render(runtime: &mut VdomRuntime, tree: CanonicalNode, width: f32) -> mf_ui::runtime::RenderBatch {
    assert!(is_well_formed(&tree));
    assert!(node_count(&tree) <= runtime.fresh_ids_left() as u64);
    let next = runtime.build_root(Some(tree)).unwrap();
    let mut ids = Vec::new();
    collect_ids(&next, &mut ids);
    runtime.render(Some(next), frames(&ids, width))
}

fn collect_ids(node: &CanonicalNode, out: &mut Vec<u32>) {
    out.push(node.id);
    for child in &node.children {
        collect_ids(child, out);
    }
}

#[test]
fn initial_mount_creates_and_inserts_with_layout() {
    let mut runtime = VdomRuntime::new();
    let batch = render(&mut runtime, stack(vec![text("Hello"), button("Tap")]), 390.0);
    assert_eq!(batch.protocol_version, ProtocolVersion::V1);
    assert_eq!(batch.mutations[0], Mutation::CreateNode { id: 1, kind: ElementKind::Stack });
    assert!(batch.mutations.contains(&Mutation::CreateTextNode { id: 2, text: "Hello".to_string() }));
    assert!(batch.mutations.contains(&Mutation::InsertChild { parent: 1, child: 3, index: 1 }));
    assert_eq!(batch.layout.len(), 3);
}

#[test]
fn text_update_emits_only_set_text_and_no_layout_when_frames_match() {
    let mut runtime = VdomRuntime::new();
    let _ = render(&mut runtime, text("Count: 0"), 390.0);
    let batch = render(&mut runtime, text("Count: 1"), 390.0);
    assert_eq!(batch.mutations, vec![Mutation::SetText { id: 1, text: "Count: 1".to_string() }]);
    assert!(batch.layout.is_empty());
}

#[test]
fn unchanged_tree_sends_nothing_until_a_full_resync() {
    let mut runtime = VdomRuntime::new();
    let _ = render(&mut runtime, stack(vec![text("a"), button("b")]), 390.0);
    let batch = render(&mut runtime, stack(vec![text("a"), button("b")]), 390.0);
    assert!(batch.mutations.is_empty());
    assert!(batch.layout.is_empty());
    runtime.request_full_resync();
    let batch = render(&mut runtime, stack(vec![text("a"), button("b")]), 390.0);
    assert_eq!(batch.mutations[0], Mutation::CreateNode { id: 4, kind: ElementKind::Stack });
    assert_eq!(batch.layout.len(), 3);
}

#[test]
fn changed_layout_is_sent_again() {
    let mut runtime = VdomRuntime::new();
    let _ = render(&mut runtime, text("a"), 390.0);
    let batch = render(&mut runtime, text("a"), 400.0);
    assert!(batch.mutations.is_empty());
    assert_eq!(batch.layout.len(), 1);
}

#[test]
fn removed_props_force_replace() {
    let mut runtime = VdomRuntime::new();
    let mut first = text("Hello");
    first.props.insert(PropKey::FontSize, PropValue::Float(f(24.0)));
    let _ = render(&mut runtime, stack(vec![first]), 390.0);
    let batch = render(&mut runtime, stack(vec![text("Hello")]), 390.0);
    assert_eq!(batch.mutations[0], Mutation::ReplaceNode { old: 2, new_id: 2, kind: ElementKind::Text });
}

#[test]
fn a_kind_change_takes_a_fresh_id() {
    let mut runtime = VdomRuntime::new();
    let _ = render(&mut runtime, stack(vec![text("a")]), 390.0);
    let batch = render(&mut runtime, stack(vec![button("a")]), 390.0);
    assert_eq!(batch.mutations[0], Mutation::ReplaceNode { old: 2, new_id: 3, kind: ElementKind::Button });
    assert!(batch.mutations.contains(&Mutation::AttachEventListener { id: 3, event: EventKind::Tap }));
}

#[test]
fn taps_reach_nodes_with_a_tap_handler() {
    let mut runtime = VdomRuntime::new();
    let _ = render(&mut runtime, stack(vec![text("a"), button("b")]), 390.0);
    assert_eq!(runtime.dispatch_event(&UiEvent::Tap { id: 3 }), Some(3));
    assert_eq!(runtime.dispatch_event(&UiEvent::Tap { id: 2 }), None);
    assert_eq!(runtime.dispatch_event(&UiEvent::Appear { id: 3 }), None);
}

#[test]
fn no_tree_clears_the_state() {
    let mut runtime = VdomRuntime::new();
    let _ = render(&mut runtime, button("b"), 390.0);
    assert!(runtime.build_root(None).is_none());
    let batch = runtime.render(None, Vec::new());
    assert!(batch.mutations.is_empty());
    assert!(batch.layout.is_empty());
    assert_eq!(runtime.dispatch_event(&UiEvent::Tap { id: 1 }), None);
    let batch = render(&mut runtime, button("b"), 390.0);
    assert_eq!(batch.mutations[0], Mutation::CreateNode { id: 2, kind: ElementKind::Button });
}

#[test]
fn text_nodes_without_text_are_not_well_formed() {
    let node = draft(NodeDescriptor::Text, None, Vec::new());
    assert!(!is_well_formed(&node));
    assert!(!is_well_formed(&stack(vec![node])));
    assert!(is_well_formed(&stack(vec![text("x")])));
    assert_eq!(node_count(&stack(vec![text("x"), stack(vec![text("y")])])), 4);
}

struct Named(&'static str);

impl WidgetElement for Named {
    fn name(&self) -> &'static str {
        self.0
    }
}

#[test]
fn fragments_flatten_into_their_children() {
    let children = vec![
        View::new(Named("A"), Vec::new()),
        View::fragment(vec![
            View::new(Named("B"), Vec::new()),
            View::fragment(vec![View::new(Named("C"), Vec::new())]),
        ]),
        View::new(Named("D"), Vec::new()),
    ];
    assert!(is_fragment(&children[1]));
    assert!(!is_fragment(&children[0]));
    let flat = flatten_children(&children);
    let names: Vec<&str> = flat.iter().map(|v| v.element().name()).collect();
    assert_eq!(names, vec!["A", "B", "C", "D"]);
}

#[test]
fn a_refused_batch_is_retried_once_after_a_resync() {
    assert_eq!(after_send(true, true), RenderStep::Done);
    assert_eq!(after_send(true, false), RenderStep::ResyncAndRetry);
    assert_eq!(after_send(false, false), RenderStep::RepaintLater);
    assert_eq!(after_send(false, true), RenderStep::Done);
    assert!(!has_work(&RenderBatch::default()));
    assert_eq!(tick_step(true), TickStep::Render);
    assert_eq!(tick_step(false), TickStep::DrainEvents);
}

struct Recorder {
    calls: Vec<&'static str>,
    refuse_layout: bool,
}

impl Backend for Recorder {
    fn apply_mutations(&mut self, _mutations: &[Mutation]) -> Result<(), BackendError> {
        self.calls.push("mutations");
        Ok(())
    }

    fn apply_layout(&mut self, _frames: &[LayoutFrame]) -> Result<(), BackendError> {
        self.calls.push("layout");
        if self.refuse_layout {
            Err(BackendError::BatchRejected("no".to_string()))
        } else {
            Ok(())
        }
    }

    fn flush(&mut self) -> Result<(), BackendError> {
        self.calls.push("flush");
        Ok(())
    }
}

#[test]
fn sending_a_batch_stops_at_the_first_refusal() {
    let batch = RenderBatch::default();
    let mut ok = Recorder { calls: Vec::new(), refuse_layout: false };
    assert_eq!(send_batch(&mut ok, &batch), Ok(()));
    assert_eq!(ok.calls, vec!["mutations", "layout", "flush"]);
    let mut refusing = Recorder { calls: Vec::new(), refuse_layout: true };
    assert_eq!(send_batch(&mut refusing, &batch), Err(BackendError::BatchRejected("no".to_string())));
    assert_eq!(refusing.calls, vec!["mutations", "layout"]);
}
