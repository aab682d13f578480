use mf_ui::float32::Fp32;
use mf_ui::mutation::{ElementKind, EventKind, Mutation, PropKey, PropValue};
use mf_ui::props::PropMap;
use mf_ui::vdom::{diff_node, emit_create_subtree, props_removed, replace_mutation, CanonicalNode, NodeDescriptor};

fn f(x: f32) -> Fp32 {
    Fp32::from_bits(x.to_bits())
}

fn text(id: u32, content: &str) -> CanonicalNode {
    CanonicalNode {
        id,
        descriptor: NodeDescriptor::Text,
        props: PropMap::new(),
        text: Some(content.to_string()),
        tap_handler: false,
        input_handler: false,
        focus_change_handler: false,
        children: Vec::new(),
    }
}

fn element(id: u32, kind: ElementKind, children: Vec<CanonicalNode>) -> CanonicalNode {
    CanonicalNode {
        id,
        descriptor: NodeDescriptor::Element(kind),
        props: PropMap::new(),
        text: None,
        tap_handler: false,
        input_handler: false,
        focus_change_handler: false,
        children,
    }
}

fn button(id: u32, label: &str) -> CanonicalNode {
    let mut node = element(id, ElementKind::Button, Vec::new());
    node.text = Some(label.to_string());
    node.tap_handler = true;
    node
}

#[test]
fn create_emits_node_text_props_listeners_then_children() {
    let mut root = element(1, ElementKind::Stack, vec![text(2, "Hello"), button(3, "Tap")]);
    root.props.insert(PropKey::Spacing, PropValue::Float(f(12.0)));
    let mut out = Vec::new();
    emit_create_subtree(&root, &mut out);
    assert_eq!(
        out,
        vec![
            Mutation::CreateNode { id: 1, kind: ElementKind::Stack },
            Mutation::SetProp { id: 1, key: PropKey::Spacing, value: PropValue::Float(f(12.0)) },
            Mutation::CreateTextNode { id: 2, text: "Hello".to_string() },
            Mutation::InsertChild { parent: 1, child: 2, index: 0 },
            Mutation::CreateNode { id: 3, kind: ElementKind::Button },
            Mutation::SetText { id: 3, text: "Tap".to_string() },
            Mutation::AttachEventListener { id: 3, event: EventKind::Tap },
            Mutation::InsertChild { parent: 1, child: 3, index: 1 },
        ]
    );
}

#[test]
fn text_change_emits_only_set_text() {
    let previous = text(1, "Count: 0");
    let next = text(1, "Count: 1");
    let mut out = Vec::new();
    diff_node(&previous, &next, &mut out);
    assert_eq!(out, vec![Mutation::SetText { id: 1, text: "Count: 1".to_string() }]);
}

#[test]
fn diff_of_a_tree_with_itself_is_empty() {
    let mut root = element(1, ElementKind::Stack, vec![text(2, "Hello"), button(3, "Tap")]);
    root.props.insert(PropKey::Opacity, PropValue::Float(f(0.5)));
    let mut out = Vec::new();
    diff_node(&root, &root, &mut out);
    assert!(out.is_empty());
}

#[test]
fn a_nan_property_is_sent_again() {
    let mut root = element(1, ElementKind::Stack, Vec::new());
    root.props.insert(PropKey::Opacity, PropValue::Float(f(f32::NAN)));
    let mut out = Vec::new();
    diff_node(&root, &root, &mut out);
    assert_eq!(out.len(), 1);
}

#[test]
fn a_removed_prop_replaces_the_node() {
    let mut previous = text(5, "Hello");
    previous.props.insert(PropKey::FontSize, PropValue::Float(f(24.0)));
    let next = text(5, "Hello");
    assert!(props_removed(&previous, &next));
    let mut out = Vec::new();
    diff_node(&previous, &next, &mut out);
    assert_eq!(
        out,
        vec![
            Mutation::ReplaceNode { old: 5, new_id: 5, kind: ElementKind::Text },
            Mutation::SetText { id: 5, text: "Hello".to_string() },
        ]
    );
}

#[test]
fn kind_change_replaces_with_the_full_payload() {
    let previous = text(1, "x");
    let next = element(9, ElementKind::Stack, vec![text(10, "y")]);
    assert_eq!(
        replace_mutation(1, &next),
        Mutation::ReplaceNode { old: 1, new_id: 9, kind: ElementKind::Stack }
    );
    let mut out = Vec::new();
    diff_node(&previous, &next, &mut out);
    assert_eq!(
        out,
        vec![
            Mutation::ReplaceNode { old: 1, new_id: 9, kind: ElementKind::Stack },
            Mutation::CreateTextNode { id: 10, text: "y".to_string() },
            Mutation::InsertChild { parent: 9, child: 10, index: 0 },
        ]
    );
}

#[test]
fn listener_change_replaces() {
    let previous = button(3, "Tap");
    let mut next = button(3, "Tap");
    next.tap_handler = false;
    let mut out = Vec::new();
    diff_node(&previous, &next, &mut out);
    assert_eq!(out[0], Mutation::ReplaceNode { old: 3, new_id: 3, kind: ElementKind::Button });
}

#[test]
fn extra_children_are_removed_or_created() {
    let previous = element(1, ElementKind::Stack, vec![text(2, "a"), text(3, "b"), text(4, "c")]);
    let next = element(1, ElementKind::Stack, vec![text(2, "a")]);
    let mut out = Vec::new();
    diff_node(&previous, &next, &mut out);
    assert_eq!(out, vec![Mutation::RemoveNode { id: 3 }, Mutation::RemoveNode { id: 4 }]);

    let mut out = Vec::new();
    diff_node(&next, &previous, &mut out);
    assert_eq!(
        out,
        vec![
            Mutation::CreateTextNode { id: 3, text: "b".to_string() },
            Mutation::InsertChild { parent: 1, child: 3, index: 1 },
            Mutation::CreateTextNode { id: 4, text: "c".to_string() },
            Mutation::InsertChild { parent: 1, child: 4, index: 2 },
        ]
    );
}

#[test]
fn changed_props_are_sent_in_order_of_the_new_node() {
    let mut previous = element(1, ElementKind::Stack, Vec::new());
    previous.props.insert(PropKey::Spacing, PropValue::Float(f(8.0)));
    previous.props.insert(PropKey::Opacity, PropValue::Float(f(1.0)));
    let mut next = element(1, ElementKind::Stack, Vec::new());
    next.props.insert(PropKey::Opacity, PropValue::Float(f(0.5)));
    next.props.insert(PropKey::Spacing, PropValue::Float(f(8.0)));
    next.props.insert(PropKey::Enabled, PropValue::Bool(true));
    let mut out = Vec::new();
    diff_node(&previous, &next, &mut out);
    assert_eq!(
        out,
        vec![
            Mutation::SetProp { id: 1, key: PropKey::Opacity, value: PropValue::Float(f(0.5)) },
            Mutation::SetProp { id: 1, key: PropKey::Enabled, value: PropValue::Bool(true) },
        ]
    );
}
