use mf_ui::diff::{DiffEngine, Patch};
use mf_ui::dsl::{IntoView, WithChildren};
use mf_ui::view::{Fragment, View, WidgetElement};

struct TestElement(&'static str);

impl WidgetElement for TestElement {
    fn name(&self) -> &'static str {
        self.0
    }
}

struct Element(&'static str);

impl WidgetElement for Element {
    fn name(&self) -> &'static str {
        self.0
    }
}

fn node(name: &'static str, children: Vec<View>) -> View {
    View::new(Element(name), children)
}

#[test]
fn view_new_exposes_element_and_children() {
    let child = View::new(TestElement("Child"), Vec::new());
    let root = View::new(TestElement("Root"), vec![child]);

    assert_eq!(root.element().name(), "Root");
    assert_eq!(root.children().len(), 1);
    assert_eq!(root.children()[0].element().name(), "Child");
}

#[test]
fn fragment_wraps_children_with_fragment_element() {
    let child = View::new(TestElement("Child"), Vec::new());
    let fragment = View::fragment(vec![child]);

    assert_eq!(fragment.element().name(), "Fragment");
    assert_eq!(fragment.children().len(), 1);
}

#[test]
fn returns_replace_patch_on_initial_mount() {
    let diff = DiffEngine::new();
    let next = node("Root", Vec::new());

    assert_eq!(diff.diff(None, &next), vec![Patch::Replace]);
}

#[test]
fn returns_no_patches_for_equal_tree_shape() {
    let diff = DiffEngine::new();
    let previous = node("Root", vec![node("Child", Vec::new())]);
    let next = node("Root", vec![node("Child", Vec::new())]);

    assert!(diff.diff(Some(&previous), &next).is_empty());
}

#[test]
fn returns_replace_when_tree_shape_changes() {
    let diff = DiffEngine::new();
    let previous = node("Root", vec![node("Child", Vec::new())]);
    let next = node("Root", vec![node("AnotherChild", Vec::new())]);

    assert_eq!(diff.diff(Some(&previous), &next), vec![Patch::Replace]);
}

#[test]
fn diff_of_a_tree_against_itself_is_empty() {
    let diff = DiffEngine::new();
    let tree = node("Root", vec![node("A", vec![node("B", Vec::new())]), node("C", Vec::new())]);

    assert!(diff.diff(Some(&tree), &tree).is_empty());
}

#[test]
fn diff_replaces_when_child_count_changes() {
    let diff = DiffEngine::new();
    let previous = node("Root", vec![node("A", Vec::new())]);
    let next = node("Root", vec![node("A", Vec::new()), node("A", Vec::new())]);

    assert_eq!(diff.diff(Some(&previous), &next), vec![Patch::Replace]);
}

#[test]
fn diff_looks_at_deep_names() {
    let diff = DiffEngine::new();
    let previous = node("Root", vec![node("A", vec![node("B", Vec::new())])]);
    let next = node("Root", vec![node("A", vec![node("X", Vec::new())])]);

    assert_eq!(diff.diff(Some(&previous), &next), vec![Patch::Replace]);
}

#[test]
fn fragment_element_reports_itself_and_its_name() {
    assert_eq!(Fragment.name(), "Fragment");
    assert!(Fragment.is_fragment());
    assert!(!Element("Root").is_fragment());
    assert_eq!(Element("Root").describe(), "Root");
    let view = View::new(Fragment, vec![node("A", Vec::new())]);
    assert!(view.element().is_fragment());
    assert_eq!(view.into_children().len(), 1);
}

struct Stack;

impl WithChildren for Stack {
    fn with_children(self, children: Vec<View>) -> View {
        View::new(Element("Stack"), children)
    }
}

#[test]
fn containers_become_views_without_children() {
    let view = Stack.into_view();
    assert_eq!(view.element().name(), "Stack");
    assert!(view.children().is_empty());
    let same = view.into_view();
    assert_eq!(same.element().name(), "Stack");
}
