//! Views: a tree of widget elements, each known by its name, with their children.

use vstd::prelude::*;
use vstd::view::View as _;
use crate::diff::same_text;
use crate::vdom::{kids_wf, CanonicalNode};
use crate::widgets::{copy_widget, canonicalize, spec_descriptor_of, widget_entries, Widget};

verus! {

/// A widget node: what a view knows of the element it shows.
pub trait WidgetElement: Send + Sync + Sized {
    fn name(&self) -> &'static str;

    /// The widget that the element shows; a plain stack (`Widget::Other`) by default.
    fn widget(self) -> (r: Widget)
        default_ensures
            r == Widget::Other,
    {
        Widget::Other
    }

    /// The element's name, as text.
    fn describe(&self) -> (r: String)
        default_ensures
            exists|n: &'static str| #[trigger] call_ensures(Self::name, (self,), n) && r@ == n@,
    {
        let n = self.name();
        proof {
            assert(call_ensures(Self::name, (self,), n));
        }
        String::from_str(n)
    }

    /// Whether the element only groups its children (see `Fragment`); not by default.
    fn is_fragment(&self) -> (r: bool)
        default_ensures
            !r,
    {
        false
    }
}

/// The element of a view, as the view keeps it: its name, whether it is a fragment, and
/// the widget it shows.
#[derive(Clone, Debug)]
pub struct ElementInfo {
    name: &'static str,
    fragment: bool,
    widget: Widget,
}

impl ElementInfo {
    pub closed spec fn spec_name(&self) -> Seq<char> {
        self.name@
    }

    pub closed spec fn spec_fragment(&self) -> bool {
        self.fragment
    }

    pub closed spec fn spec_widget(&self) -> Widget {
        self.widget
    }
}

impl WidgetElement for ElementInfo {
    fn name(&self) -> (r: &'static str)
        ensures
            r@ == self.spec_name(),
    {
        self.name
    }

    fn is_fragment(&self) -> (r: bool)
        ensures
            r == self.spec_fragment(),
    {
        self.fragment
    }

    fn widget(self) -> (r: Widget)
        ensures
            r == self.spec_widget(),
    {
        self.widget
    }
}

/// A node of the view tree: an element and its children, in order.
#[derive(Debug)]
pub struct View {
    element: ElementInfo,
    children: Vec<View>,
}

impl View {
    /// The name of the element of the view.
    pub open spec fn element_name(&self) -> Seq<char> {
        self.spec_element().spec_name()
    }

    pub closed spec fn spec_element(&self) -> ElementInfo {
        self.element
    }

    pub closed spec fn spec_children(&self) -> Seq<View> {
        self.children@
    }

    /// The children of a view are smaller than the view.
    pub proof fn lemma_children_smaller(&self)
        ensures
            decreases_to!(*self => self.spec_children()),
            forall|i: int|
                0 <= i < self.spec_children().len() ==> decreases_to!(*self => #[trigger] self.spec_children()[i]),
    {
        assert(decreases_to!(*self => self.children));
        assert(decreases_to!(self.children => self.children@));
        assert forall|i: int| 0 <= i < self.spec_children().len() implies decreases_to!(*self => #[trigger] self.spec_children()[i]) by {
            assert(decreases_to!(self.children@ => self.children@[i]));
        }
    }

    /// A view of `element` with `children`.
    pub fn new<E: WidgetElement>(element: E, children: Vec<View>) -> (r: Self)
        ensures
            exists|n: &'static str| #[trigger] call_ensures(E::name, (&element,), n) && r.element_name() == n@,
            call_ensures(E::is_fragment, (&element,), r.spec_element().spec_fragment()),
            call_ensures(E::widget, (element,), r.spec_element().spec_widget()),
            r.spec_children() == children@,
    {
        let name = element.name();
        let fragment = element.is_fragment();
        proof {
            assert(call_ensures(E::name, (&element,), name));
        }
        let ghost e = element;
        let widget = element.widget();
        proof {
            assert(call_ensures(E::widget, (e,), widget));
        }
        View { element: ElementInfo { name, fragment, widget }, children }
    }

    pub fn element(&self) -> (r: &ElementInfo)
        ensures
            *r == self.spec_element(),
    {
        &self.element
    }

    pub fn children(&self) -> (r: &[View])
        ensures
            r@ == self.spec_children(),
    {
        self.children.as_slice()
    }

    pub fn into_children(self) -> (r: Vec<View>)
        ensures
            r@ == self.spec_children(),
    {
        self.children
    }

    /// A fragment grouping `children`.
    pub fn fragment(children: Vec<View>) -> (r: Self)
        ensures
            r.element_name() == "Fragment"@,
            r.spec_element().spec_fragment(),
            r.spec_element().spec_widget() == Widget::Other,
            r.spec_children() == children@,
    {
        let name = "Fragment";
        proof {
            reveal_strlit("Fragment");
        }
        View { element: ElementInfo { name, fragment: true, widget: Widget::Other }, children }
    }
}

/// An element that only groups its children.
pub struct Fragment;

impl WidgetElement for Fragment {
    fn name(&self) -> (r: &'static str)
        ensures
            r@ == "Fragment"@,
    {
        "Fragment"
    }

    fn is_fragment(&self) -> (r: bool)
        ensures
            r,
    {
        true
    }
}

/// The widget that a view shows: its element's widget, and a list for an element named
/// `List` that names no widget of its own.
pub open spec fn shown_widget(v: View) -> Widget {
    let w = v.spec_element().spec_widget();
    if w is Other && v.element_name() == "List"@ {
        Widget::List
    } else {
        w
    }
}

/// The node of the canonical tree that shows `view` under the id `id`, above `children`:
/// the view's widget decides its kind, text, properties and handlers (see `canonicalize`
/// and `shown_widget`).
pub fn canonicalize_view(id: crate::mutation::UiNodeId, view: &View, children: Vec<CanonicalNode>) -> (r:
    CanonicalNode)
    ensures
        r.id == id,
        r.descriptor == spec_descriptor_of(shown_widget(*view)),
        r.props.wf(),
        r.props@ == widget_entries(shown_widget(*view)),
        r.text == match shown_widget(*view) {
            Widget::Text(t) => Some(t.content),
            Widget::Button(b) => Some(b.label),
            Widget::Input(i) => Some(i.value),
            _ => None::<String>,
        },
        r.tap_handler == (shown_widget(*view) matches Widget::Button(b)
            && b.has_action),
        r.input_handler == (shown_widget(*view) matches Widget::Input(i)
            && i.has_input_action),
        r.focus_change_handler == (shown_widget(*view) matches Widget::Input(i)
            && i.has_focus_change_action),
        r.children == children,
        kids_wf(children@, children@.len() as int) ==> r.wf(),
{
    let widget = if matches!(view.element.widget, Widget::Other) && same_text(view.element.name, "List") {
        Widget::List
    } else {
        copy_widget(&view.element.widget)
    };
    canonicalize(id, widget, children)
}

/// Whether `view` only groups its children.
pub fn is_fragment(view: &View) -> (r: bool)
    ensures
        r == view.spec_element().spec_fragment(),
{
    view.element.fragment
}

/// The first `n` views of `children`, each fragment replaced by its own children, flattened
/// in turn.
pub open spec fn flat_children(children: Seq<View>, n: int) -> Seq<View>
    decreases children, n,
{
    if 0 < n <= children.len() {
        let c = children[n - 1];
        flat_children(children, n - 1) + if c.spec_element().spec_fragment() {
            proof {
                c.lemma_children_smaller();
            }
            flat_children(c.spec_children(), c.spec_children().len() as int)
        } else {
            seq![c]
        }
    } else {
        Seq::empty()
    }
}

/// Appends the views of `children`, each fragment replaced by its flattened children.
fn flatten_into<'a>(children: &'a [View], out: &mut Vec<&'a View>)
    ensures
        final(out)@.map_values(|v: &View| *v) == old(out)@.map_values(|v: &View| *v)
            + flat_children(children@, children@.len() as int),
    decreases children@,
{
    let ghost start = out@.map_values(|v: &View| *v);
    let mut i: usize = 0;
    while i < children.len()
        invariant
            i <= children@.len(),
            out@.map_values(|v: &View| *v) == start + flat_children(children@, i as int),
        decreases children@.len() - i,
    {
        let c = &children[i];
        let ghost before = out@.map_values(|v: &View| *v);
        if c.element.fragment {
            proof {
                c.lemma_children_smaller();
                assert(decreases_to!(children@ => children@[i as int]));
                assert(decreases_to!(children@[i as int] => c.children@));
            }
            flatten_into(c.children.as_slice(), out);
        } else {
            out.push(c);
            proof {
                assert(out@.map_values(|v: &View| *v) =~= before.push(*c));
            }
        }
        proof {
            assert(out@.map_values(|v: &View| *v) =~= start + flat_children(children@, i + 1));
        }
        i = i + 1;
    }
}

/// The views of `children`, each fragment replaced by its flattened children.
pub fn flatten_children(children: &[View]) -> (r: Vec<&View>)
    ensures
        r@.map_values(|v: &View| *v) == flat_children(children@, children@.len() as int),
{
    let mut out: Vec<&View> = Vec::new();
    proof {
        assert(out@.map_values(|v: &View| *v) =~= Seq::<View>::empty());
    }
    flatten_into(children, &mut out);
    proof {
        assert(Seq::<View>::empty() + flat_children(children@, children@.len() as int)
            =~= flat_children(children@, children@.len() as int));
    }
    out
}

/// `n` is a node of the draft tree of `v`: it shows the widget of `v`, and its children
/// are, in order, the drafts of the children of `v` with each fragment replaced by its own
/// flattened children. Draft nodes carry the id 0; the runtime gives the ids.
pub open spec fn is_draft_of(n: CanonicalNode, v: View) -> bool
    decreases v,
{
    let w = shown_widget(v);
    let flat = flat_children(v.spec_children(), v.spec_children().len() as int);
    &&& n.id == 0
    &&& n.descriptor == spec_descriptor_of(w)
    &&& n.props@ == widget_entries(w)
    &&& n.text == match w {
        Widget::Text(t) => Some(t.content),
        Widget::Button(b) => Some(b.label),
        Widget::Input(i) => Some(i.value),
        _ => None::<String>,
    }
    &&& n.tap_handler == (w matches Widget::Button(b) && b.has_action)
    &&& n.input_handler == (w matches Widget::Input(i) && i.has_input_action)
    &&& n.focus_change_handler == (w matches Widget::Input(i) && i.has_focus_change_action)
    &&& n.children@.len() == flat.len()
    &&& forall|i: int|
        0 <= i < flat.len() ==> {
            proof {
                lemma_flat_descendants(v, v.spec_children().len() as int);
            }
            is_draft_of(#[trigger] n.children@[i], flat[i])
        }
}

/// `r` holds a well-formed draft tree of `v`.
pub open spec fn drafted(r: Option<CanonicalNode>, v: View) -> bool {
    match r {
        Some(n) => is_draft_of(n, v) && n.wf(),
        None => false,
    }
}

/// Nodes that are each well formed make a well-formed list.
proof fn lemma_kids_all_wf(kids: Seq<CanonicalNode>, n: int)
    requires
        0 <= n <= kids.len(),
        forall|i: int| 0 <= i < n ==> (#[trigger] kids[i]).wf(),
    ensures
        kids_wf(kids, n),
    decreases n,
{
    if n > 0 {
        lemma_kids_all_wf(kids, n - 1);
    }
}

/// The draft node of `view` (see `is_draft_of`).
pub fn view_node(view: &View) -> (r: CanonicalNode)
    ensures
        is_draft_of(r, *view),
        r.wf(),
    decreases *view,
{
    let flat = flatten_children(view.children.as_slice());
    let ghost fs = flat_children(view.spec_children(), view.spec_children().len() as int);
    proof {
        lemma_flat_descendants(*view, view.spec_children().len() as int);
        assert(flat@.len() == fs.len());
    }
    let mut children: Vec<CanonicalNode> = Vec::new();
    let mut i: usize = 0;
    while i < flat.len()
        invariant
            i <= flat@.len(),
            flat@.len() == fs.len(),
            flat@.map_values(|v: &View| *v) == fs,
            forall|j: int| 0 <= j < fs.len() ==> decreases_to!(*view => #[trigger] fs[j]),
            children@.len() == i,
            forall|j: int|
                0 <= j < i ==> is_draft_of(#[trigger] children@[j], fs[j]) && children@[j].wf(),
        decreases flat@.len() - i,
    {
        proof {
            assert(*flat@[i as int] == fs[i as int]);
        }
        let c = view_node(flat[i]);
        children.push(c);
        i = i + 1;
    }
    proof {
        lemma_kids_all_wf(children@, children@.len() as int);
    }
    let r = canonicalize_view(0, view, children);
    proof {
        assert(r.children@ == children@);
    }
    r
}

/// The draft tree of `view`, which the runtime then gives its ids: the draft node of the
/// view, or of the first of its flattened children when the view is a fragment (none when
/// it has none).
pub fn view_draft(view: &View) -> (r: Option<CanonicalNode>)
    ensures
        !view.spec_element().spec_fragment() ==> drafted(r, *view),
        view.spec_element().spec_fragment() ==> {
            let flat = flat_children(view.spec_children(), view.spec_children().len() as int);
            &&& flat.len() == 0 ==> r is None
            &&& flat.len() > 0 ==> drafted(r, flat[0])
        },
{
    if view.element.fragment {
        let flat = flatten_children(view.children.as_slice());
        if flat.len() == 0 {
            return None;
        }
        proof {
            assert(*flat@[0] == flat@.map_values(|v: &View| *v)[0]);
        }
        Some(view_node(flat[0]))
    } else {
        Some(view_node(view))
    }
}


/// Every view that flattening the first `n` children of `v` gives is smaller than `v`.
pub proof fn lemma_flat_descendants(v: View, n: int)
    requires
        0 <= n <= v.spec_children().len(),
    ensures
        forall|i: int|
            0 <= i < flat_children(v.spec_children(), n).len() ==> decreases_to!(v => #[trigger] flat_children(v.spec_children(), n)[i]),
    decreases v, n,
{
    if n > 0 {
        lemma_flat_descendants(v, n - 1);
        v.lemma_children_smaller();
        let c = v.spec_children()[n - 1];
        let prev = flat_children(v.spec_children(), n - 1);
        if c.spec_element().spec_fragment() {
            lemma_flat_descendants(c, c.spec_children().len() as int);
            let inner = flat_children(c.spec_children(), c.spec_children().len() as int);
            assert forall|i: int| 0 <= i < flat_children(v.spec_children(), n).len() implies decreases_to!(v => #[trigger] flat_children(v.spec_children(), n)[i]) by {
                if i < prev.len() {
                    assert(flat_children(v.spec_children(), n)[i] == prev[i]);
                } else {
                    assert(flat_children(v.spec_children(), n)[i] == inner[i - prev.len()]);
                    assert(decreases_to!(c => inner[i - prev.len()]));
                    assert(decreases_to!(v => c));
                }
            }
        } else {
            assert forall|i: int| 0 <= i < flat_children(v.spec_children(), n).len() implies decreases_to!(v => #[trigger] flat_children(v.spec_children(), n)[i]) by {
                if i < prev.len() {
                    assert(flat_children(v.spec_children(), n)[i] == prev[i]);
                } else {
                    assert(flat_children(v.spec_children(), n)[i] == c);
                }
            }
        }
    }
}

} // verus!
