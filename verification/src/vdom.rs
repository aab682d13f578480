//! The canonical virtual tree that the runtime renders, and the mutations that create it or
//! bring a previous tree up to date.

use vstd::prelude::*;
use crate::mutation::{ElementKind, EventKind, Mutation, PropKey, PropValue, UiNodeId, prop_value_same};
use crate::props::{has_key, lookup, PropMap};

verus! {

/// What kind of native node a canonical node becomes.
#[derive(Debug, Clone, Copy, PartialEq, Eq, Structural)]
pub enum NodeDescriptor {
    Text,
    Element(ElementKind),
}

/// A node of the canonical tree: its id, kind, properties, text, which event handlers it
/// has, and its children in order.
#[derive(Debug)]
pub struct CanonicalNode {
    pub id: UiNodeId,
    pub descriptor: NodeDescriptor,
    pub props: PropMap,
    pub text: Option<String>,
    pub tap_handler: bool,
    pub input_handler: bool,
    pub focus_change_handler: bool,
    pub children: Vec<CanonicalNode>,
}

impl CanonicalNode {
    /// The children of a node are smaller than the node.
    pub proof fn lemma_children_smaller(&self)
        ensures
            decreases_to!(*self => self.children@),
            forall|i: int|
                0 <= i < self.children@.len() ==> decreases_to!(*self => #[trigger] self.children@[i]),
    {
        assert(decreases_to!(*self => self.children));
        assert(decreases_to!(self.children => self.children@));
        assert forall|i: int| 0 <= i < self.children@.len() implies decreases_to!(*self => #[trigger] self.children@[i]) by {
            assert(decreases_to!(self.children@ => self.children@[i]));
        }
    }

    /// A text node carries its text, property maps have distinct keys, and so do all the
    /// nodes below.
    pub open spec fn wf(&self) -> bool
        decreases *self, 0int,
    {
        &&& (self.descriptor == NodeDescriptor::Text ==> self.text is Some)
        &&& self.props.wf()
        &&& {
            proof {
                self.lemma_children_smaller();
            }
            kids_wf(self.children@, self.children@.len() as int)
        }
    }
}

/// The first `n` nodes of `kids` are well formed.
pub open spec fn kids_wf(kids: Seq<CanonicalNode>, n: int) -> bool
    decreases kids, n,
{
    if 0 < n <= kids.len() {
        kids_wf(kids, n - 1) && kids[n - 1].wf()
    } else {
        true
    }
}

/// The mutation that creates the node itself.
pub open spec fn create_mutation(node: CanonicalNode) -> Mutation {
    match node.descriptor {
        NodeDescriptor::Text => Mutation::CreateTextNode { id: node.id, text: node.text->0 },
        NodeDescriptor::Element(kind) => Mutation::CreateNode { id: node.id, kind },
    }
}

/// `SetProp` for each property of `entries`, in order.
pub open spec fn props_seq(id: UiNodeId, entries: Seq<(PropKey, PropValue)>) -> Seq<Mutation> {
    entries.map_values(|e: (PropKey, PropValue)| Mutation::SetProp { id, key: e.0, value: e.1 })
}

/// The listeners of a node, in the order tap, text input, focus change.
pub open spec fn listeners_seq(node: CanonicalNode) -> Seq<Mutation> {
    (if node.tap_handler {
        seq![Mutation::AttachEventListener { id: node.id, event: EventKind::Tap }]
    } else {
        Seq::empty()
    }) + (if node.input_handler {
        seq![Mutation::AttachEventListener { id: node.id, event: EventKind::TextInput }]
    } else {
        Seq::empty()
    }) + (if node.focus_change_handler {
        seq![Mutation::AttachEventListener { id: node.id, event: EventKind::FocusChanged }]
    } else {
        Seq::empty()
    })
}

/// `SetText` with the text of the node, when it has one.
pub open spec fn text_seq(node: CanonicalNode) -> Seq<Mutation> {
    match node.text {
        Some(t) => seq![Mutation::SetText { id: node.id, text: t }],
        None => Seq::empty(),
    }
}

/// What creating the node itself takes, before its children.
pub open spec fn create_head(node: CanonicalNode) -> Seq<Mutation> {
    seq![create_mutation(node)] + (if node.descriptor == NodeDescriptor::Text {
        Seq::empty()
    } else {
        text_seq(node)
    }) + props_seq(node.id, node.props@) + listeners_seq(node)
}

/// The mutations that create the subtree of `node`: the node, then each child's subtree
/// followed by its insertion.
pub open spec fn create_seq(node: CanonicalNode) -> Seq<Mutation>
    decreases node, 0int,
{
    create_head(node) + {
        proof {
            node.lemma_children_smaller();
        }
        kids_create_seq(node.id, node.children@, 0, node.children@.len() as int)
    }
}

/// The subtrees of `kids[from..to]`, each created and inserted under `parent` at its position.
pub open spec fn kids_create_seq(parent: UiNodeId, kids: Seq<CanonicalNode>, from: int, to: int) -> Seq<
    Mutation,
>
    decreases kids, to - from,
{
    if 0 <= from < to <= kids.len() {
        kids_create_seq(parent, kids, from, to - 1) + create_seq(kids[to - 1]) + seq![
            Mutation::InsertChild { parent, child: kids[to - 1].id, index: (to - 1) as u32 },
        ]
    } else {
        Seq::empty()
    }
}

/// The mutation that replaces the node `old_id` by a fresh node for `next`.
pub open spec fn spec_replace_mutation(old_id: UiNodeId, next: CanonicalNode) -> Mutation {
    Mutation::ReplaceNode {
        old: old_id,
        new_id: next.id,
        kind: match next.descriptor {
            NodeDescriptor::Text => ElementKind::Text,
            NodeDescriptor::Element(kind) => kind,
        },
    }
}

/// What fills a freshly replaced node: its text, properties, listeners and children.
pub open spec fn replace_payload(node: CanonicalNode) -> Seq<Mutation> {
    text_seq(node) + props_seq(node.id, node.props@) + listeners_seq(node) + kids_create_seq(
        node.id,
        node.children@,
        0,
        node.children@.len() as int,
    )
}

/// Which of the three handlers a node has.
pub open spec fn listener_signature(node: CanonicalNode) -> (bool, bool, bool) {
    (node.tap_handler, node.input_handler, node.focus_change_handler)
}

/// Some property of `previous` is absent from `next`.
pub open spec fn spec_props_removed(previous: CanonicalNode, next: CanonicalNode) -> bool {
    exists|i: int|
        0 <= i < previous.props@.len() && !has_key(next.props@, #[trigger] previous.props@[i].0)
}

/// The texts of two nodes differ.
pub open spec fn text_differs(a: Option<String>, b: Option<String>) -> bool {
    match (a, b) {
        (Some(x), Some(y)) => x@ != y@,
        (None, None) => false,
        _ => true,
    }
}

/// `SetProp` for each of the first `n` entries of `next` whose value differs from the value
/// under its key in `previous`.
pub open spec fn changed_props_seq(
    id: UiNodeId,
    previous: Seq<(PropKey, PropValue)>,
    next: Seq<(PropKey, PropValue)>,
    n: int,
) -> Seq<Mutation>
    decreases n,
{
    if 0 < n <= next.len() {
        let e = next[n - 1];
        changed_props_seq(id, previous, next, n - 1) + match lookup(previous, e.0) {
            Some(v) => if prop_value_same(v, e.1) {
                Seq::empty()
            } else {
                seq![Mutation::SetProp { id, key: e.0, value: e.1 }]
            },
            None => seq![Mutation::SetProp { id, key: e.0, value: e.1 }],
        }
    } else {
        Seq::empty()
    }
}

/// The mutations that bring the tree `previous` to `next`: a replacement where the kind,
/// the handlers or a removed property make the node unfit for reuse, else the updates of
/// the kept node.
pub open spec fn diff_seq(previous: CanonicalNode, next: CanonicalNode) -> Seq<Mutation>
    decreases previous, 2int,
{
    if previous.descriptor != next.descriptor || listener_signature(previous) != listener_signature(
        next,
    ) || spec_props_removed(previous, next) {
        seq![spec_replace_mutation(previous.id, next)] + replace_payload(next)
    } else {
        kept_diff_seq(previous, next)
    }
}

/// The number of children that `a` and `b` both have.
pub open spec fn shared_len(a: CanonicalNode, b: CanonicalNode) -> int {
    if a.children@.len() < b.children@.len() {
        a.children@.len() as int
    } else {
        b.children@.len() as int
    }
}

/// The updates of a node kept from `previous` for `next`: its text, its changed
/// properties, the diffs of the shared children, the removal of the extra old children and
/// the creation of the extra new ones.
pub open spec fn kept_diff_seq(previous: CanonicalNode, next: CanonicalNode) -> Seq<Mutation>
    decreases previous, 1int,
{
    let pk = previous.children@;
    let nk = next.children@;
    let shared = shared_len(previous, next);
    (if text_differs(previous.text, next.text) && next.text is Some {
        seq![Mutation::SetText { id: next.id, text: next.text->0 }]
    } else {
        Seq::empty()
    }) + changed_props_seq(next.id, previous.props@, next.props@, next.props@.len() as int) + {
        proof {
            previous.lemma_children_smaller();
        }
        shared_diff_seq(pk, nk, shared)
    } + removals_seq(pk, shared) + kids_create_seq(next.id, nk, shared, nk.len() as int)
}

/// The diffs of the first `n` children of `pk` against those of `nk`, in order.
pub open spec fn shared_diff_seq(pk: Seq<CanonicalNode>, nk: Seq<CanonicalNode>, n: int) -> Seq<
    Mutation,
>
    decreases pk, n,
{
    if 0 < n <= pk.len() && n <= nk.len() {
        shared_diff_seq(pk, nk, n - 1) + diff_seq(pk[n - 1], nk[n - 1])
    } else {
        Seq::empty()
    }
}

/// `RemoveNode` for each node of `pk` from position `from` on.
pub open spec fn removals_seq(pk: Seq<CanonicalNode>, from: int) -> Seq<Mutation> {
    pk.subrange(from, pk.len() as int).map_values(|c: CanonicalNode| Mutation::RemoveNode { id: c.id })
}

/// Every one of the first `n` nodes of well-formed `kids` is well formed.
pub proof fn lemma_kids_wf(kids: Seq<CanonicalNode>, n: int)
    requires
        0 <= n <= kids.len(),
        kids_wf(kids, n),
    ensures
        forall|i: int| 0 <= i < n ==> (#[trigger] kids[i]).wf(),
    decreases n,
{
    if n > 0 {
        lemma_kids_wf(kids, n - 1);
    }
}

/// Appends the listeners of `node`.
fn emit_listeners(node: &CanonicalNode, mutations: &mut Vec<Mutation>)
    ensures
        final(mutations)@ == old(mutations)@ + listeners_seq(*node),
{
    let ghost start = mutations@;
    if node.tap_handler {
        mutations.push(Mutation::AttachEventListener { id: node.id, event: EventKind::Tap });
    }
    if node.input_handler {
        mutations.push(Mutation::AttachEventListener { id: node.id, event: EventKind::TextInput });
    }
    if node.focus_change_handler {
        mutations.push(Mutation::AttachEventListener { id: node.id, event: EventKind::FocusChanged });
    }
    assert(mutations@ =~= start + listeners_seq(*node));
}

/// Appends `SetProp` for every property of `props`, in order.
fn emit_props(id: UiNodeId, props: &PropMap, mutations: &mut Vec<Mutation>)
    ensures
        final(mutations)@ == old(mutations)@ + props_seq(id, props@),
{
    let ghost start = mutations@;
    let mut i: usize = 0;
    while i < props.len()
        invariant
            i <= props@.len(),
            mutations@ == start + props_seq(id, props@.take(i as int)),
        decreases props@.len() - i,
    {
        let (key, value) = props.entry(i);
        mutations.push(Mutation::SetProp { id, key: *key, value: value.clone_value() });
        assert(props@.take(i + 1) =~= props@.take(i as int).push(props@[i as int]));
        assert(props_seq(id, props@.take(i + 1)) =~= props_seq(id, props@.take(i as int)).push(
            Mutation::SetProp { id, key: props@[i as int].0, value: props@[i as int].1 },
        ));
        i = i + 1;
    }
    assert(props@.take(props@.len() as int) =~= props@);
}

/// Appends `SetText` with the text of `node`, when it has one.
fn emit_text(node: &CanonicalNode, mutations: &mut Vec<Mutation>)
    ensures
        final(mutations)@ == old(mutations)@ + text_seq(*node),
{
    let ghost start = mutations@;
    match &node.text {
        Some(t) => {
            mutations.push(Mutation::SetText { id: node.id, text: t.clone() });
        },
        None => {},
    }
    assert(mutations@ =~= start + text_seq(*node));
}

/// Appends the mutations that create the subtree of `node`.
pub fn emit_create_subtree(node: &CanonicalNode, mutations: &mut Vec<Mutation>)
    requires
        node.wf(),
    ensures
        final(mutations)@ == old(mutations)@ + create_seq(*node),
    decreases *node, 1int,
{
    let ghost start = mutations@;
    let first = match node.descriptor {
        NodeDescriptor::Text => match &node.text {
            Some(t) => Mutation::CreateTextNode { id: node.id, text: t.clone() },
            None => Mutation::CreateTextNode { id: node.id, text: String::new() },
        },
        NodeDescriptor::Element(kind) => Mutation::CreateNode { id: node.id, kind },
    };
    mutations.push(first);
    let ghost after_first = mutations@;
    match node.descriptor {
        NodeDescriptor::Text => {},
        NodeDescriptor::Element(_) => {
            emit_text(node, mutations);
        },
    }
    proof {
        if node.descriptor == NodeDescriptor::Text {
            assert(mutations@ =~= after_first + Seq::<Mutation>::empty());
        }
    }
    emit_props(node.id, &node.props, mutations);
    emit_listeners(node, mutations);
    proof {
        assert(mutations@ =~= start + create_head(*node));
    }
    emit_children(node, 0, mutations);
    proof {
        assert(mutations@ =~= start + create_seq(*node));
    }
}

/// Appends, for each child of `node` from position `from` on, the mutations that create
/// its subtree and insert it at its position.
fn emit_children(node: &CanonicalNode, from: usize, mutations: &mut Vec<Mutation>)
    requires
        node.wf(),
        from <= node.children@.len(),
    ensures
        final(mutations)@ == old(mutations)@ + kids_create_seq(
            node.id,
            node.children@,
            from as int,
            node.children@.len() as int,
        ),
    decreases *node, 0int,
{
    let ghost start = mutations@;
    let ghost kids = node.children@;
    proof {
        node.lemma_children_smaller();
        lemma_kids_wf(kids, kids.len() as int);
    }
    let mut i: usize = from;
    while i < node.children.len()
        invariant
            from <= i <= kids.len(),
            kids == node.children@,
            forall|j: int| 0 <= j < kids.len() ==> (#[trigger] kids[j]).wf(),
            forall|j: int| 0 <= j < kids.len() ==> decreases_to!(*node => #[trigger] kids[j]),
            mutations@ == start + kids_create_seq(node.id, kids, from as int, i as int),
        decreases kids.len() - i,
    {
        let child = &node.children[i];
        proof {
            assert(decreases_to!(*node => kids[i as int]));
        }
        emit_create_subtree(child, mutations);
        mutations.push(Mutation::InsertChild { parent: node.id, child: child.id, index: i as u32 });
        proof {
            assert(mutations@ =~= start + kids_create_seq(node.id, kids, from as int, i + 1));
        }
        i = i + 1;
    }
}

/// Appends what fills a freshly replaced node: text, properties, listeners and children.
fn emit_replace_payload(node: &CanonicalNode, mutations: &mut Vec<Mutation>)
    requires
        node.wf(),
    ensures
        final(mutations)@ == old(mutations)@ + replace_payload(*node),
{
    let ghost start = mutations@;
    emit_text(node, mutations);
    emit_props(node.id, &node.props, mutations);
    emit_listeners(node, mutations);
    emit_children(node, 0, mutations);
    assert(mutations@ =~= start + replace_payload(*node));
}

/// The mutation that replaces the node `old_id` by a fresh node for `next`.
pub fn replace_mutation(old_id: UiNodeId, next: &CanonicalNode) -> (r: Mutation)
    ensures
        r == spec_replace_mutation(old_id, *next),
{
    match next.descriptor {
        NodeDescriptor::Text => Mutation::ReplaceNode { old: old_id, new_id: next.id, kind: ElementKind::Text },
        NodeDescriptor::Element(kind) => Mutation::ReplaceNode { old: old_id, new_id: next.id, kind },
    }
}

/// Whether some property of `previous` is absent from `next`.
pub fn props_removed(previous: &CanonicalNode, next: &CanonicalNode) -> (r: bool)
    requires
        next.props.wf(),
    ensures
        r == spec_props_removed(*previous, *next),
{
    let mut i: usize = 0;
    while i < previous.props.len()
        invariant
            i <= previous.props@.len(),
            next.props.wf(),
            forall|j: int| 0 <= j < i ==> has_key(next.props@, #[trigger] previous.props@[j].0),
        decreases previous.props@.len() - i,
    {
        let (key, _) = previous.props.entry(i);
        if next.props.position(*key).is_none() {
            return true;
        }
        i = i + 1;
    }
    false
}

/// Whether two optional texts are the same.
fn same_opt_text(a: &Option<String>, b: &Option<String>) -> (r: bool)
    ensures
        r == !text_differs(*a, *b),
{
    match (a, b) {
        (Some(x), Some(y)) => x.eq(y),
        (None, None) => true,
        _ => false,
    }
}

/// Appends `SetProp` for each property of `next` whose value differs from the value under
/// its key in `previous`, in the order of `next`.
fn emit_changed_props(previous: &CanonicalNode, next: &CanonicalNode, mutations: &mut Vec<Mutation>)
    requires
        previous.props.wf(),
    ensures
        final(mutations)@ == old(mutations)@ + changed_props_seq(
            next.id,
            previous.props@,
            next.props@,
            next.props@.len() as int,
        ),
{
    let ghost start = mutations@;
    let mut i: usize = 0;
    while i < next.props.len()
        invariant
            i <= next.props@.len(),
            previous.props.wf(),
            mutations@ == start + changed_props_seq(next.id, previous.props@, next.props@, i as int),
        decreases next.props@.len() - i,
    {
        let (key, value) = next.props.entry(i);
        let changed = match previous.props.get(*key) {
            Some(v) => !v.same_value(value),
            None => true,
        };
        if changed {
            mutations.push(Mutation::SetProp { id: next.id, key: *key, value: value.clone_value() });
        }
        proof {
            assert(mutations@ =~= start + changed_props_seq(
                next.id,
                previous.props@,
                next.props@,
                i + 1,
            ));
        }
        i = i + 1;
    }
}

/// Appends the mutations that bring the tree `previous` to `next` (see `diff_seq`).
pub fn diff_node(previous: &CanonicalNode, next: &CanonicalNode, mutations: &mut Vec<Mutation>)
    requires
        previous.wf(),
        next.wf(),
    ensures
        final(mutations)@ == old(mutations)@ + diff_seq(*previous, *next),
    decreases *previous, 3int,
{
    let ghost start = mutations@;
    if previous.descriptor != next.descriptor || previous.tap_handler != next.tap_handler
        || previous.input_handler != next.input_handler || previous.focus_change_handler
        != next.focus_change_handler || props_removed(previous, next) {
        mutations.push(replace_mutation(previous.id, next));
        emit_replace_payload(next, mutations);
        proof {
            assert(mutations@ =~= start + diff_seq(*previous, *next));
        }
        return;
    }
    diff_kept(previous, next, mutations);
}

/// Appends the updates of the node kept from `previous` for `next` (see `kept_diff_seq`).
fn diff_kept(previous: &CanonicalNode, next: &CanonicalNode, mutations: &mut Vec<Mutation>)
    requires
        previous.wf(),
        next.wf(),
    ensures
        final(mutations)@ == old(mutations)@ + kept_diff_seq(*previous, *next),
    decreases *previous, 2int,
{
    let ghost start = mutations@;
    if !same_opt_text(&previous.text, &next.text) {
        match &next.text {
            Some(t) => {
                mutations.push(Mutation::SetText { id: next.id, text: t.clone() });
            },
            None => {},
        }
    }
    emit_changed_props(previous, next, mutations);
    let ghost pk = previous.children@;
    let ghost nk = next.children@;
    let shared = if previous.children.len() < next.children.len() {
        previous.children.len()
    } else {
        next.children.len()
    };
    proof {
        previous.lemma_children_smaller();
        lemma_kids_wf(pk, pk.len() as int);
        lemma_kids_wf(nk, nk.len() as int);
    }
    let ghost after_props = mutations@;
    let mut i: usize = 0;
    while i < shared
        invariant
            i <= shared,
            shared <= pk.len(),
            shared <= nk.len(),
            pk == previous.children@,
            nk == next.children@,
            forall|j: int| 0 <= j < pk.len() ==> (#[trigger] pk[j]).wf(),
            forall|j: int| 0 <= j < nk.len() ==> (#[trigger] nk[j]).wf(),
            forall|j: int| 0 <= j < pk.len() ==> decreases_to!(*previous => #[trigger] pk[j]),
            mutations@ == after_props + shared_diff_seq(pk, nk, i as int),
        decreases shared - i,
    {
        proof {
            assert(decreases_to!(*previous => pk[i as int]));
        }
        diff_node(&previous.children[i], &next.children[i], mutations);
        proof {
            assert(mutations@ =~= after_props + shared_diff_seq(pk, nk, i + 1));
        }
        i = i + 1;
    }
    let ghost after_shared = mutations@;
    emit_removals(previous, shared, mutations);
    emit_children(next, shared, mutations);
    proof {
        assert(mutations@ =~= start + kept_diff_seq(*previous, *next));
    }
}

/// Appends `RemoveNode` for each child of `previous` from position `from` on.
fn emit_removals(previous: &CanonicalNode, from: usize, mutations: &mut Vec<Mutation>)
    requires
        from <= previous.children@.len(),
    ensures
        final(mutations)@ == old(mutations)@ + removals_seq(previous.children@, from as int),
{
    let ghost start = mutations@;
    let ghost pk = previous.children@;
    let mut j: usize = from;
    while j < previous.children.len()
        invariant
            from <= j <= pk.len(),
            pk == previous.children@,
            mutations@ == start + pk.subrange(from as int, j as int).map_values(
                |c: CanonicalNode| Mutation::RemoveNode { id: c.id },
            ),
        decreases pk.len() - j,
    {
        mutations.push(Mutation::RemoveNode { id: previous.children[j].id });
        proof {
            assert(pk.subrange(from as int, j + 1) =~= pk.subrange(from as int, j as int).push(
                pk[j as int],
            ));
            assert(mutations@ =~= start + pk.subrange(from as int, j + 1).map_values(
                |c: CanonicalNode| Mutation::RemoveNode { id: c.id },
            ));
        }
        j = j + 1;
    }
}

/// Every property value of `entries` equals itself (no value holds a NaN coordinate).
pub open spec fn props_self_same(entries: Seq<(PropKey, PropValue)>) -> bool {
    forall|i: int| 0 <= i < entries.len() ==> prop_value_same(#[trigger] entries[i].1, entries[i].1)
}

/// Every property value in the subtree of `node` equals itself.
pub open spec fn tree_self_same(node: CanonicalNode) -> bool
    decreases node, 0int,
{
    &&& props_self_same(node.props@)
    &&& {
        proof {
            node.lemma_children_smaller();
        }
        kids_self_same(node.children@, node.children@.len() as int)
    }
}

/// Every property value in the subtrees of the first `n` nodes of `kids` equals itself.
pub open spec fn kids_self_same(kids: Seq<CanonicalNode>, n: int) -> bool
    decreases kids, n,
{
    if 0 < n <= kids.len() {
        kids_self_same(kids, n - 1) && tree_self_same(kids[n - 1])
    } else {
        true
    }
}

/// Properties whose values equal themselves produce no update against themselves.
pub proof fn lemma_changed_props_self(id: UiNodeId, e: Seq<(PropKey, PropValue)>, n: int)
    requires
        crate::props::keys_distinct(e),
        props_self_same(e),
        0 <= n <= e.len(),
    ensures
        changed_props_seq(id, e, e, n) == Seq::<Mutation>::empty(),
    decreases n,
{
    if n > 0 {
        lemma_changed_props_self(id, e, n - 1);
        let k = e[n - 1].0;
        assert(has_key(e, k));
        let j = crate::props::key_index(e, k);
        assert(j == n - 1);
        assert(prop_value_same(e[n - 1].1, e[n - 1].1));
    }
}

/// Diffing a well-formed tree whose property values equal themselves against itself
/// yields no mutation.
pub proof fn lemma_diff_self_is_empty(node: CanonicalNode)
    requires
        node.wf(),
        tree_self_same(node),
    ensures
        diff_seq(node, node) == Seq::<Mutation>::empty(),
    decreases node, 1int,
{
    node.lemma_children_smaller();
    assert(!spec_props_removed(node, node)) by {
        assert forall|i: int| 0 <= i < node.props@.len() implies has_key(
            node.props@,
            #[trigger] node.props@[i].0,
        ) by {}
    }
    let text_part: Seq<Mutation> = if text_differs(node.text, node.text) && node.text is Some {
        seq![Mutation::SetText { id: node.id, text: node.text->0 }]
    } else {
        Seq::empty()
    };
    assert(text_part == Seq::<Mutation>::empty());
    lemma_changed_props_self(node.id, node.props@, node.props@.len() as int);
    let kids = node.children@;
    lemma_kids_wf(kids, kids.len() as int);
    lemma_shared_self(node, kids.len() as int);
    assert(kids.subrange(kids.len() as int, kids.len() as int) =~= Seq::<CanonicalNode>::empty());
    assert(removals_seq(kids, kids.len() as int) =~= Seq::<Mutation>::empty());
    assert(kept_diff_seq(node, node) =~= Seq::<Mutation>::empty());
}

/// The diffs of the first `n` children of `node` against themselves are empty.
proof fn lemma_shared_self(node: CanonicalNode, n: int)
    requires
        node.wf(),
        tree_self_same(node),
        0 <= n <= node.children@.len(),
    ensures
        shared_diff_seq(node.children@, node.children@, n) == Seq::<Mutation>::empty(),
    decreases node, 0int, n,
{
    let kids = node.children@;
    if n > 0 {
        node.lemma_children_smaller();
        lemma_shared_self(node, n - 1);
        lemma_kids_wf(kids, kids.len() as int);
        lemma_kids_self_same(kids, kids.len() as int);
        assert(decreases_to!(node => kids[n - 1]));
        lemma_diff_self_is_empty(kids[n - 1]);
    }
}

/// Every one of the first `n` nodes of `kids` has self-equal property values in its subtree.
pub proof fn lemma_kids_self_same(kids: Seq<CanonicalNode>, n: int)
    requires
        0 <= n <= kids.len(),
        kids_self_same(kids, n),
    ensures
        forall|i: int| 0 <= i < n ==> tree_self_same(#[trigger] kids[i]),
    decreases n,
{
    if n > 0 {
        lemma_kids_self_same(kids, n - 1);
    }
}

/// When the kind changes, the diff starts by replacing the old node with the new one.
pub proof fn lemma_kind_change_replaces(previous: CanonicalNode, next: CanonicalNode)
    requires
        previous.descriptor != next.descriptor,
    ensures
        diff_seq(previous, next).len() > 0,
        diff_seq(previous, next)[0] == spec_replace_mutation(previous.id, next),
{
}

/// Creating a subtree starts by creating its root.
pub proof fn lemma_create_starts_with_root(node: CanonicalNode)
    ensures
        create_seq(node).len() > 0,
        create_seq(node)[0] == create_mutation(node),
{
}

/// The number of nodes in the subtree of `node`.
pub open spec fn tree_size(node: CanonicalNode) -> nat
    decreases node, 0int,
{
    1 + {
        proof {
            node.lemma_children_smaller();
        }
        kids_size(node.children@, node.children@.len() as int)
    }
}

/// The number of nodes in the subtrees of the first `n` nodes of `kids`.
pub open spec fn kids_size(kids: Seq<CanonicalNode>, n: int) -> nat
    decreases kids, n,
{
    if 0 < n <= kids.len() {
        kids_size(kids, n - 1) + tree_size(kids[n - 1])
    } else {
        0
    }
}

/// The number of nodes of the subtree, or `u64::MAX` if there are more.
pub fn node_count(node: &CanonicalNode) -> (r: u64)
    ensures
        r == if tree_size(*node) < u64::MAX {
            tree_size(*node)
        } else {
            u64::MAX as nat
        },
    decreases *node,
{
    proof {
        node.lemma_children_smaller();
    }
    let ghost kids = node.children@;
    let mut total: u64 = 1;
    let mut i: usize = 0;
    while i < node.children.len()
        invariant
            i <= kids.len(),
            kids == node.children@,
            forall|j: int| 0 <= j < kids.len() ==> decreases_to!(*node => #[trigger] kids[j]),
            total == if 1 + kids_size(kids, i as int) < u64::MAX {
                1 + kids_size(kids, i as int)
            } else {
                u64::MAX as nat
            },
        decreases kids.len() - i,
    {
        proof {
            assert(decreases_to!(*node => kids[i as int]));
        }
        let c = node_count(&node.children[i]);
        total = total.saturating_add(c);
        i = i + 1;
    }
    total
}

/// Whether the subtree is well formed (see `wf`).
pub fn is_well_formed(node: &CanonicalNode) -> (r: bool)
    ensures
        r == node.wf(),
    decreases *node,
{
    proof {
        node.lemma_children_smaller();
    }
    if node.descriptor == NodeDescriptor::Text && node.text.is_none() {
        return false;
    }
    if !node.props.keys_are_distinct() {
        return false;
    }
    let ghost kids = node.children@;
    let mut i: usize = 0;
    while i < node.children.len()
        invariant
            i <= kids.len(),
            kids == node.children@,
            forall|j: int| 0 <= j < kids.len() ==> decreases_to!(*node => #[trigger] kids[j]),
            kids_wf(kids, i as int),
        decreases kids.len() - i,
    {
        proof {
            assert(decreases_to!(*node => kids[i as int]));
        }
        if !is_well_formed(&node.children[i]) {
            proof {
                lemma_kids_wf_prefix(kids, i as int + 1, kids.len() as int);
            }
            return false;
        }
        i = i + 1;
    }
    true
}

/// Well-formedness of a longer prefix gives that of a shorter one.
proof fn lemma_kids_wf_prefix(kids: Seq<CanonicalNode>, a: int, b: int)
    requires
        0 < a <= b <= kids.len(),
        !kids[a - 1].wf(),
    ensures
        !kids_wf(kids, b),
    decreases b - a,
{
    if a < b {
        lemma_kids_wf_prefix(kids, a, b - 1);
    }
}

/// The listener mutation for `event` on the node `id`.
pub open spec fn attach(id: UiNodeId, event: EventKind) -> Mutation {
    Mutation::AttachEventListener { id, event }
}

/// How many of its three handlers a node has.
pub open spec fn handler_count(node: CanonicalNode) -> int {
    (if node.tap_handler {
        1int
    } else {
        0int
    }) + (if node.input_handler {
        1int
    } else {
        0int
    }) + (if node.focus_change_handler {
        1int
    } else {
        0int
    })
}

/// Mounting a node attaches exactly one listener per handler it has, on its own id: a tap
/// listener for a tap handler, a text-input listener for an input handler and a
/// focus-change listener for a focus handler, and no other. Its creation and its
/// replacement payload both carry them.
pub proof fn lemma_mount_attaches_a_listener_per_handler(node: CanonicalNode)
    ensures
        listeners_seq(node).len() == handler_count(node),
        forall|i: int|
            0 <= i < listeners_seq(node).len() ==> exists|e: EventKind|
                #[trigger] listeners_seq(node)[i] == attach(node.id, e),
        node.tap_handler <==> listeners_seq(node).contains(
            attach(node.id, EventKind::Tap),
        ),
        node.input_handler <==> listeners_seq(node).contains(
            attach(node.id, EventKind::TextInput),
        ),
        node.focus_change_handler <==> listeners_seq(node).contains(
            attach(node.id, EventKind::FocusChanged),
        ),
        forall|e: EventKind|
            #![trigger attach(node.id, e)]
            listeners_seq(node).contains(attach(node.id, e))
                ==> create_seq(node).contains(attach(node.id, e))
                && replace_payload(node).contains(
                attach(node.id, e),
            ),
{
    let t = attach(node.id, EventKind::Tap);
    let x = attach(node.id, EventKind::TextInput);
    let f = attach(node.id, EventKind::FocusChanged);
    let a: Seq<Mutation> = if node.tap_handler { seq![t] } else { Seq::empty() };
    let b: Seq<Mutation> = if node.input_handler { seq![x] } else { Seq::empty() };
    let c: Seq<Mutation> = if node.focus_change_handler { seq![f] } else { Seq::empty() };
    let l = listeners_seq(node);
    assert(l =~= a + b + c);
    assert forall|i: int| 0 <= i < l.len() implies exists|e: EventKind|
        #[trigger] l[i] == attach(node.id, e) by {
        if i < a.len() {
            assert(l[i] == t);
        } else if i < a.len() + b.len() {
            assert(l[i] == x);
        } else {
            assert(l[i] == f);
        }
    }
    if node.tap_handler {
        assert(l[0] == t);
    }
    if node.input_handler {
        assert(l[a.len() as int] == x);
    }
    if node.focus_change_handler {
        assert(l[(a.len() + b.len()) as int] == f);
    }
    if l.contains(t) {
        let i = choose|i: int| 0 <= i < l.len() && l[i] == t;
        if !node.tap_handler {
            if i < a.len() + b.len() {
                assert(l[i] == x);
            } else {
                assert(l[i] == f);
            }
        }
    }
    if l.contains(x) {
        let i = choose|i: int| 0 <= i < l.len() && l[i] == x;
        if !node.input_handler {
            if i < a.len() {
                assert(l[i] == t);
            } else {
                assert(l[i] == f);
            }
        }
    }
    if l.contains(f) {
        let i = choose|i: int| 0 <= i < l.len() && l[i] == f;
        if !node.focus_change_handler {
            if i < a.len() {
                assert(l[i] == t);
            } else {
                assert(l[i] == x);
            }
        }
    }
    let head_pre = seq![create_mutation(node)] + (if node.descriptor == NodeDescriptor::Text {
        Seq::empty()
    } else {
        text_seq(node)
    }) + props_seq(node.id, node.props@);
    assert(create_head(node) =~= head_pre + l);
    let kids = kids_create_seq(node.id, node.children@, 0, node.children@.len() as int);
    let pay_pre = text_seq(node) + props_seq(node.id, node.props@);
    assert(replace_payload(node) =~= pay_pre + l + kids);
    assert forall|e: EventKind|
        #![trigger attach(node.id, e)]
        l.contains(attach(node.id, e)) implies create_seq(
        node,
    ).contains(attach(node.id, e)) && replace_payload(
        node,
    ).contains(attach(node.id, e)) by {
        let m = attach(node.id, e);
        let i = choose|i: int| 0 <= i < l.len() && l[i] == m;
        node.lemma_children_smaller();
        assert(create_seq(node) == create_head(node) + kids);
        assert(create_seq(node)[head_pre.len() + i] == m);
        assert(replace_payload(node)[pay_pre.len() + i] == m);
    }
}

} // verus!
