//! The render state of the virtual tree: it gives draft trees their node ids, keeping the
//! id of every node that keeps its kind, decides the mutations and the layout a render
//! sends, and routes taps to the nodes that have a tap handler.

use vstd::prelude::*;
use crate::backend::{Backend, BackendError};
use crate::events::UiEvent;
use crate::layout::{frame_same, LayoutFrame};
use crate::mutation::{Mutation, ProtocolVersion, UiNodeId};
use crate::vdom::{
    changed_props_seq, create_seq, diff_node, diff_seq, emit_create_subtree, is_well_formed,
    kept_diff_seq, kids_create_seq, kids_self_same, kids_size, kids_wf, lemma_changed_props_self,
    lemma_kids_self_same, lemma_kids_wf, node_count, removals_seq, shared_diff_seq,
    spec_props_removed, text_differs, tree_self_same, tree_size, CanonicalNode,
};

verus! {

/// What one render sends to the renderer.
pub struct RenderBatch {
    pub protocol_version: ProtocolVersion,
    pub mutations: Vec<Mutation>,
    pub layout: Vec<LayoutFrame>,
}

impl Default for RenderBatch {
    fn default() -> (r: Self)
        ensures
            r.protocol_version == ProtocolVersion::V1,
            r.mutations@.len() == 0,
            r.layout@.len() == 0,
    {
        RenderBatch { protocol_version: ProtocolVersion::V1, mutations: Vec::new(), layout: Vec::new() }
    }
}

/// The previous node that the draft `draft` may keep the id of: `prev`, when it has the
/// same kind.
pub open spec fn reuses(prev: Option<CanonicalNode>, draft: CanonicalNode) -> bool {
    prev matches Some(p) && p.descriptor == draft.descriptor
}

/// The previous children that the children of `draft` are matched against.
pub open spec fn prior_children(prev: Option<CanonicalNode>, draft: CanonicalNode) -> Seq<
    CanonicalNode,
> {
    if reuses(prev, draft) {
        prev->0.children@
    } else {
        Seq::empty()
    }
}

/// The previous child at position `i`, when it has the kind of `draft`.
pub open spec fn prior_at(prior: Seq<CanonicalNode>, i: int, draft: CanonicalNode) -> Option<
    CanonicalNode,
> {
    if 0 <= i < prior.len() && prior[i].descriptor == draft.descriptor {
        Some(prior[i])
    } else {
        None
    }
}

/// How many fresh ids building `draft` against `prev` takes.
pub open spec fn fresh_needed(prev: Option<CanonicalNode>, draft: CanonicalNode) -> nat
    decreases draft, 0int,
{
    (if reuses(prev, draft) {
        0nat
    } else {
        1nat
    }) + {
        proof {
            draft.lemma_children_smaller();
        }
        kids_fresh(prior_children(prev, draft), draft.children@, draft.children@.len() as int)
    }
}

/// How many fresh ids building the first `n` drafts takes.
pub open spec fn kids_fresh(prior: Seq<CanonicalNode>, drafts: Seq<CanonicalNode>, n: int) -> nat
    decreases drafts, n,
{
    if 0 < n <= drafts.len() {
        kids_fresh(prior, drafts, n - 1) + fresh_needed(
            prior_at(prior, n - 1, drafts[n - 1]),
            drafts[n - 1],
        )
    } else {
        0
    }
}

/// `result` is `draft` with ids given from `start` on: a node keeps the id of the previous
/// node at its place when their kinds agree, and takes the next fresh id otherwise, in
/// preorder.
pub open spec fn built(prev: Option<CanonicalNode>, draft: CanonicalNode, result: CanonicalNode, start: int) -> bool
    decreases draft, 0int,
{
    &&& result.id == if reuses(prev, draft) {
        prev->0.id as int
    } else {
        start
    }
    &&& result.descriptor == draft.descriptor
    &&& result.props == draft.props
    &&& result.text == draft.text
    &&& result.tap_handler == draft.tap_handler
    &&& result.input_handler == draft.input_handler
    &&& result.focus_change_handler == draft.focus_change_handler
    &&& result.children@.len() == draft.children@.len()
    &&& {
        proof {
            draft.lemma_children_smaller();
        }
        kids_built(
            prior_children(prev, draft),
            draft.children@,
            result.children@,
            draft.children@.len() as int,
            if reuses(prev, draft) {
                start
            } else {
                start + 1
            },
        )
    }
}

/// The first `n` of `results` are the first `n` drafts built from `start` on, in order.
pub open spec fn kids_built(
    prior: Seq<CanonicalNode>,
    drafts: Seq<CanonicalNode>,
    results: Seq<CanonicalNode>,
    n: int,
    start: int,
) -> bool
    decreases drafts, n,
{
    if 0 < n <= drafts.len() {
        kids_built(prior, drafts, results, n - 1, start) && built(
            prior_at(prior, n - 1, drafts[n - 1]),
            drafts[n - 1],
            results[n - 1],
            start + kids_fresh(prior, drafts, n - 1),
        )
    } else {
        true
    }
}

/// The ids of the nodes of the subtree of `node` that have a tap handler, in preorder.
pub open spec fn tap_ids(node: CanonicalNode) -> Seq<UiNodeId>
    decreases node, 0int,
{
    (if node.tap_handler {
        seq![node.id]
    } else {
        Seq::empty()
    }) + {
        proof {
            node.lemma_children_smaller();
        }
        kids_tap_ids(node.children@, node.children@.len() as int)
    }
}

/// The tap ids of the subtrees of the first `n` nodes of `kids`, in order.
pub open spec fn kids_tap_ids(kids: Seq<CanonicalNode>, n: int) -> Seq<UiNodeId>
    decreases kids, n,
{
    if 0 < n <= kids.len() {
        kids_tap_ids(kids, n - 1) + tap_ids(kids[n - 1])
    } else {
        Seq::empty()
    }
}

/// Appends the ids of the nodes with a tap handler in the subtree of `node`, in preorder.
fn collect_tap_handlers(node: &CanonicalNode, out: &mut Vec<UiNodeId>)
    ensures
        final(out)@ == old(out)@ + tap_ids(*node),
    decreases *node,
{
    let ghost start = out@;
    if node.tap_handler {
        out.push(node.id);
    }
    let ghost after_own = out@;
    proof {
        node.lemma_children_smaller();
    }
    let ghost kids = node.children@;
    let mut i: usize = 0;
    while i < node.children.len()
        invariant
            i <= kids.len(),
            kids == node.children@,
            forall|j: int| 0 <= j < kids.len() ==> decreases_to!(*node => #[trigger] kids[j]),
            out@ == after_own + kids_tap_ids(kids, i as int),
        decreases kids.len() - i,
    {
        proof {
            assert(decreases_to!(*node => kids[i as int]));
        }
        collect_tap_handlers(&node.children[i], out);
        proof {
            assert(out@ =~= after_own + kids_tap_ids(kids, i + 1));
        }
        i = i + 1;
    }
    assert(out@ =~= start + tap_ids(*node));
}

/// Two layouts hold the same frames, field by field under IEEE-754 comparison.
pub open spec fn layouts_same(a: Seq<LayoutFrame>, b: Seq<LayoutFrame>) -> bool {
    a.len() == b.len() && forall|i: int| 0 <= i < a.len() ==> frame_same(#[trigger] a[i], b[i])
}

/// Whether `a` and `b` hold the same frames.
fn same_layout(a: &Vec<LayoutFrame>, b: &Vec<LayoutFrame>) -> (r: bool)
    ensures
        r == layouts_same(a@, b@),
{
    if a.len() != b.len() {
        return false;
    }
    let mut i: usize = 0;
    while i < a.len()
        invariant
            i <= a@.len(),
            a@.len() == b@.len(),
            forall|j: int| 0 <= j < i ==> frame_same(#[trigger] a@[j], b@[j]),
        decreases a@.len() - i,
    {
        if !a[i].same_value(&b[i]) {
            return false;
        }
        i = i + 1;
    }
    true
}

/// A copy of a list of frames.
fn copy_frames(v: &Vec<LayoutFrame>) -> (r: Vec<LayoutFrame>)
    ensures
        r@ == v@,
{
    let mut r: Vec<LayoutFrame> = Vec::new();
    let mut i: usize = 0;
    while i < v.len()
        invariant
            i <= v@.len(),
            r@ == v@.take(i as int),
        decreases v@.len() - i,
    {
        r.push(v[i]);
        i = i + 1;
        assert(r@ =~= v@.take(i as int));
    }
    assert(v@.take(v@.len() as int) =~= v@);
    r
}

/// The render state: the tree and layout sent last, the next fresh id, the nodes that
/// have a tap handler, and whether the next render starts over.
pub struct VdomRuntime {
    current: Option<CanonicalNode>,
    current_layout: Vec<LayoutFrame>,
    next_id: UiNodeId,
    tap_handlers: Vec<UiNodeId>,
    force_full_resync: bool,
}

impl VdomRuntime {
    pub closed spec fn spec_next_id(&self) -> UiNodeId {
        self.next_id
    }

    pub closed spec fn spec_force(&self) -> bool {
        self.force_full_resync
    }

    pub closed spec fn spec_current(&self) -> Option<CanonicalNode> {
        self.current
    }

    pub closed spec fn spec_layout(&self) -> Seq<LayoutFrame> {
        self.current_layout@
    }

    pub closed spec fn spec_taps(&self) -> Seq<UiNodeId> {
        self.tap_handlers@
    }

    /// The tree sent last is well formed, and the tap handlers are those of its nodes.
    pub open spec fn wf(&self) -> bool {
        match self.spec_current() {
            Some(c) => c.wf() && self.spec_taps() == tap_ids(c),
            None => self.spec_taps().len() == 0,
        }
    }

    /// The tree that the next render compares against.
    pub open spec fn spec_previous(&self) -> Option<CanonicalNode> {
        if self.spec_force() {
            None
        } else {
            self.spec_current()
        }
    }

    /// A runtime that has rendered nothing; ids start at 1.
    pub fn new() -> (r: Self)
        ensures
            r.wf(),
            r.spec_next_id() == 1,
            !r.spec_force(),
            r.spec_current() is None,
            r.spec_layout().len() == 0,
    {
        VdomRuntime {
            current: None,
            current_layout: Vec::new(),
            next_id: 1,
            tap_handlers: Vec::new(),
            force_full_resync: false,
        }
    }

    /// The next render starts over: it creates the whole tree and sends the whole layout.
    pub fn request_full_resync(&mut self)
        ensures
            final(self).spec_force(),
            final(self).spec_next_id() == old(self).spec_next_id(),
            final(self).spec_current() == old(self).spec_current(),
            final(self).spec_layout() == old(self).spec_layout(),
            final(self).spec_taps() == old(self).spec_taps(),
    {
        self.force_full_resync = true;
    }

    /// How many fresh ids are left.
    pub fn fresh_ids_left(&self) -> (r: u32)
        ensures
            r == u32::MAX - self.spec_next_id(),
    {
        u32::MAX - self.next_id
    }

    /// Gives the draft tree its ids against the tree that the next render compares
    /// against (see `built`); no draft, no tree.
    pub fn build_root(&mut self, draft: Option<CanonicalNode>) -> (r: Option<CanonicalNode>)
        requires
            old(self).wf(),
            draft matches Some(d) ==> d.wf() && old(self).spec_next_id() + tree_size(d)
                <= u32::MAX,
        ensures
            final(self).wf(),
            final(self).spec_force() == old(self).spec_force(),
            final(self).spec_current() == old(self).spec_current(),
            final(self).spec_layout() == old(self).spec_layout(),
            final(self).spec_taps() == old(self).spec_taps(),
            draft is None ==> r is None && final(self).spec_next_id() == old(self).spec_next_id(),
            draft matches Some(d) ==> r matches Some(n) && n.wf() && built(
                old(self).spec_previous(),
                d,
                n,
                old(self).spec_next_id() as int,
            ) && final(self).spec_next_id() == old(self).spec_next_id() + fresh_needed(
                old(self).spec_previous(),
                d,
            ),
    {
        match draft {
            None => None,
            Some(d) => {
                let previous = if self.force_full_resync {
                    None
                } else {
                    self.current.as_ref()
                };
                proof {
                    lemma_fresh_within_size(self.spec_previous(), d);
                }
                let mut counter = self.next_id;
                let n = build_node(&mut counter, previous, d);
                self.next_id = counter;
                proof {
                    lemma_built_wf(old(self).spec_previous(), d, n, old(self).next_id as int);
                }
                Some(n)
            },
        }
    }

    /// Sends the tree `next`, given its layout: creates it when there is nothing to compare
    /// against, else the diff from the tree sent last; the layout goes along when it
    /// changed or the render starts over. No tree clears the state and sends nothing.
    pub fn render(&mut self, next: Option<CanonicalNode>, next_layout: Vec<LayoutFrame>) -> (r:
        RenderBatch)
        requires
            old(self).wf(),
            next matches Some(n) ==> n.wf(),
        ensures
            final(self).wf(),
            r.protocol_version == ProtocolVersion::V1,
            !final(self).spec_force(),
            final(self).spec_next_id() == old(self).spec_next_id(),
            final(self).spec_current() == next,
            next is None ==> r.mutations@.len() == 0 && r.layout@.len() == 0
                && final(self).spec_layout().len() == 0,
            next matches Some(n) ==> {
                &&& r.mutations@ == match old(self).spec_previous() {
                    None => create_seq(n),
                    Some(p) => diff_seq(p, n),
                }
                &&& r.layout@ == if old(self).spec_force() || !layouts_same(
                    old(self).spec_layout(),
                    next_layout@,
                ) {
                    next_layout@
                } else {
                    Seq::empty()
                }
                &&& final(self).spec_layout() == next_layout@
            },
    {
        match next {
            None => {
                self.current = None;
                self.current_layout = Vec::new();
                self.tap_handlers = Vec::new();
                self.force_full_resync = false;
                RenderBatch::default()
            },
            Some(n) => {
                let mut mutations: Vec<Mutation> = Vec::new();
                let previous = if self.force_full_resync {
                    None
                } else {
                    self.current.as_ref()
                };
                match previous {
                    None => emit_create_subtree(&n, &mut mutations),
                    Some(p) => diff_node(p, &n, &mut mutations),
                }
                let layout_changed = self.force_full_resync || !same_layout(
                    &self.current_layout,
                    &next_layout,
                );
                let mut taps: Vec<UiNodeId> = Vec::new();
                collect_tap_handlers(&n, &mut taps);
                proof {
                    assert(taps@ =~= tap_ids(n));
                }
                self.tap_handlers = taps;
                self.current = Some(n);
                self.current_layout = copy_frames(&next_layout);
                self.force_full_resync = false;
                RenderBatch {
                    protocol_version: ProtocolVersion::V1,
                    mutations,
                    layout: if layout_changed {
                        next_layout
                    } else {
                        Vec::new()
                    },
                }
            },
        }
    }

    /// The node whose tap handler `event` calls for: a tap on a node that has one.
    pub fn dispatch_event(&self, event: &UiEvent) -> (r: Option<UiNodeId>)
        ensures
            r == match event {
                UiEvent::Tap { id } => if self.spec_taps().contains(*id) {
                    Some(*id)
                } else {
                    None
                },
                _ => None,
            },
    {
        match event {
            UiEvent::Tap { id } => {
                let mut i: usize = 0;
                while i < self.tap_handlers.len()
                    invariant
                        i <= self.tap_handlers@.len(),
                        *event == (UiEvent::Tap { id: *id }),
                        forall|j: int| 0 <= j < i ==> self.tap_handlers@[j] != *id,
                    decreases self.tap_handlers@.len() - i,
                {
                    if self.tap_handlers[i] == *id {
                        proof {
                            assert(self.tap_handlers@[i as int] == *id);
                            assert(self.spec_taps().contains(*id));
                        }
                        return Some(*id);
                    }
                    i = i + 1;
                }
                None
            },
            _ => None,
        }
    }
}

fn build_node(next_id: &mut UiNodeId, previous: Option<&CanonicalNode>, draft: CanonicalNode) -> (r:
    CanonicalNode)
    requires
        *old(next_id) + fresh_needed(
            match previous {
                Some(p) => Some(*p),
                None => None,
            },
            draft,
        ) <= u32::MAX,
    ensures
        built(
            match previous {
                Some(p) => Some(*p),
                None => None,
            },
            draft,
            r,
            *old(next_id) as int,
        ),
        *final(next_id) == *old(next_id) + fresh_needed(
            match previous {
                Some(p) => Some(*p),
                None => None,
            },
            draft,
        ),
    decreases draft,
{
    let ghost prev = match previous {
        Some(p) => Some(*p),
        None => None,
    };
    let ghost start = *next_id as int;
    let reuse = match previous {
        Some(p) => p.descriptor == draft.descriptor,
        None => false,
    };
    proof {
        draft.lemma_children_smaller();
    }
    let id = if reuse {
        previous.unwrap().id
    } else {
        let fresh = *next_id;
        *next_id = fresh + 1;
        fresh
    };
    let ghost drafts = draft.children@;
    let ghost prior = prior_children(prev, draft);
    let ghost first = *next_id as int;
    let CanonicalNode {
        id: _,
        descriptor,
        props,
        text,
        tap_handler,
        input_handler,
        focus_change_handler,
        children: mut rest,
    } = draft;
    let n = rest.len();
    let mut children: Vec<CanonicalNode> = Vec::new();
    let mut i: usize = 0;
    while i < n
        invariant
            i <= n,
            n == drafts.len(),
            rest@ == drafts.subrange(i as int, n as int),
            children@.len() == i,
            forall|j: int| 0 <= j < drafts.len() ==> decreases_to!(draft => #[trigger] drafts[j]),
            kids_built(prior, drafts, children@, i as int, first),
            *next_id == first + kids_fresh(prior, drafts, i as int),
            first + kids_fresh(prior, drafts, n as int) <= u32::MAX,
            prior == prior_children(prev, draft),
            reuse == reuses(prev, draft),
            prev == match previous {
                Some(p) => Some(*p),
                None => None,
            },
        decreases n - i,
    {
        let child_draft = rest.remove(0);
        proof {
            assert(child_draft == drafts[i as int]);
            lemma_kids_fresh_mono(prior, drafts, i + 1, n as int);
        }
        let prior_child = if reuse {
            match previous {
                Some(p) => if i < p.children.len() && p.children[i].descriptor
                    == child_draft.descriptor {
                    Some(&p.children[i])
                } else {
                    None
                },
                None => None,
            }
        } else {
            None
        };
        proof {
            assert(decreases_to!(draft => drafts[i as int]));
        }
        let child = build_node(next_id, prior_child, child_draft);
        let ghost before = children@;
        children.push(child);
        proof {
            assert(children@.subrange(0, i as int) =~= before);
            lemma_kids_built_extend(prior, drafts, before, children@, i as int, first);
            assert(rest@ =~= drafts.subrange(i + 1, n as int));
        }
        i = i + 1;
    }
    CanonicalNode {
        id,
        descriptor,
        props,
        text,
        tap_handler,
        input_handler,
        focus_change_handler,
        children,
    }
}

/// Fresh ids only add up.
proof fn lemma_kids_fresh_mono(prior: Seq<CanonicalNode>, drafts: Seq<CanonicalNode>, a: int, b: int)
    requires
        0 <= a <= b <= drafts.len(),
    ensures
        kids_fresh(prior, drafts, a) <= kids_fresh(prior, drafts, b),
    decreases b - a,
{
    if a < b {
        lemma_kids_fresh_mono(prior, drafts, a, b - 1);
    }
}

/// Building one more child extends the built prefix.
proof fn lemma_kids_built_extend(
    prior: Seq<CanonicalNode>,
    drafts: Seq<CanonicalNode>,
    before: Seq<CanonicalNode>,
    after: Seq<CanonicalNode>,
    i: int,
    start: int,
)
    requires
        0 <= i < drafts.len(),
        after.len() == i + 1,
        after.subrange(0, i) == before,
        kids_built(prior, drafts, before, i, start),
        built(
            prior_at(prior, i, drafts[i]),
            drafts[i],
            after[i],
            start + kids_fresh(prior, drafts, i),
        ),
    ensures
        kids_built(prior, drafts, after, i + 1, start),
{
    lemma_kids_built_prefix(prior, drafts, before, after, i, start);
}

/// `kids_built` looks only at the first `n` results.
proof fn lemma_kids_built_prefix(
    prior: Seq<CanonicalNode>,
    drafts: Seq<CanonicalNode>,
    a: Seq<CanonicalNode>,
    b: Seq<CanonicalNode>,
    n: int,
    start: int,
)
    requires
        0 <= n <= a.len(),
        n <= b.len(),
        n <= drafts.len(),
        forall|j: int| 0 <= j < n ==> a[j] == b[j],
        kids_built(prior, drafts, a, n, start),
    ensures
        kids_built(prior, drafts, b, n, start),
    decreases n,
{
    if n > 0 {
        lemma_kids_built_prefix(prior, drafts, a, b, n - 1, start);
    }
}

/// Building takes at most one fresh id per node.
pub proof fn lemma_fresh_within_size(prev: Option<CanonicalNode>, draft: CanonicalNode)
    ensures
        fresh_needed(prev, draft) <= tree_size(draft),
    decreases draft, 1int,
{
    draft.lemma_children_smaller();
    lemma_kids_fresh_within_size(
        prior_children(prev, draft),
        draft,
        draft.children@.len() as int,
    );
}

proof fn lemma_kids_fresh_within_size(prior: Seq<CanonicalNode>, parent: CanonicalNode, n: int)
    requires
        0 <= n <= parent.children@.len(),
    ensures
        kids_fresh(prior, parent.children@, n) <= kids_size(parent.children@, n),
    decreases parent, 0int, n,
{
    if n > 0 {
        let drafts = parent.children@;
        parent.lemma_children_smaller();
        lemma_kids_fresh_within_size(prior, parent, n - 1);
        assert(decreases_to!(parent => drafts[n - 1]));
        lemma_fresh_within_size(prior_at(prior, n - 1, drafts[n - 1]), drafts[n - 1]);
    }
}

/// Building a well-formed draft gives a well-formed tree.
pub proof fn lemma_built_wf(
    prev: Option<CanonicalNode>,
    draft: CanonicalNode,
    result: CanonicalNode,
    start: int,
)
    requires
        draft.wf(),
        built(prev, draft, result, start),
    ensures
        result.wf(),
    decreases draft, 1int,
{
    draft.lemma_children_smaller();
    result.lemma_children_smaller();
    lemma_kids_built_wf(
        prior_children(prev, draft),
        draft,
        result.children@,
        draft.children@.len() as int,
        if reuses(prev, draft) {
            start
        } else {
            start + 1
        },
    );
}

proof fn lemma_kids_built_wf(
    prior: Seq<CanonicalNode>,
    parent: CanonicalNode,
    results: Seq<CanonicalNode>,
    n: int,
    start: int,
)
    requires
        0 <= n <= parent.children@.len(),
        results.len() == parent.children@.len(),
        kids_wf(parent.children@, n),
        kids_built(prior, parent.children@, results, n, start),
    ensures
        kids_wf(results, n),
    decreases parent, 0int, n,
{
    if n > 0 {
        let drafts = parent.children@;
        parent.lemma_children_smaller();
        lemma_kids_built_wf(prior, parent, results, n - 1, start);
        assert(decreases_to!(parent => drafts[n - 1]));
        lemma_built_wf(
            prior_at(prior, n - 1, drafts[n - 1]),
            drafts[n - 1],
            results[n - 1],
            start + kids_fresh(prior, drafts, n - 1),
        );
    }
}

/// Two trees hold the same content, node for node, whatever their ids.
pub open spec fn same_content(a: CanonicalNode, b: CanonicalNode) -> bool
    decreases a, 0int,
{
    &&& a.descriptor == b.descriptor
    &&& a.props == b.props
    &&& a.text == b.text
    &&& a.tap_handler == b.tap_handler
    &&& a.input_handler == b.input_handler
    &&& a.focus_change_handler == b.focus_change_handler
    &&& a.children@.len() == b.children@.len()
    &&& {
        proof {
            a.lemma_children_smaller();
        }
        kids_same_content(a.children@, b.children@, a.children@.len() as int)
    }
}

/// The first `n` trees of `a` and `b` hold the same content, pairwise.
pub open spec fn kids_same_content(a: Seq<CanonicalNode>, b: Seq<CanonicalNode>, n: int) -> bool
    decreases a, n,
{
    if 0 < n <= a.len() {
        kids_same_content(a, b, n - 1) && same_content(a[n - 1], b[n - 1])
    } else {
        true
    }
}

/// Rendering again a draft with the content of the tree sent last keeps every id and sends
/// no mutation (when every property value equals itself).
pub proof fn lemma_rerender_unchanged(
    current: CanonicalNode,
    draft: CanonicalNode,
    next: CanonicalNode,
    start: int,
)
    requires
        current.wf(),
        tree_self_same(current),
        same_content(current, draft),
        built(Some(current), draft, next, start),
    ensures
        next.id == current.id,
        diff_seq(current, next) == Seq::<Mutation>::empty(),
    decreases current, 1int,
{
    current.lemma_children_smaller();
    let ck = current.children@;
    let nk = next.children@;
    assert(reuses(Some(current), draft));
    assert(next.props == current.props);
    assert(!spec_props_removed(current, next)) by {
        assert forall|i: int| 0 <= i < current.props@.len() implies crate::props::has_key(
            next.props@,
            #[trigger] current.props@[i].0,
        ) by {}
    }
    assert(!text_differs(current.text, next.text)) by {
        match current.text {
            Some(t) => {
                assert(next.text == Some(t));
            },
            None => {},
        }
    }
    lemma_changed_props_self(next.id, current.props@, current.props@.len() as int);
    lemma_kids_wf(ck, ck.len() as int);
    lemma_kids_self_same(ck, ck.len() as int);
    lemma_kids_rerender(current, draft, next, ck.len() as int, start);
    assert(ck.subrange(ck.len() as int, ck.len() as int) =~= Seq::<CanonicalNode>::empty());
    assert(removals_seq(ck, ck.len() as int) =~= Seq::<Mutation>::empty());
    assert(kids_create_seq(next.id, nk, ck.len() as int, nk.len() as int) =~= Seq::<Mutation>::empty());
    assert(kept_diff_seq(current, next) =~= Seq::<Mutation>::empty());
}

/// The first `k` children of an unchanged re-render diff to nothing.
proof fn lemma_kids_rerender(
    current: CanonicalNode,
    draft: CanonicalNode,
    next: CanonicalNode,
    k: int,
    start: int,
)
    requires
        0 <= k <= current.children@.len(),
        current.wf(),
        tree_self_same(current),
        same_content(current, draft),
        built(Some(current), draft, next, start),
    ensures
        shared_diff_seq(current.children@, next.children@, k) == Seq::<Mutation>::empty(),
    decreases current, 0int, k,
{
    if k > 0 {
        let ck = current.children@;
        let dk = draft.children@;
        let nk = next.children@;
        current.lemma_children_smaller();
        lemma_kids_rerender(current, draft, next, k - 1, start);
        lemma_kids_wf(ck, ck.len() as int);
        lemma_kids_self_same(ck, ck.len() as int);
        lemma_kids_same_content_at(ck, dk, ck.len() as int, k - 1);
        lemma_kids_built_at(ck, dk, nk, dk.len() as int, start, k - 1);
        assert(prior_at(ck, k - 1, dk[k - 1]) == Some(ck[k - 1]));
        assert(decreases_to!(current => ck[k - 1]));
        lemma_rerender_unchanged(ck[k - 1], dk[k - 1], nk[k - 1], start + kids_fresh(ck, dk, k - 1));
    }
}

/// The pair at `i` of trees with the same content has the same content.
proof fn lemma_kids_same_content_at(a: Seq<CanonicalNode>, b: Seq<CanonicalNode>, n: int, i: int)
    requires
        0 <= i < n <= a.len(),
        kids_same_content(a, b, n),
    ensures
        same_content(a[i], b[i]),
    decreases n,
{
    if i < n - 1 {
        lemma_kids_same_content_at(a, b, n - 1, i);
    }
}

/// The child at `i` of a built list is built.
proof fn lemma_kids_built_at(
    prior: Seq<CanonicalNode>,
    drafts: Seq<CanonicalNode>,
    results: Seq<CanonicalNode>,
    n: int,
    start: int,
    i: int,
)
    requires
        0 <= i < n <= drafts.len(),
        kids_built(prior, drafts, results, n, start),
    ensures
        built(prior_at(prior, i, drafts[i]), drafts[i], results[i], start + kids_fresh(prior, drafts, i)),
    decreases n,
{
    if i < n - 1 {
        lemma_kids_built_at(prior, drafts, results, n - 1, start, i);
    }
}

/// What a render does once the backend has answered a batch.
#[derive(Clone, Copy, Debug, PartialEq, Eq, Structural)]
pub enum RenderStep {
    /// The batch was taken; the render goes on to the events.
    Done,
    /// The first batch was refused: render again from scratch and send once more.
    ResyncAndRetry,
    /// The retry was refused too: give up this render and ask for another.
    RepaintLater,
}

/// The retry policy of a render: a refused first batch is followed by one full resync and
/// retry; a refused retry leaves the render to a later repaint.
pub fn after_send(first_attempt: bool, accepted: bool) -> (r: RenderStep)
    ensures
        accepted ==> r == RenderStep::Done,
        !accepted && first_attempt ==> r == RenderStep::ResyncAndRetry,
        !accepted && !first_attempt ==> r == RenderStep::RepaintLater,
{
    if accepted {
        RenderStep::Done
    } else if first_attempt {
        RenderStep::ResyncAndRetry
    } else {
        RenderStep::RepaintLater
    }
}

/// What an app does on a tick of its loop.
#[derive(Clone, Copy, Debug, PartialEq, Eq, Structural)]
pub enum TickStep {
    /// Something asked for a repaint since the last render: render now.
    Render,
    /// Nothing changed: only hand the backend's events to their handlers.
    DrainEvents,
}

/// The step of a tick: render when a repaint was asked for (the request is then consumed),
/// else only drain the events.
pub fn tick_step(repaint_requested: bool) -> (r: TickStep)
    ensures
        repaint_requested ==> r == TickStep::Render,
        !repaint_requested ==> r == TickStep::DrainEvents,
{
    if repaint_requested {
        TickStep::Render
    } else {
        TickStep::DrainEvents
    }
}

/// Whether a render has anything to send: some mutation or some layout frame.
pub fn has_work(batch: &RenderBatch) -> (r: bool)
    ensures
        r == (batch.mutations@.len() > 0 || batch.layout@.len() > 0),
{
    batch.mutations.len() > 0 || batch.layout.len() > 0
}

/// Hands `batch` to `backend`: its mutations, then its layout, then a flush, stopping at the
/// first refusal, which is returned.
pub fn send_batch<B: Backend>(backend: &mut B, batch: &RenderBatch) -> (r: Result<(), BackendError>)
    ensures
        exists|b: &mut B, ms: &[Mutation], applied: Result<(), BackendError>|
            mut_ref_current(b) == *old(backend) && ms@ == batch.mutations@
                && #[trigger] call_ensures(B::apply_mutations, (b, ms), applied)
                && (applied is Err ==> r == applied && mut_ref_future(b) == *final(backend))
                && (applied is Ok ==> exists|c: &mut B, ls: &[LayoutFrame], laid: Result<(), BackendError>|
                mut_ref_current(c) == mut_ref_future(b) && ls@ == batch.layout@
                    && #[trigger] call_ensures(B::apply_layout, (c, ls), laid)
                    && (laid is Err ==> r == laid && mut_ref_future(c) == *final(backend))
                    && (laid is Ok ==> exists|d: &mut B|
                    mut_ref_current(d) == mut_ref_future(c) && mut_ref_future(d) == *final(backend)
                        && #[trigger] call_ensures(B::flush, (d,), r))),
{
    let applied = backend.apply_mutations(batch.mutations.as_slice());
    if applied.is_err() {
        return applied;
    }
    let laid = backend.apply_layout(batch.layout.as_slice());
    if laid.is_err() {
        return laid;
    }
    backend.flush()
}

/// The node reached from `n` by following `path`, one child position per step.
pub open spec fn node_at(n: CanonicalNode, path: Seq<int>) -> Option<CanonicalNode>
    decreases path.len(),
{
    if path.len() == 0 {
        Some(n)
    } else if 0 <= path[0] < n.children@.len() {
        node_at(n.children@[path[0]], path.drop_first())
    } else {
        None
    }
}

/// The tap ids of each of the first `n` children are among those of the list.
proof fn lemma_kids_tap_ids_hold(kids: Seq<CanonicalNode>, n: int, i: int, x: UiNodeId)
    requires
        0 <= i < n <= kids.len(),
        tap_ids(kids[i]).contains(x),
    ensures
        kids_tap_ids(kids, n).contains(x),
    decreases n,
{
    let before = kids_tap_ids(kids, n - 1);
    let last = tap_ids(kids[n - 1]);
    assert(kids_tap_ids(kids, n) == before + last);
    if i < n - 1 {
        lemma_kids_tap_ids_hold(kids, n - 1, i, x);
        let j = choose|j: int| 0 <= j < before.len() && before[j] == x;
        assert((before + last)[j] == x);
    } else {
        let j = choose|j: int| 0 <= j < last.len() && last[j] == x;
        assert((before + last)[before.len() + j] == x);
    }
}

/// Every node of the tree `n` that has a tap handler, at whatever depth and position, is
/// among the tap targets of `n`.
pub proof fn lemma_every_tap_handler_is_a_target(n: CanonicalNode, path: Seq<int>)
    requires
        node_at(n, path) is Some,
        node_at(n, path)->0.tap_handler,
    ensures
        tap_ids(n).contains(node_at(n, path)->0.id),
    decreases path.len(),
{
    n.lemma_children_smaller();
    let own: Seq<UiNodeId> = if n.tap_handler {
        seq![n.id]
    } else {
        Seq::empty()
    };
    let kids = kids_tap_ids(n.children@, n.children@.len() as int);
    assert(tap_ids(n) == own + kids);
    if path.len() == 0 {
        assert(tap_ids(n)[0] == n.id);
    } else {
        let c = n.children@[path[0]];
        lemma_every_tap_handler_is_a_target(c, path.drop_first());
        let x = node_at(n, path)->0.id;
        lemma_kids_tap_ids_hold(n.children@, n.children@.len() as int, path[0], x);
        let j = choose|j: int| 0 <= j < kids.len() && kids[j] == x;
        assert((own + kids)[own.len() + j] == x);
    }
}

/// Once a tree is rendered, a tap on any of its nodes that has a tap handler is routed to
/// that node (`dispatch_event` answers with its id).
pub proof fn lemma_rendered_taps_are_routed(rt: VdomRuntime, n: CanonicalNode, path: Seq<int>)
    requires
        rt.wf(),
        rt.spec_current() == Some(n),
        node_at(n, path) is Some,
        node_at(n, path)->0.tap_handler,
    ensures
        rt.spec_taps().contains(node_at(n, path)->0.id),
{
    lemma_every_tap_handler_is_a_target(n, path);
}

/// Every tap id of the first `n` children comes from one of them.
proof fn lemma_kids_tap_ids_come_from_kids(kids: Seq<CanonicalNode>, n: int, x: UiNodeId)
    requires
        0 <= n <= kids.len(),
        kids_tap_ids(kids, n).contains(x),
    ensures
        exists|i: int| 0 <= i < n && #[trigger] tap_ids(kids[i]).contains(x),
    decreases n,
{
    if n > 0 {
        let before = kids_tap_ids(kids, n - 1);
        let last = tap_ids(kids[n - 1]);
        assert(kids_tap_ids(kids, n) == before + last);
        let j = choose|j: int| 0 <= j < (before + last).len() && (before + last)[j] == x;
        if j < before.len() {
            assert(before[j] == x);
            lemma_kids_tap_ids_come_from_kids(kids, n - 1, x);
        } else {
            assert(last[j - before.len()] == x);
            assert(tap_ids(kids[n - 1]).contains(x));
        }
    } else {
        assert(kids_tap_ids(kids, n) =~= Seq::<UiNodeId>::empty());
    }
}

/// Every tap target of the tree `n` is a node of `n` that has a tap handler: taps on other
/// nodes are not routed.
pub proof fn lemma_tap_targets_have_tap_handlers(n: CanonicalNode, x: UiNodeId)
    requires
        tap_ids(n).contains(x),
    ensures
        exists|path: Seq<int>|
            #[trigger] node_at(n, path) is Some && node_at(n, path)->0.tap_handler && node_at(
                n,
                path,
            )->0.id == x,
    decreases n,
{
    n.lemma_children_smaller();
    let own: Seq<UiNodeId> = if n.tap_handler {
        seq![n.id]
    } else {
        Seq::empty()
    };
    let kids = kids_tap_ids(n.children@, n.children@.len() as int);
    assert(tap_ids(n) == own + kids);
    let j = choose|j: int| 0 <= j < (own + kids).len() && (own + kids)[j] == x;
    if j < own.len() {
        let p0 = Seq::<int>::empty();
        assert(node_at(n, p0) == Some(n));
    } else {
        assert(kids[j - own.len()] == x);
        lemma_kids_tap_ids_come_from_kids(n.children@, n.children@.len() as int, x);
        let i = choose|i: int|
            0 <= i < n.children@.len() && #[trigger] tap_ids(n.children@[i]).contains(x);
        let c = n.children@[i];
        assert(decreases_to!(n => c));
        lemma_tap_targets_have_tap_handlers(c, x);
        let p = choose|p: Seq<int>|
            #[trigger] node_at(c, p) is Some && node_at(c, p)->0.tap_handler && node_at(c, p)->0.id
                == x;
        let q = seq![i] + p;
        assert(q.drop_first() =~= p);
        assert(node_at(n, q) == node_at(c, p));
    }
}

/// Once a tree is rendered, a tap is routed only to a node of it that has a tap handler.
pub proof fn lemma_rendered_taps_reach_only_tap_nodes(rt: VdomRuntime, n: CanonicalNode, x: UiNodeId)
    requires
        rt.wf(),
        rt.spec_current() == Some(n),
        rt.spec_taps().contains(x),
    ensures
        exists|path: Seq<int>|
            #[trigger] node_at(n, path) is Some && node_at(n, path)->0.tap_handler && node_at(
                n,
                path,
            )->0.id == x,
{
    lemma_tap_targets_have_tap_handlers(n, x);
}

} // verus!
