//! Applies mutation batches to a native view tree through a platform adapter, keeping the
//! tree well formed.

use vstd::prelude::*;
use std::collections::HashMap;
use crate::backend::BackendError;
use crate::events::UiEvent;
use crate::layout::{frame_validation, LayoutFrame};
use crate::messages::{
    decimal_text, frame_error_str, frame_error_text, kind_str, kind_text, reject, reject_id,
    reject_texts, reject_with_id, reject_with_two_ids, rejected_with,
};
use crate::mutation::{ElementKind, EventKind, Mutation, PropKey, PropValue, UiNodeId};
use crate::props::{entries_insert, entries_remove, PropMap};
use crate::pending::{
    all_but, frames_except, frames_within, lemma_frames_within_all, lemma_frames_within_equiv,
    lemma_frames_within_ids,
    lemma_frames_within_twice,
};
use crate::tree::{
    acyclic, child_lists_ok, cut_depth, depth_exact, descends_from, in_subtree, is_tree, lemma_cut,
    lemma_descends_iff_in_subtree, lemma_descends_keep, lemma_descends_parent,
    lemma_descends_self, lemma_descends_shrink, lemma_descends_trans, lemma_parent_outside,
    lemma_reparent, lemma_revive, lemma_same_shape, lemma_siblings_disjoint, live_parent,
    revived_depth,
    parent_links_ok, root_ok, same_links_except, same_shape, NodeRecord,
};

verus! {

broadcast use vstd::std_specs::hash::group_hash_axioms;

/// The platform side of the executor: creates native views and wires them together.
pub trait PlatformAdapter {
    type Handle: Copy + Eq;

    fn create_view(&mut self, kind: ElementKind, text: Option<&str>) -> Result<
        Self::Handle,
        BackendError,
    >;

    fn attach_root(&mut self, node_id: UiNodeId, handle: Self::Handle) -> Result<(), BackendError>;

    fn detach_root(&mut self, node_id: UiNodeId, handle: Self::Handle) -> Result<(), BackendError>;

    fn insert_child(
        &mut self,
        parent: Self::Handle,
        child_id: UiNodeId,
        child: Self::Handle,
        index: usize,
    ) -> Result<(), BackendError>;

    fn remove_child(&mut self, parent: Self::Handle, child: Self::Handle) -> Result<
        (),
        BackendError,
    >;

    fn remove_view(
        &mut self,
        node_id: UiNodeId,
        handle: Self::Handle,
        listeners: &[EventKind],
    ) -> Result<(), BackendError>;

    fn set_text(&mut self, kind: ElementKind, handle: Self::Handle, text: &str) -> Result<
        (),
        BackendError,
    >;

    fn set_prop(
        &mut self,
        kind: ElementKind,
        handle: Self::Handle,
        props: &PropMap,
        key: PropKey,
    ) -> Result<(), BackendError>
        requires
            props.wf(),
    ;

    fn unset_prop(
        &mut self,
        kind: ElementKind,
        handle: Self::Handle,
        props: &PropMap,
        key: PropKey,
    ) -> Result<(), BackendError>
        requires
            props.wf(),
    ;

    fn attach_listener(
        &mut self,
        kind: ElementKind,
        handle: Self::Handle,
        node_id: UiNodeId,
        event: EventKind,
    ) -> Result<(), BackendError>;

    fn apply_frame(&mut self, handle: Self::Handle, frame: LayoutFrame) -> Result<(), BackendError>;

    fn flush(&mut self) -> Result<(), BackendError>;

    fn drain_events(&mut self) -> Vec<UiEvent>;
}

/// `r` is a refusal that the adapter gave: the answer of one of its calls that change the
/// native view tree.
pub open spec fn adapter_refused<A: PlatformAdapter>(r: Result<(), BackendError>) -> bool {
    &&& r is Err
    &&& {
        ||| exists|a: &mut A, k: ElementKind, t: Option<&str>, e: BackendError|
            r == Err::<(), BackendError>(e) && #[trigger] call_ensures(
                A::create_view,
                (a, k, t),
                Err::<A::Handle, BackendError>(e),
            )
        ||| exists|a: &mut A, n: UiNodeId, h: A::Handle|
            #[trigger] call_ensures(A::attach_root, (a, n, h), r)
        ||| exists|a: &mut A, n: UiNodeId, h: A::Handle|
            #[trigger] call_ensures(A::detach_root, (a, n, h), r)
        ||| exists|a: &mut A, p: A::Handle, n: UiNodeId, c: A::Handle, i: usize|
            #[trigger] call_ensures(A::insert_child, (a, p, n, c, i), r)
        ||| exists|a: &mut A, p: A::Handle, c: A::Handle|
            #[trigger] call_ensures(A::remove_child, (a, p, c), r)
        ||| exists|a: &mut A, n: UiNodeId, h: A::Handle, l: &[EventKind]|
            #[trigger] call_ensures(A::remove_view, (a, n, h, l), r)
        ||| exists|a: &mut A, k: ElementKind, h: A::Handle, t: &str|
            #[trigger] call_ensures(A::set_text, (a, k, h, t), r)
        ||| exists|a: &mut A, k: ElementKind, h: A::Handle, p: &PropMap, key: PropKey|
            #[trigger] call_ensures(A::set_prop, (a, k, h, p, key), r)
        ||| exists|a: &mut A, k: ElementKind, h: A::Handle, p: &PropMap, key: PropKey|
            #[trigger] call_ensures(A::unset_prop, (a, k, h, p, key), r)
        ||| exists|a: &mut A, k: ElementKind, h: A::Handle, n: UiNodeId, e: EventKind|
            #[trigger] call_ensures(A::attach_listener, (a, k, h, n, e), r)
    }
}

/// `index`, or `len` when it lies beyond.
pub open spec fn clamped(index: usize, len: nat) -> usize {
    if index < len {
        index
    } else {
        len as usize
    }
}

/// The text handed to the adapter, `t`, is the text `text` of a node.
pub open spec fn text_arg(t: Option<&str>, text: Option<String>) -> bool {
    match t {
        Some(s) => match text {
            Some(x) => s@ == x@,
            None => false,
        },
        None => text is None,
    }
}

/// With parent links free of cycles, the parent of a node does not descend from it.
proof fn lemma_parent_not_below<H>(
    nodes: Map<UiNodeId, NodeRecord<H>>,
    d: Map<UiNodeId, nat>,
    id: UiNodeId,
    p: UiNodeId,
)
    requires
        depth_exact(nodes, d),
        nodes.contains_key(id),
        live_parent(nodes, id) == Some(p),
    ensures
        !descends_from(nodes, p, id),
{
    assert(nodes.contains_key(id));
    assert(nodes.contains_key(p));
    if descends_from(nodes, p, id) {
        let k = choose|k: nat| crate::tree::ancestor(nodes, p, k) == id;
        if k <= d[p] {
            crate::tree::lemma_ancestor_depth(nodes, d, p, k);
        } else {
            crate::tree::lemma_ancestor_top(nodes, d, p, k);
            crate::tree::lemma_ancestor_depth(nodes, d, p, d[p]);
        }
    }
}

/// The adapter was asked to remove the view `h` of the node `x`, and did.
pub open spec fn view_removed<A: PlatformAdapter>(x: UiNodeId, h: A::Handle) -> bool {
    exists|a: &mut A, l: &[EventKind], res: Result<(), BackendError>|
        res is Ok && #[trigger] call_ensures(A::remove_view, (a, x, h, l), res)
}

/// A refusal that `m` can meet after the adapter was called without the adapter giving
/// it: a replacement whose new node would close a cycle.
pub open spec fn late_refusal(m: Mutation, r: Result<(), BackendError>) -> bool {
    match m {
        Mutation::ReplaceNode { new_id, .. } => exists|p: UiNodeId|
            rejected_with(
                r,
                "inserting node "@ + decimal_text(new_id as nat) + " under "@ + decimal_text(
                    p as nat,
                ) + " would create a cycle"@,
            ),
        _ => false,
    }
}

/// `s` without the first occurrence of `v`.
pub open spec fn without(s: Seq<UiNodeId>, v: UiNodeId) -> Seq<UiNodeId> {
    if s.contains(v) {
        s.remove(s.index_of(v))
    } else {
        s
    }
}

/// The live parent of `id` in `o`, if any, lists `id` no more in `f`.
pub open spec fn unlisted_from_parent<H>(
    o: Map<UiNodeId, NodeRecord<H>>,
    f: Map<UiNodeId, NodeRecord<H>>,
    id: UiNodeId,
) -> bool {
    match o[id].parent {
        Some(p) => o.contains_key(p) ==> f.contains_key(p) && f[p].children@ == without(
            o[p].children@,
            id,
        ),
        None => true,
    }
}

/// The text of the rejection of `frame` by `apply_layout` when the present nodes are
/// `ids`, if it is rejected.
pub open spec fn frame_rejection(frame: LayoutFrame, ids: Set<UiNodeId>) -> Option<Seq<char>> {
    match frame_validation(frame) {
        Err(e) => Some("invalid layout frame: "@ + frame_error_text(e)),
        Ok(_) => if ids.contains(frame.id) {
            None
        } else {
            Some("layout references unknown node id "@ + decimal_text(frame.id as nat))
        },
    }
}

/// The recorded frames after recording the frames of `s` in order over `m`: the last frame
/// of a node wins.
pub open spec fn frames_recorded(m: Map<UiNodeId, LayoutFrame>, s: Seq<LayoutFrame>) -> Map<
    UiNodeId,
    LayoutFrame,
>
    decreases s.len(),
{
    if s.len() == 0 {
        m
    } else {
        frames_recorded(m, s.drop_last()).insert(s.last().id, s.last())
    }
}

/// Element kinds that can hold children.
pub open spec fn spec_accepts_children(kind: ElementKind) -> bool {
    kind == ElementKind::Stack || kind == ElementKind::Container || kind == ElementKind::SafeArea
        || kind == ElementKind::List
}

/// Element kinds that display text.
pub open spec fn spec_supports_text(kind: ElementKind) -> bool {
    kind == ElementKind::Text || kind == ElementKind::Button || kind == ElementKind::Input
}

pub fn accepts_children(kind: ElementKind) -> (r: bool)
    ensures
        r == spec_accepts_children(kind),
{
    match kind {
        ElementKind::Stack | ElementKind::Container | ElementKind::SafeArea | ElementKind::List => true,
        _ => false,
    }
}

pub fn supports_text(kind: ElementKind) -> (r: bool)
    ensures
        r == spec_supports_text(kind),
{
    match kind {
        ElementKind::Text | ElementKind::Button | ElementKind::Input => true,
        _ => false,
    }
}

impl<H> NodeRecord<H> {
    /// A fresh node: no parent, no children, no props, no listeners.
    pub open spec fn is_fresh(&self, kind: ElementKind, handle: H, text: Option<String>) -> bool {
        &&& self.kind == kind
        &&& self.handle == handle
        &&& self.parent is None
        &&& self.children@.len() == 0
        &&& self.props@.len() == 0
        &&& self.props.wf()
        &&& self.text == text
        &&& self.listeners@.len() == 0
    }

    pub fn new(kind: ElementKind, handle: H, text: Option<String>) -> (r: Self)
        ensures
            r.is_fresh(kind, handle, text),
    {
        NodeRecord {
            kind,
            handle,
            parent: None,
            children: Vec::new(),
            props: PropMap::new(),
            text,
            listeners: Vec::new(),
        }
    }
}

/// The native tree as the executor sees it, plus the frames waiting to be flushed.
pub struct ExecutorState<H> {
    root_id: Option<UiNodeId>,
    nodes: HashMap<UiNodeId, NodeRecord<H>>,
    frames: HashMap<UiNodeId, LayoutFrame>,
    pending_layout: Vec<LayoutFrame>,
    depth: Ghost<Map<UiNodeId, nat>>,
    depth_bound: Ghost<nat>,
}

impl<H: Copy> Default for ExecutorState<H> {
    /// The state of an executor that has applied nothing.
    fn default() -> (r: Self)
        ensures
            r.wf(),
            r.is_well_formed_tree(),
            r.root() is None,
            r.nodes_map() == Map::<UiNodeId, NodeRecord<H>>::empty(),
            r.frames_map() == Map::<UiNodeId, LayoutFrame>::empty(),
            r.pending() == Seq::<LayoutFrame>::empty(),
    {
        let r = ExecutorState {
            root_id: None,
            nodes: HashMap::new(),
            frames: HashMap::new(),
            pending_layout: Vec::new(),
            depth: Ghost(Map::empty()),
            depth_bound: Ghost(0),
        };
        assert(depth_exact(r.nodes@, r.depth@));
        r
    }
}

impl<H: Copy> ExecutorState<H> {
    pub closed spec fn root(&self) -> Option<UiNodeId> {
        self.root_id
    }

    pub closed spec fn nodes_map(&self) -> Map<UiNodeId, NodeRecord<H>> {
        self.nodes@
    }

    pub closed spec fn frames_map(&self) -> Map<UiNodeId, LayoutFrame> {
        self.frames@
    }

    pub closed spec fn pending(&self) -> Seq<LayoutFrame> {
        self.pending_layout@
    }

    /// The invariant that every operation keeps, whatever the adapter answers: child lists
    /// agree with parent links, the root has no parent, parent links form no cycle, and
    /// frames only name present nodes.
    pub closed spec fn wf(&self) -> bool {
        &&& child_lists_ok(self.nodes@)
        &&& root_ok(self.root_id, self.nodes@)
        &&& depth_exact(self.nodes@, self.depth@)
        &&& forall|x: UiNodeId| #[trigger]
            self.nodes@.contains_key(x) ==> self.depth@[x] <= self.depth_bound@
        &&& forall|x: UiNodeId| #[trigger]
            self.nodes@.contains_key(x) ==> self.nodes@[x].props.wf()
        &&& forall|x: UiNodeId| #[trigger]
            self.frames@.contains_key(x) ==> self.nodes@.contains_key(x)
        &&& forall|i: int|
            0 <= i < self.pending_layout@.len() ==> self.nodes@.contains_key(
                #[trigger] self.pending_layout@[i].id,
            )
    }

    /// The native tree is a well-formed tree (see `is_tree`).
    pub open spec fn is_well_formed_tree(&self) -> bool {
        is_tree(self.root(), self.nodes_map())
    }

    /// Every state that satisfies the invariant has acyclic parent links.
    pub proof fn lemma_wf_acyclic(&self)
        requires
            self.wf(),
        ensures
            acyclic(self.nodes_map()),
            child_lists_ok(self.nodes_map()),
            root_ok(self.root(), self.nodes_map()),
    {
        assert(depth_exact(self.nodes@, self.depth@));
    }

    /// The record of node `id`, if present.
    pub fn node(&self, id: UiNodeId) -> (r: Option<&NodeRecord<H>>)
        ensures
            match r {
                Some(rec) => self.nodes_map().contains_key(id) && *rec == self.nodes_map()[id],
                None => !self.nodes_map().contains_key(id),
            },
    {
        self.nodes.get(&id)
    }

    /// Puts back the record of node `id`, taken out of the state `before`, with its links
    /// unchanged.
    fn put_back(&mut self, id: UiNodeId, rec: NodeRecord<H>, Ghost(before): Ghost<Self>)
        requires
            before.wf(),
            before.nodes@.contains_key(id),
            old(self).nodes@ == before.nodes@.remove(id),
            old(self).root_id == before.root_id,
            old(self).frames@ == before.frames@,
            old(self).pending_layout@ == before.pending_layout@,
            old(self).depth == before.depth,
            old(self).depth_bound == before.depth_bound,
            rec.parent == before.nodes@[id].parent,
            rec.children@ == before.nodes@[id].children@,
            rec.props.wf(),
        ensures
            final(self).wf(),
            final(self).nodes_map() == before.nodes_map().insert(id, rec),
            final(self).root() == before.root(),
            final(self).frames_map() == before.frames_map(),
            final(self).pending() == before.pending(),
            before.is_well_formed_tree() ==> final(self).is_well_formed_tree(),
    {
        self.nodes.insert(id, rec);
        proof {
            assert(same_shape(before.nodes@, self.nodes@)) by {
                assert(self.nodes@.dom() =~= before.nodes@.dom());
            }
            lemma_same_shape(before.nodes@, self.nodes@, self.root_id, self.depth@);
        }
    }

    /// Takes the record of node `id` out of the map (to be put back by `put_back`).
    fn take(&mut self, id: UiNodeId) -> (r: NodeRecord<H>)
        requires
            old(self).nodes@.contains_key(id),
        ensures
            r == old(self).nodes@[id],
            final(self).nodes@ == old(self).nodes@.remove(id),
            final(self).root_id == old(self).root_id,
            final(self).frames@ == old(self).frames@,
            final(self).pending_layout@ == old(self).pending_layout@,
            final(self).depth == old(self).depth,
            final(self).depth_bound == old(self).depth_bound,
    {
        self.nodes.remove(&id).unwrap()
    }

    /// `after` is `self` with a fresh node `id` of `kind` holding `text`, which became the
    /// root if there was none.
    pub open spec fn node_created(
        &self,
        after: &Self,
        id: UiNodeId,
        kind: ElementKind,
        text: Option<String>,
    ) -> bool {
        let f = after.nodes_map();
        &&& f.contains_key(id)
        &&& f[id].is_fresh(kind, f[id].handle, text)
        &&& f == self.nodes_map().insert(id, f[id])
        &&& after.frames_map() == self.frames_map()
        &&& after.pending() == self.pending()
        &&& after.root() == if self.root() is None {
            Some(id)
        } else {
            self.root()
        }
    }

    /// `after` is `self` with the record of `id`, present, replaced and nothing else changed.
    pub open spec fn only_record_changed(&self, after: &Self, id: UiNodeId) -> bool {
        &&& self.nodes_map().contains_key(id)
        &&& after.nodes_map() == self.nodes_map().insert(id, after.nodes_map()[id])
        &&& after.root() == self.root()
        &&& after.frames_map() == self.frames_map()
        &&& after.pending() == self.pending()
    }

    /// `after` is `self` with the text of `id` set to `text`.
    pub open spec fn text_set(&self, after: &Self, id: UiNodeId, text: Seq<char>) -> bool {
        let rec = after.nodes_map()[id];
        &&& self.only_record_changed(after, id)
        &&& rec == NodeRecord { text: rec.text, ..self.nodes_map()[id] }
        &&& rec.text matches Some(s) && s@ == text
    }

    /// `after` is `self` with the property `key` of `id` set to `value`.
    pub open spec fn prop_set(&self, after: &Self, id: UiNodeId, key: PropKey, value: PropValue) -> bool {
        let rec = after.nodes_map()[id];
        &&& self.only_record_changed(after, id)
        &&& rec == NodeRecord { props: rec.props, ..self.nodes_map()[id] }
        &&& rec.props@ == entries_insert(self.nodes_map()[id].props@, key, value)
        &&& rec.props.wf()
    }

    /// `after` is `self` with the property `key` of `id` cleared.
    pub open spec fn prop_unset(&self, after: &Self, id: UiNodeId, key: PropKey) -> bool {
        let rec = after.nodes_map()[id];
        &&& self.only_record_changed(after, id)
        &&& rec == NodeRecord { props: rec.props, ..self.nodes_map()[id] }
        &&& rec.props@ == entries_remove(self.nodes_map()[id].props@, key)
        &&& rec.props.wf()
    }

    /// `after` is `self` with `event` among the listeners of `id`, each kind listed once.
    pub open spec fn listener_attached(&self, after: &Self, id: UiNodeId, event: EventKind) -> bool {
        let rec = after.nodes_map()[id];
        let before = self.nodes_map()[id].listeners@;
        &&& self.only_record_changed(after, id)
        &&& rec == NodeRecord { listeners: rec.listeners, ..self.nodes_map()[id] }
        &&& rec.listeners@ == if before.contains(event) {
            before
        } else {
            before.push(event)
        }
    }

    fn create_node<A: PlatformAdapter<Handle = H>>(
        &mut self,
        adapter: &mut A,
        id: UiNodeId,
        kind: ElementKind,
        text: Option<String>,
    ) -> (r: Result<(), BackendError>)
        requires
            old(self).wf(),
        ensures
            final(self).wf(),
            old(self).nodes_map().contains_key(id) ==> rejected_with(
                r,
                "duplicate node id "@ + decimal_text(id as nat),
            ) && *final(self) == *old(self) && *final(adapter) == *old(adapter),
            !old(self).nodes_map().contains_key(id) ==> exists|
                a: &mut A,
                t: Option<&str>,
                made: Result<H, BackendError>,
            |
                mut_ref_current(a) == *old(adapter) && text_arg(t, text)
                    && #[trigger] call_ensures(A::create_view, (a, kind, t), made)
                    && match made {
                    Err(e) => r == Err::<(), BackendError>(e) && mut_ref_future(a)
                        == *final(adapter) && *final(self) == *old(self),
                    Ok(h) => {
                        &&& old(self).node_created(final(self), id, kind, text)
                        &&& final(self).nodes_map()[id].handle == h
                        &&& old(self).root() is Some ==> r is Ok && mut_ref_future(a)
                            == *final(adapter)
                        &&& old(self).root() is None ==> exists|b: &mut A|
                            mut_ref_current(b) == mut_ref_future(a) && mut_ref_future(b)
                                == *final(adapter) && #[trigger] call_ensures(
                                A::attach_root,
                                (b, id, h),
                                r,
                            )
                    },
                },
            old(self).is_well_formed_tree() ==> final(self).is_well_formed_tree(),
    {
        if self.nodes.contains_key(&id) {
            return Err(reject_id("duplicate node id ", id));
        }
        let t: Option<&str> = match &text {
            Some(x) => Some(x.as_str()),
            None => None,
        };
        let made = adapter.create_view(kind, t);
        proof {
            assert(text_arg(t, text));
        }
        let handle = match made {
            Ok(h) => h,
            Err(e) => {
                return Err(e);
            },
        };
        self.add_fresh(id, kind, handle, text);
        if self.root_id.is_none() {
            self.root_id = Some(id);
            return adapter.attach_root(id, handle);
        }
        Ok(())
    }

    /// Adds a fresh record for `id`, absent so far.
    fn add_fresh(&mut self, id: UiNodeId, kind: ElementKind, handle: H, text: Option<String>)
        requires
            old(self).wf(),
            !old(self).nodes_map().contains_key(id),
        ensures
            final(self).wf(),
            final(self).nodes_map().contains_key(id),
            final(self).nodes_map()[id].is_fresh(kind, handle, text),
            final(self).nodes_map() == old(self).nodes_map().insert(id, final(self).nodes_map()[id]),
            final(self).root() == old(self).root(),
            final(self).frames_map() == old(self).frames_map(),
            final(self).pending() == old(self).pending(),
            old(self).is_well_formed_tree() ==> final(self).is_well_formed_tree(),
    {
        let ghost old_nodes = self.nodes@;
        let ghost old_depth = self.depth@;
        self.nodes.insert(id, NodeRecord::new(kind, handle, text));
        proof {
            let nodes = self.nodes@;
            lemma_revive(old_nodes, nodes, old_depth, id, self.depth_bound@);
            let nd = revived_depth(old_nodes, old_depth, id);
            self.depth = Ghost(nd);
            self.depth_bound = Ghost(self.depth_bound@ + 1);
            assert forall|p: UiNodeId, i: int|
                nodes.contains_key(p) && 0 <= i < nodes[p].children@.len() implies {
                &&& nodes.contains_key(#[trigger] nodes[p].children@[i])
                &&& nodes[nodes[p].children@[i]].parent == Some(p)
            } by {
                assert(old_nodes.contains_key(p));
                assert(old_nodes.contains_key(old_nodes[p].children@[i]));
            }
            assert forall|p: UiNodeId| #[trigger]
                nodes.contains_key(p) implies nodes[p].children@.no_duplicates() by {
                if p != id {
                    assert(old_nodes.contains_key(p));
                }
            }
            if is_tree(self.root_id, old_nodes) {
                assert forall|x: UiNodeId| #[trigger] nodes.contains_key(x) implies match nodes[
                    x].parent {
                    Some(p) => nodes.contains_key(p) && nodes[p].children@.contains(x),
                    None => true,
                } by {
                    if x != id {
                        assert(old_nodes.contains_key(x));
                    }
                }
                assert(depth_exact(nodes, nd));
            }
        }
    }

    fn set_text<A: PlatformAdapter<Handle = H>>(
        &mut self,
        adapter: &mut A,
        id: UiNodeId,
        text: &str,
    ) -> (r: Result<(), BackendError>)
        requires
            old(self).wf(),
        ensures
            final(self).wf(),
            !old(self).nodes_map().contains_key(id) ==> rejected_with(
                r,
                "unknown node id "@ + decimal_text(id as nat),
            ) && *final(self) == *old(self) && *final(adapter) == *old(adapter),
            old(self).nodes_map().contains_key(id) && !spec_supports_text(
                old(self).nodes_map()[id].kind,
            ) ==> rejected_with(
                r,
                "set_text is unsupported for "@ + kind_text(old(self).nodes_map()[id].kind),
            ) && *final(self) == *old(self) && *final(adapter) == *old(adapter),
            old(self).nodes_map().contains_key(id) && spec_supports_text(
                old(self).nodes_map()[id].kind,
            ) ==> old(self).text_set(final(self), id, text@) && exists|a: &mut A|
                mut_ref_current(a) == *old(adapter) && mut_ref_future(a) == *final(adapter)
                    && #[trigger] call_ensures(
                    A::set_text,
                    (a, old(self).nodes_map()[id].kind, old(self).nodes_map()[id].handle, text),
                    r,
                ),
            old(self).is_well_formed_tree() ==> final(self).is_well_formed_tree(),
    {
        let kind = match self.nodes.get(&id) {
            Some(rec) => rec.kind,
            None => {
                return Err(reject_id("unknown node id ", id));
            },
        };
        if !supports_text(kind) {
            return Err(reject_texts("set_text is unsupported for ", kind_str(kind)));
        }
        let ghost before = *self;
        let mut rec = self.take(id);
        rec.text = Some(String::from_str(text));
        let handle = rec.handle;
        self.put_back(id, rec, Ghost(before));
        adapter.set_text(kind, handle, text)
    }

    fn set_prop<A: PlatformAdapter<Handle = H>>(
        &mut self,
        adapter: &mut A,
        id: UiNodeId,
        key: PropKey,
        value: &PropValue,
    ) -> (r: Result<(), BackendError>)
        requires
            old(self).wf(),
        ensures
            final(self).wf(),
            !old(self).nodes_map().contains_key(id) ==> rejected_with(
                r,
                "unknown node id "@ + decimal_text(id as nat),
            ) && *final(self) == *old(self) && *final(adapter) == *old(adapter),
            old(self).nodes_map().contains_key(id) ==> old(self).prop_set(final(self), id, key, *value) && exists|a: &mut A, p: &PropMap|
                *p == final(self).nodes_map()[id].props && mut_ref_current(a) == *old(adapter)
                    && mut_ref_future(a) == *final(adapter) && #[trigger] call_ensures(
                    A::set_prop,
                    (a, old(self).nodes_map()[id].kind, old(self).nodes_map()[id].handle, p, key),
                    r,
                ),
            old(self).is_well_formed_tree() ==> final(self).is_well_formed_tree(),
    {
        if !self.nodes.contains_key(&id) {
            return Err(reject_id("unknown node id ", id));
        }
        let ghost before = *self;
        let mut rec = self.take(id);
        rec.props.insert(key, value.clone_value());
        let r = adapter.set_prop(rec.kind, rec.handle, &rec.props, key);
        self.put_back(id, rec, Ghost(before));
        r
    }

    fn unset_prop<A: PlatformAdapter<Handle = H>>(
        &mut self,
        adapter: &mut A,
        id: UiNodeId,
        key: PropKey,
    ) -> (r: Result<(), BackendError>)
        requires
            old(self).wf(),
        ensures
            final(self).wf(),
            !old(self).nodes_map().contains_key(id) ==> rejected_with(
                r,
                "unknown node id "@ + decimal_text(id as nat),
            ) && *final(self) == *old(self) && *final(adapter) == *old(adapter),
            old(self).nodes_map().contains_key(id) ==> old(self).prop_unset(final(self), id, key) && exists|a: &mut A, p: &PropMap|
                *p == final(self).nodes_map()[id].props && mut_ref_current(a) == *old(adapter)
                    && mut_ref_future(a) == *final(adapter) && #[trigger] call_ensures(
                    A::unset_prop,
                    (a, old(self).nodes_map()[id].kind, old(self).nodes_map()[id].handle, p, key),
                    r,
                ),
            old(self).is_well_formed_tree() ==> final(self).is_well_formed_tree(),
    {
        if !self.nodes.contains_key(&id) {
            return Err(reject_id("unknown node id ", id));
        }
        let ghost before = *self;
        let mut rec = self.take(id);
        rec.props.remove(key);
        let r = adapter.unset_prop(rec.kind, rec.handle, &rec.props, key);
        self.put_back(id, rec, Ghost(before));
        r
    }

    fn attach_listener<A: PlatformAdapter<Handle = H>>(
        &mut self,
        adapter: &mut A,
        id: UiNodeId,
        event: EventKind,
    ) -> (r: Result<(), BackendError>)
        requires
            old(self).wf(),
        ensures
            final(self).wf(),
            !old(self).nodes_map().contains_key(id) ==> rejected_with(
                r,
                "unknown node id "@ + decimal_text(id as nat),
            ) && *final(self) == *old(self) && *final(adapter) == *old(adapter),
            old(self).nodes_map().contains_key(id) ==> old(self).listener_attached(
                final(self),
                id,
                event,
            ) && exists|a: &mut A|
                mut_ref_current(a) == *old(adapter) && mut_ref_future(a) == *final(adapter)
                    && #[trigger] call_ensures(
                    A::attach_listener,
                    (a, old(self).nodes_map()[id].kind, old(self).nodes_map()[id].handle, id, event),
                    r,
                ),
            old(self).is_well_formed_tree() ==> final(self).is_well_formed_tree(),
    {
        if !self.nodes.contains_key(&id) {
            return Err(reject_id("unknown node id ", id));
        }
        let ghost before = *self;
        let mut rec = self.take(id);
        let mut found = false;
        let mut i: usize = 0;
        while i < rec.listeners.len()
            invariant
                i <= rec.listeners@.len(),
                found <==> exists|j: int| 0 <= j < i && rec.listeners@[j] == event,
            decreases rec.listeners@.len() - i,
        {
            if rec.listeners[i] == event {
                found = true;
            }
            i = i + 1;
        }
        if !found {
            rec.listeners.push(event);
        }
        let r = adapter.attach_listener(rec.kind, rec.handle, id, event);
        self.put_back(id, rec, Ghost(before));
        r
    }

    /// Whether `child` is `parent` or one of its ancestors, walking parent links.
    fn would_cycle(&self, parent: UiNodeId, child: UiNodeId) -> (r: bool)
        requires
            self.wf(),
            self.nodes_map().contains_key(parent),
            self.nodes_map().contains_key(child),
        ensures
            r == in_subtree(self.nodes@, self.depth@, parent, child),
            r == descends_from(self.nodes_map(), parent, child),
    {
        proof {
            lemma_descends_iff_in_subtree(self.nodes@, self.depth@, parent, child);
        }
        let ghost target = in_subtree(self.nodes@, self.depth@, parent, child);
        let mut cursor: Option<UiNodeId> = Some(parent);
        loop
            invariant
                self.wf(),
                self.nodes@.contains_key(child),
                target == in_subtree(self.nodes@, self.depth@, parent, child),
                target == descends_from(self.nodes_map(), parent, child),
                match cursor {
                    Some(c) => if self.nodes@.contains_key(c) {
                        target == in_subtree(self.nodes@, self.depth@, c, child)
                    } else {
                        !target
                    },
                    None => !target,
                },
            decreases
                match cursor {
                    Some(c) => if self.nodes@.contains_key(c) {
                        self.depth@[c] + 2
                    } else {
                        1
                    },
                    None => 0,
                },
        {
            match cursor {
                None => {
                    return false;
                },
                Some(current) => {
                    if current == child {
                        proof {
                            if !self.nodes@.contains_key(current) {
                                assert(false);
                            }
                            assert(crate::tree::ancestor(self.nodes@, child, 0) == child);
                        }
                        return true;
                    }
                    let next = match self.nodes.get(&current) {
                        Some(rec) => rec.parent,
                        None => None,
                    };
                    proof {
                        if self.nodes@.contains_key(current) {
                            assert(self.nodes@.contains_key(current));
                            match live_parent(self.nodes@, current) {
                                Some(q) => {
                                    crate::tree::lemma_subtree_step(
                                        self.nodes@,
                                        self.depth@,
                                        current,
                                        q,
                                        child,
                                    );
                                },
                                None => {
                                    crate::tree::lemma_top_subtree(
                                        self.nodes@,
                                        self.depth@,
                                        current,
                                        child,
                                    );
                                },
                            }
                        }
                    }
                    cursor = next;
                },
            }
        }
    }

    /// The text of the rejection of `InsertChild { parent, child, .. }`, if the checks
    /// reject it.
    pub open spec fn insert_child_rejection(&self, parent: UiNodeId, child: UiNodeId) -> Option<
        Seq<char>,
    > {
        let nodes = self.nodes_map();
        if !nodes.contains_key(parent) {
            Some("unknown parent node id "@ + decimal_text(parent as nat))
        } else if !nodes.contains_key(child) {
            Some("unknown child node id "@ + decimal_text(child as nat))
        } else if child == parent {
            Some("node cannot be its own parent"@)
        } else if self.root() == Some(child) {
            Some("root node cannot become a child"@)
        } else if !spec_accepts_children(nodes[parent].kind) {
            Some(kind_text(nodes[parent].kind) + " cannot accept children"@)
        } else if nodes[child].parent is Some {
            Some("node "@ + decimal_text(child as nat) + " already has a parent"@)
        } else if descends_from(nodes, parent, child) {
            Some(
                "inserting node "@ + decimal_text(child as nat) + " under "@ + decimal_text(
                    parent as nat,
                ) + " would create a cycle"@,
            )
        } else {
            None
        }
    }

    /// `after` is `self` with `child` linked under `parent` at position `min(index, len)`.
    pub open spec fn child_inserted(
        &self,
        after: &Self,
        parent: UiNodeId,
        child: UiNodeId,
        index: usize,
    ) -> bool {
        let old_nodes = self.nodes_map();
        let new_nodes = after.nodes_map();
        let len = old_nodes[parent].children@.len();
        let at = if index < len {
            index as int
        } else {
            len as int
        };
        &&& new_nodes.contains_key(child)
        &&& new_nodes.contains_key(parent)
        &&& new_nodes == old_nodes.insert(child, new_nodes[child]).insert(
            parent,
            new_nodes[parent],
        )
        &&& new_nodes[child] == NodeRecord { parent: Some(parent), ..old_nodes[child] }
        &&& new_nodes[parent] == NodeRecord {
            children: new_nodes[parent].children,
            ..old_nodes[parent]
        }
        &&& new_nodes[parent].children@ == old_nodes[parent].children@.insert(at, child)
        &&& after.root() == self.root()
        &&& after.frames_map() == self.frames_map()
        &&& after.pending() == self.pending()
    }

    fn insert_child<A: PlatformAdapter<Handle = H>>(
        &mut self,
        adapter: &mut A,
        parent: UiNodeId,
        child: UiNodeId,
        index: usize,
    ) -> (r: Result<(), BackendError>)
        requires
            old(self).wf(),
        ensures
            final(self).wf(),
            old(self).insert_child_rejection(parent, child) matches Some(msg) ==> rejected_with(
                r,
                msg,
            ) && *final(self) == *old(self) && *final(adapter) == *old(adapter),
            old(self).insert_child_rejection(parent, child) is None ==> exists|a: &mut A|
                mut_ref_current(a) == *old(adapter) && mut_ref_future(a) == *final(adapter)
                    && #[trigger] call_ensures(
                    A::insert_child,
                    (
                        a,
                        old(self).nodes_map()[parent].handle,
                        child,
                        old(self).nodes_map()[child].handle,
                        clamped(index, old(self).nodes_map()[parent].children@.len()),
                    ),
                    r,
                ),
            old(self).insert_child_rejection(parent, child) is None ==> {
                ||| (r is Err && *final(self) == *old(self))
                ||| (r is Ok && old(self).child_inserted(final(self), parent, child, index))
            },
            old(self).is_well_formed_tree() ==> final(self).is_well_formed_tree(),
    {
        if !self.nodes.contains_key(&parent) {
            return Err(reject_id("unknown parent node id ", parent));
        }
        if !self.nodes.contains_key(&child) {
            return Err(reject_id("unknown child node id ", child));
        }
        if child == parent {
            return Err(reject(String::from_str("node cannot be its own parent")));
        }
        if self.root_id == Some(child) {
            return Err(reject(String::from_str("root node cannot become a child")));
        }
        let parent_kind = self.nodes.get(&parent).unwrap().kind;
        if !accepts_children(parent_kind) {
            return Err(reject_texts(kind_str(parent_kind), " cannot accept children"));
        }
        if self.nodes.get(&child).unwrap().parent.is_some() {
            return Err(reject_with_id("node ", child, " already has a parent"));
        }
        if self.would_cycle(parent, child) {
            return Err(
                reject_with_two_ids(
                    "inserting node ",
                    child,
                    " under ",
                    parent,
                    " would create a cycle",
                ),
            );
        }
        let parent_handle = self.nodes.get(&parent).unwrap().handle;
        let len = self.nodes.get(&parent).unwrap().children.len();
        let child_handle = self.nodes.get(&child).unwrap().handle;
        let insert_at = if index < len {
            index
        } else {
            len
        };
        proof {
            assert(insert_at == clamped(index, old(self).nodes_map()[parent].children@.len()));
            assert(parent_handle == old(self).nodes_map()[parent].handle);
            assert(child_handle == old(self).nodes_map()[child].handle);
        }
        let answer = adapter.insert_child(parent_handle, child, child_handle, insert_at);
        if answer.is_err() {
            return answer;
        }
        self.link_child(parent, child, insert_at);
        answer
    }

    /// Links `child`, a node without parent that is not an ancestor of `parent`, into the
    /// child list of `parent` at `at`.
    fn link_child(&mut self, parent: UiNodeId, child: UiNodeId, insert_at: usize)
        requires
            old(self).wf(),
            old(self).nodes_map().contains_key(parent),
            old(self).nodes_map().contains_key(child),
            parent != child,
            old(self).root() != Some(child),
            old(self).nodes_map()[child].parent is None,
            !in_subtree(old(self).nodes@, old(self).depth@, parent, child),
            insert_at <= old(self).nodes_map()[parent].children@.len(),
        ensures
            final(self).wf(),
            old(self).child_inserted(final(self), parent, child, insert_at),
            old(self).is_well_formed_tree() ==> final(self).is_well_formed_tree(),
    {
        let ghost old_nodes = self.nodes@;
        let ghost old_depth = self.depth@;
        let mut rc = self.nodes.remove(&child).unwrap();
        rc.parent = Some(parent);
        self.nodes.insert(child, rc);
        let mut rp = self.nodes.remove(&parent).unwrap();
        rp.children.insert(insert_at, child);
        self.nodes.insert(parent, rp);
        proof {
            let nodes = self.nodes@;
            assert(nodes =~= old_nodes.insert(child, nodes[child]).insert(parent, nodes[parent]));
            crate::tree::lemma_link(
                old_nodes,
                nodes,
                old_depth,
                self.depth_bound@,
                self.root_id,
                parent,
                child,
                insert_at as int,
            );
            self.depth = Ghost(crate::tree::reparented_depth(old_nodes, old_depth, child, Some(parent)));
            self.depth_bound = Ghost(2 * self.depth_bound@ + 1);
            assert forall|x: UiNodeId| #[trigger]
                self.frames@.contains_key(x) implies nodes.contains_key(x) by {
                assert(old_nodes.contains_key(x));
            }
            if is_tree(self.root_id, old_nodes) {
                assert(depth_exact(nodes, self.depth@));
            }
        }
    }

    /// The text of the rejection of `MoveNode { id, new_parent, .. }`, if the checks reject
    /// it.
    pub open spec fn move_rejection(&self, id: UiNodeId, new_parent: UiNodeId) -> Option<
        Seq<char>,
    > {
        let nodes = self.nodes_map();
        if self.root() == Some(id) {
            Some("root node cannot be moved"@)
        } else if !nodes.contains_key(id) {
            Some("unknown node id "@ + decimal_text(id as nat))
        } else if nodes[id].parent is None {
            Some("node "@ + decimal_text(id as nat) + " has no parent"@)
        } else if !nodes.contains_key(new_parent) {
            Some("unknown parent node id "@ + decimal_text(new_parent as nat))
        } else if !spec_accepts_children(nodes[new_parent].kind) {
            Some(kind_text(nodes[new_parent].kind) + " cannot accept children"@)
        } else if descends_from(nodes, new_parent, id) {
            Some(
                "moving node "@ + decimal_text(id as nat) + " under "@ + decimal_text(
                    new_parent as nat,
                ) + " would create a cycle"@,
            )
        } else if !nodes.contains_key(nodes[id].parent->0) {
            Some("unknown node id "@ + decimal_text(nodes[id].parent->0 as nat))
        } else {
            None
        }
    }

    /// The child list of `new_parent` once `id` has left the list of its parent.
    pub open spec fn move_base(&self, id: UiNodeId, new_parent: UiNodeId) -> Seq<UiNodeId> {
        let o = self.nodes_map();
        let op = o[id].parent->0;
        if new_parent == op {
            without(o[op].children@, id)
        } else {
            o[new_parent].children@
        }
    }

    /// `after` is `self` with `id` dropped from the child list of its parent, its own record
    /// (and so its parent link) kept: what a move leaves when the adapter refuses to insert
    /// the node under its new parent.
    pub open spec fn move_unlisted(&self, after: &Self, id: UiNodeId) -> bool {
        let o = self.nodes_map();
        let f = after.nodes_map();
        let op = o[id].parent->0;
        &&& f.dom() == o.dom()
        &&& f[id] == o[id]
        &&& f[op] == NodeRecord { children: f[op].children, ..o[op] }
        &&& f[op].children@ == without(o[op].children@, id)
        &&& forall|x: UiNodeId| #[trigger] f.contains_key(x) && x != id && x != op ==> f[x] == o[x]
        &&& after.root() == self.root()
        &&& after.frames_map() == self.frames_map()
        &&& after.pending() == self.pending()
    }

    /// `after` is `self` with `id` moved from its parent to position `min(index, len)` of the
    /// child list of `new_parent`, `len` counted once `id` has left its old list.
    pub open spec fn node_moved(
        &self,
        after: &Self,
        id: UiNodeId,
        new_parent: UiNodeId,
        index: usize,
    ) -> bool {
        let o = self.nodes_map();
        let f = after.nodes_map();
        let op = o[id].parent->0;
        let listed = without(o[op].children@, id);
        let base = if new_parent == op {
            listed
        } else {
            o[new_parent].children@
        };
        let at = if index < base.len() {
            index as int
        } else {
            base.len() as int
        };
        &&& f.dom() == o.dom()
        &&& f[id] == NodeRecord { parent: Some(new_parent), ..o[id] }
        &&& f[new_parent] == NodeRecord { children: f[new_parent].children, ..o[new_parent] }
        &&& f[new_parent].children@ == base.insert(at, id)
        &&& new_parent != op ==> f[op] == NodeRecord { children: f[op].children, ..o[op] }
            && f[op].children@ == listed
        &&& forall|x: UiNodeId| #[trigger]
            f.contains_key(x) && x != id && x != op && x != new_parent ==> f[x] == o[x]
        &&& after.root() == self.root()
        &&& after.frames_map() == self.frames_map()
        &&& after.pending() == self.pending()
    }

    /// Unlinks `id` from its parent `op`: drops it from the child list of `op` and clears its
    /// parent link.
    fn detach(&mut self, id: UiNodeId, op: UiNodeId)
        requires
            old(self).wf(),
            old(self).nodes_map().contains_key(id),
            old(self).nodes_map().contains_key(op),
            old(self).nodes_map()[id].parent == Some(op),
        ensures
            final(self).wf(),
            detached(old(self).nodes_map(), final(self).nodes_map(), id, op),
            final(self).root() == old(self).root(),
            final(self).frames_map() == old(self).frames_map(),
            final(self).pending() == old(self).pending(),
            forall|x: UiNodeId|
                #[trigger] descends_from(final(self).nodes_map(), x, id) ==> descends_from(
                    old(self).nodes_map(),
                    x,
                    id,
                ),
            parent_links_ok(old(self).nodes_map()) ==> parent_links_ok(final(self).nodes_map()),
    {
        let ghost s = *self;
        proof {
            assert(live_parent(s.nodes@, id) == Some(op));
            assert(op != id);
        }
        match self.child_position(op, id) {
            Some(pos) => {
                let mut rp = self.nodes.remove(&op).unwrap();
                rp.children.remove(pos);
                self.nodes.insert(op, rp);
            },
            None => {},
        }
        let mut rc = self.nodes.remove(&id).unwrap();
        rc.parent = None;
        self.nodes.insert(id, rc);
        proof {
            lemma_detached(s, *self, id, op);
            self.depth = Ghost(crate::tree::reparented_depth(s.nodes@, s.depth@, id, None));
            self.depth_bound = Ghost(2 * s.depth_bound@ + 1);
            let nn = self.nodes@;
            assert(self.frames@.dom().subset_of(nn.dom()));
            assert forall|x: UiNodeId| #[trigger]
                descends_from(nn, x, id) implies descends_from(s.nodes@, x, id) by {
                crate::tree::lemma_descends_relink(s.nodes@, nn, x, id);
            }
        }
    }

    /// Gives `id`, detached from `op` in `o`, its parent link back after a failed move.
    fn relink(&mut self, id: UiNodeId, op: UiNodeId, Ghost(o): Ghost<Self>)
        requires
            o.wf(),
            o.nodes_map().contains_key(id),
            o.nodes_map().contains_key(op),
            o.nodes_map()[id].parent == Some(op),
            old(self).wf(),
            detached(o.nodes_map(), old(self).nodes_map(), id, op),
            old(self).root() == o.root(),
            old(self).frames_map() == o.frames_map(),
            old(self).pending() == o.pending(),
        ensures
            final(self).wf(),
            final(self).nodes_map() == old(self).nodes_map().insert(id, o.nodes_map()[id]),
            final(self).root() == old(self).root(),
            final(self).frames_map() == old(self).frames_map(),
            final(self).pending() == old(self).pending(),
    {
        let ghost s = *self;
        let mut rc = self.nodes.remove(&id).unwrap();
        rc.parent = Some(op);
        self.nodes.insert(id, rc);
        proof {
            let on = o.nodes@;
            let sn = s.nodes@;
            let nn = self.nodes@;
            assert(nn.dom() =~= on.dom());
            assert forall|x: UiNodeId| #[trigger] nn.contains_key(x) implies live_parent(nn, x)
                == live_parent(on, x) by {
                if x != id && x != op {
                    assert(sn[x] == on[x]);
                }
            }
            assert(depth_exact(nn, o.depth@));
            self.depth = Ghost(o.depth@);
            self.depth_bound = Ghost(o.depth_bound@);
            assert forall|q: UiNodeId, i: int|
                nn.contains_key(q) && 0 <= i < nn[q].children@.len() implies {
                &&& nn.contains_key(#[trigger] nn[q].children@[i])
                &&& nn[nn[q].children@[i]].parent == Some(q)
            } by {
                assert(sn.contains_key(q));
                assert(sn[q].children@[i] == nn[q].children@[i]);
                if nn[q].children@[i] == id {
                    assert(sn[id].parent == Some(q));
                }
            }
            assert forall|q: UiNodeId| #[trigger]
                nn.contains_key(q) implies nn[q].children@.no_duplicates() by {
                assert(sn.contains_key(q));
            }
            match self.root_id {
                Some(r) => {
                    assert(on.contains_key(r));
                    assert(r != id);
                },
                None => {},
            }
        }
    }

    fn move_node<A: PlatformAdapter<Handle = H>>(
        &mut self,
        adapter: &mut A,
        id: UiNodeId,
        new_parent: UiNodeId,
        index: usize,
    ) -> (r: Result<(), BackendError>)
        requires
            old(self).wf(),
        ensures
            final(self).wf(),
            old(self).move_rejection(id, new_parent) matches Some(msg) ==> rejected_with(r, msg)
                && *final(self) == *old(self) && *final(adapter) == *old(adapter),
            old(self).move_rejection(id, new_parent) is None ==> exists|
                a: &mut A,
                unlinked: Result<(), BackendError>,
            |
                mut_ref_current(a) == *old(adapter) && #[trigger] call_ensures(
                    A::remove_child,
                    (
                        a,
                        old(self).nodes_map()[old(self).nodes_map()[id].parent->0].handle,
                        old(self).nodes_map()[id].handle,
                    ),
                    unlinked,
                ) && (unlinked is Err ==> r == unlinked && mut_ref_future(a) == *final(adapter)
                    && *final(self) == *old(self)) && (unlinked is Ok ==> exists|b: &mut A|
                    mut_ref_current(b) == mut_ref_future(a) && mut_ref_future(b)
                        == *final(adapter) && #[trigger] call_ensures(
                        A::insert_child,
                        (
                            b,
                            old(self).nodes_map()[new_parent].handle,
                            id,
                            old(self).nodes_map()[id].handle,
                            clamped(index, old(self).move_base(id, new_parent).len()),
                        ),
                        r,
                    ) && (r is Err ==> old(self).move_unlisted(final(self), id)) && (r is Ok
                        ==> old(self).node_moved(final(self), id, new_parent, index))),
            old(self).is_well_formed_tree() && r is Ok ==> final(self).is_well_formed_tree(),
    {
        if self.root_id == Some(id) {
            return Err(reject(String::from_str("root node cannot be moved")));
        }
        let old_parent = match self.nodes.get(&id) {
            Some(rec) => match rec.parent {
                Some(p) => p,
                None => {
                    return Err(reject_with_id("node ", id, " has no parent"));
                },
            },
            None => {
                return Err(reject_id("unknown node id ", id));
            },
        };
        if !self.nodes.contains_key(&new_parent) {
            return Err(reject_id("unknown parent node id ", new_parent));
        }
        let parent_kind = self.nodes.get(&new_parent).unwrap().kind;
        if !accepts_children(parent_kind) {
            return Err(reject_texts(kind_str(parent_kind), " cannot accept children"));
        }
        if self.would_cycle(new_parent, id) {
            return Err(
                reject_with_two_ids(
                    "moving node ",
                    id,
                    " under ",
                    new_parent,
                    " would create a cycle",
                ),
            );
        }
        let old_parent_handle = match self.nodes.get(&old_parent) {
            Some(rec) => rec.handle,
            None => {
                return Err(reject_id("unknown node id ", old_parent));
            },
        };
        let handle = self.nodes.get(&id).unwrap().handle;
        let new_parent_handle = self.nodes.get(&new_parent).unwrap().handle;
        let unlinked = adapter.remove_child(old_parent_handle, handle);
        if unlinked.is_err() {
            return unlinked;
        }
        let ghost o = *self;
        self.detach(id, old_parent);
        let len = self.nodes.get(&new_parent).unwrap().children.len();
        let insert_at = if index < len {
            index
        } else {
            len
        };
        proof {
            assert(self.nodes@[new_parent].children@ == o.move_base(id, new_parent));
            assert(insert_at == clamped(index, o.move_base(id, new_parent).len()));
        }
        let answer = adapter.insert_child(new_parent_handle, id, handle, insert_at);
        if answer.is_err() {
            let ghost d = *self;
            self.relink(id, old_parent, Ghost(o));
            proof {
                assert(self.nodes@ == d.nodes@.insert(id, o.nodes@[id]));
                assert(self.nodes@.dom() =~= o.nodes@.dom());
                assert(o.move_unlisted(self, id));
            }
            return answer;
        }
        proof {
            let mn = self.nodes@;
            lemma_descends_iff_in_subtree(mn, self.depth@, new_parent, id);
            assert(self.root_id != Some(id));
        }
        let ghost m = *self;
        self.link_child(new_parent, id, insert_at);
        proof {
            let on = o.nodes@;
            let fnn = self.nodes@;
            assert(fnn.dom() =~= on.dom());
            assert forall|x: UiNodeId| #[trigger]
                fnn.contains_key(x) && x != id && x != old_parent && x != new_parent implies fnn[x]
                == on[x] by {
                assert(m.nodes@[x] == on[x]);
            }
        }
        answer
    }

    fn remove_node<A: PlatformAdapter<Handle = H>>(&mut self, adapter: &mut A, id: UiNodeId) -> (r:
        Result<(), BackendError>)
        requires
            old(self).wf(),
        ensures
            final(self).wf(),
            old(self).root() == Some(id) ==> rejected_with(
                r,
                "root node cannot be removed without replacement"@,
            ) && *final(self) == *old(self),
            old(self).root() != Some(id) && !old(self).nodes_map().contains_key(id)
                ==> rejected_with(r, "unknown node id "@ + decimal_text(id as nat)) && *final(self)
                == *old(self),
            old(self).root() != Some(id) ==> old(self).subtree_removal(final(self), id, r is Ok),
            r is Err && old(self).root() != Some(id) && old(self).nodes_map().contains_key(id)
                && parent_links_ok(old(self).nodes_map()) ==> adapter_refused::<A>(r),
            r is Ok ==> exists|a: &mut A, l: &[EventKind]|
                mut_ref_future(a) == *final(adapter) && #[trigger] call_ensures(
                    A::remove_view,
                    (a, id, old(self).nodes_map()[id].handle, l),
                    r,
                ),
            old(self).root() == Some(id) || !old(self).nodes_map().contains_key(id)
                ==> *final(adapter) == *old(adapter),
            r is Ok && parent_links_ok(old(self).nodes_map()) ==> forall|x: UiNodeId|
                #[trigger] descends_from(old(self).nodes_map(), x, id) ==> view_removed::<A>(
                    x,
                    old(self).nodes_map()[x].handle,
                ),
            old(self).is_well_formed_tree() && r is Ok ==> final(self).is_well_formed_tree(),
    {
        if self.root_id == Some(id) {
            return Err(reject(String::from_str("root node cannot be removed without replacement")));
        }
        let ghost o = *self;
        let r = self.remove_subtree(adapter, id);
        proof {
            if o.is_well_formed_tree() && r is Ok {
                lemma_removal_keeps_tree(o, *self, id);
            }
        }
        r
    }

    /// The text of the rejection of `ReplaceNode { old, new_id, .. }`, if the checks reject
    /// it.
    pub open spec fn replace_rejection(&self, old_id: UiNodeId, new_id: UiNodeId) -> Option<
        Seq<char>,
    > {
        if self.nodes_map().contains_key(new_id) {
            Some("duplicate node id "@ + decimal_text(new_id as nat))
        } else if !self.nodes_map().contains_key(old_id) {
            Some("unknown node id "@ + decimal_text(old_id as nat))
        } else {
            None
        }
    }

    /// `after` is `self` with the subtree of `old_id` replaced by a fresh node `new_id` of
    /// `kind` that takes its place: in the child list of its parent, or as the root.
    pub open spec fn node_replaced(
        &self,
        after: &Self,
        old_id: UiNodeId,
        new_id: UiNodeId,
        kind: ElementKind,
    ) -> bool {
        let o = self.nodes_map();
        let f = after.nodes_map();
        let rec = f[new_id];
        &&& !f.contains_key(old_id)
        &&& f.contains_key(new_id)
        &&& rec.kind == kind
        &&& rec.parent == o[old_id].parent
        &&& rec.children@.len() == 0
        &&& rec.props@.len() == 0
        &&& rec.text is None
        &&& rec.listeners@.len() == 0
        &&& forall|x: UiNodeId| #[trigger]
            f.contains_key(x) && x != new_id ==> o.contains_key(x) && f[x].parent == o[x].parent
        &&& forall|x: UiNodeId| #[trigger]
            o.contains_key(x) && !descends_from(o, x, old_id) && o[old_id].parent != Some(x)
                ==> f.contains_key(x) && f[x] == o[x]
        &&& match o[old_id].parent {
            Some(p) => {
                let l = o[p].children@;
                let rest = without(l, old_id);
                let at = if l.contains(old_id) {
                    l.index_of(old_id)
                } else {
                    rest.len() as int
                };
                &&& f.contains_key(p)
                &&& f[p] == NodeRecord { children: f[p].children, ..o[p] }
                &&& f[p].children@ == rest.insert(at, new_id)
                &&& after.root() == self.root()
            },
            None => after.root() == Some(new_id),
        }
        &&& after.frames_map() == self.frames_map().restrict(f.dom())
        &&& after.pending() == frames_within(self.pending(), f.dom())
        &&& parent_links_ok(o) ==> forall|x: UiNodeId| #[trigger]
            descends_from(o, x, old_id) ==> !f.contains_key(x)
    }

    fn replace_node<A: PlatformAdapter<Handle = H>>(
        &mut self,
        adapter: &mut A,
        old_id: UiNodeId,
        new_id: UiNodeId,
        kind: ElementKind,
    ) -> (r: Result<(), BackendError>)
        requires
            old(self).wf(),
        ensures
            final(self).wf(),
            old(self).replace_rejection(old_id, new_id) matches Some(msg) ==> rejected_with(
                r,
                msg,
            ) && *final(self) == *old(self) && *final(adapter) == *old(adapter),
            old(self).replace_rejection(old_id, new_id) is None && r is Err && parent_links_ok(
                old(self).nodes_map(),
            ) ==> adapter_refused::<A>(r) || late_refusal(
                Mutation::ReplaceNode { old: old_id, new_id, kind },
                r,
            ),
            old(self).replace_rejection(old_id, new_id) is None ==> exists|
                a: &mut A,
                t: Option<&str>,
                made: Result<H, BackendError>,
            |
                mut_ref_current(a) == *old(adapter) && t is None && #[trigger] call_ensures(
                    A::create_view,
                    (a, kind, t),
                    made,
                ) && match made {
                    Err(e) => r == Err::<(), BackendError>(e) && mut_ref_future(a)
                        == *final(adapter) && *final(self) == *old(self),
                    Ok(h) => r is Ok ==> final(self).nodes_map()[new_id].handle == h,
                },
            r is Ok && parent_links_ok(old(self).nodes_map()) ==> forall|x: UiNodeId|
                #[trigger] descends_from(old(self).nodes_map(), x, old_id) ==> view_removed::<A>(
                    x,
                    old(self).nodes_map()[x].handle,
                ),
            old(self).replace_rejection(old_id, new_id) is None ==> {
                ||| r is Err
                ||| (r is Ok && old(self).node_replaced(final(self), old_id, new_id, kind))
            },
            old(self).is_well_formed_tree() && r is Ok ==> final(self).is_well_formed_tree(),
    {
        if self.nodes.contains_key(&new_id) {
            return Err(reject_id("duplicate node id ", new_id));
        }
        let parent_opt = match self.nodes.get(&old_id) {
            Some(rec) => rec.parent,
            None => {
                return Err(reject_id("unknown node id ", old_id));
            },
        };
        let replace_index = match parent_opt {
            Some(p) => if self.nodes.contains_key(&p) {
                self.child_position(p, old_id)
            } else {
                None
            },
            None => None,
        };
        let made = adapter.create_view(kind, None);
        let new_handle = match made {
            Ok(h) => h,
            Err(e) => {
                return Err(e);
            },
        };
        let ghost o = *self;
        match self.remove_subtree(adapter, old_id) {
            Ok(()) => {},
            Err(e) => {
                return Err(e);
            },
        }
        let ghost m = *self;
        proof {
            assert(!m.nodes@.contains_key(new_id));
            if o.is_well_formed_tree() {
                lemma_removal_keeps_tree(o, m, old_id);
            }
        }
        self.add_fresh(new_id, kind, new_handle, None);
        let ghost a = *self;
        match parent_opt {
            Some(p) => {
                let len = self.nodes.get(&p).unwrap().children.len();
                let index = match replace_index {
                    Some(i) => i,
                    None => len,
                };
                let insert_at = if index < len {
                    index
                } else {
                    len
                };
                proof {
                    let l = o.nodes@[p].children@;
                    assert(o.nodes@.contains_key(p));
                    assert(self.nodes@[p].children@ == without(l, old_id));
                    if l.contains(old_id) {
                        assert(without(l, old_id).len() == l.len() - 1);
                    }
                    assert(insert_at == replace_position(l, old_id));
                }
                if self.would_cycle(p, new_id) {
                    return Err(
                        reject_with_two_ids(
                            "inserting node ",
                            new_id,
                            " under ",
                            p,
                            " would create a cycle",
                        ),
                    );
                }
                let parent_handle = self.nodes.get(&p).unwrap().handle;
                match adapter.insert_child(parent_handle, new_id, new_handle, insert_at) {
                    Ok(()) => {},
                    Err(e) => {
                        return Err(e);
                    },
                }
                proof {
                    lemma_descends_iff_in_subtree(self.nodes@, self.depth@, p, new_id);
                }
                self.link_child(p, new_id, insert_at);
                proof {
                    lemma_replaced(o, m, a, *self, old_id, new_id, kind, insert_at);
                }
                Ok(())
            },
            None => {
                self.root_id = Some(new_id);
                proof {
                    assert(self.frames@.dom().subset_of(self.nodes@.dom()));
                    lemma_replaced(o, m, a, *self, old_id, new_id, kind, 0);
                    assert(root_ok(self.root_id, self.nodes@));
                }
                adapter.attach_root(new_id, new_handle)
            },
        }
    }

    /// The text of the rejection of `m` by the executor's checks, if they reject it.
    pub open spec fn mutation_rejection(&self, m: Mutation) -> Option<Seq<char>> {
        let nodes = self.nodes_map();
        match m {
            Mutation::CreateNode { id, .. } => if nodes.contains_key(id) {
                Some("duplicate node id "@ + decimal_text(id as nat))
            } else {
                None
            },
            Mutation::CreateTextNode { id, .. } => if nodes.contains_key(id) {
                Some("duplicate node id "@ + decimal_text(id as nat))
            } else {
                None
            },
            Mutation::SetText { id, .. } => if !nodes.contains_key(id) {
                Some("unknown node id "@ + decimal_text(id as nat))
            } else if !spec_supports_text(nodes[id].kind) {
                Some("set_text is unsupported for "@ + kind_text(nodes[id].kind))
            } else {
                None
            },
            Mutation::SetProp { id, .. } => self.unknown_rejection(id),
            Mutation::UnsetProp { id, .. } => self.unknown_rejection(id),
            Mutation::InsertChild { parent, child, .. } => self.insert_child_rejection(
                parent,
                child,
            ),
            Mutation::MoveNode { id, new_parent, .. } => self.move_rejection(id, new_parent),
            Mutation::ReplaceNode { old: old_id, new_id, .. } => self.replace_rejection(
                old_id,
                new_id,
            ),
            Mutation::RemoveNode { id } => if self.root() == Some(id) {
                Some("root node cannot be removed without replacement"@)
            } else {
                self.unknown_rejection(id)
            },
            Mutation::AttachEventListener { id, .. } => self.unknown_rejection(id),
        }
    }

    /// The rejection of a mutation that names the absent node `id`.
    pub open spec fn unknown_rejection(&self, id: UiNodeId) -> Option<Seq<char>> {
        if self.nodes_map().contains_key(id) {
            None
        } else {
            Some("unknown node id "@ + decimal_text(id as nat))
        }
    }

    /// `after` is `self` with the accepted mutation `m` applied.
    pub open spec fn mutation_applied(&self, after: &Self, m: Mutation) -> bool {
        match m {
            Mutation::CreateNode { id, kind } => self.node_created(after, id, kind, None),
            Mutation::CreateTextNode { id, text } => self.node_created(
                after,
                id,
                ElementKind::Text,
                Some(text),
            ),
            Mutation::SetText { id, text } => self.text_set(after, id, text@),
            Mutation::SetProp { id, key, value } => self.prop_set(after, id, key, value),
            Mutation::UnsetProp { id, key } => self.prop_unset(after, id, key),
            Mutation::InsertChild { parent, child, index } => self.child_inserted(
                after,
                parent,
                child,
                index as usize,
            ),
            Mutation::MoveNode { id, new_parent, index } => self.node_moved(
                after,
                id,
                new_parent,
                index as usize,
            ),
            Mutation::ReplaceNode { old: old_id, new_id, kind } => self.node_replaced(
                after,
                old_id,
                new_id,
                kind,
            ),
            Mutation::RemoveNode { id } => self.subtree_removal(after, id, true),
            Mutation::AttachEventListener { id, event } => self.listener_attached(
                after,
                id,
                event,
            ),
        }
    }

    /// `after` results from `self` by applying the mutations of `ms` in order, each one
    /// accepted and applied.
    pub open spec fn batch_applied(&self, after: &Self, ms: Seq<Mutation>) -> bool {
        exists|states: Seq<Self>| #[trigger] self.batch_trace(after, ms, states)
    }

    /// `states` lists the states that the mutations of `ms` pass through from `self` to
    /// `after`, each mutation accepted and applied.
    pub open spec fn batch_trace(&self, after: &Self, ms: Seq<Mutation>, states: Seq<Self>) -> bool {
        &&& states.len() == ms.len() + 1
        &&& states[0] == *self
        &&& states.last() == *after
        &&& forall|i: int|
            0 <= i < ms.len() ==> (#[trigger] states[i]).mutation_rejection(ms[i]) is None
                && states[i].mutation_applied(&states[i + 1], ms[i])
    }

    /// A batch `ms` that stopped at mutation `k`: the first `k` were accepted and applied,
    /// leading from `self` to `mid`, and mutation `k` then either was refused with its
    /// message, the state left at `mid`, or was accepted and failed: with sound parent links
    /// at `mid`, on a refusal of the adapter (or, for a replacement, a cycle found once the
    /// old node was gone).
    pub open spec fn batch_stopped_at<A: PlatformAdapter>(
        &self,
        after: &Self,
        ms: Seq<Mutation>,
        k: int,
        mid: Self,
        r: Result<(), BackendError>,
    ) -> bool {
        &&& 0 <= k < ms.len()
        &&& self.batch_applied(&mid, ms.take(k))
        &&& match mid.mutation_rejection(ms[k]) {
            Some(msg) => rejected_with(r, msg) && *after == mid,
            None => r is Err && (parent_links_ok(mid.nodes_map()) ==> adapter_refused::<A>(r)
                || late_refusal(ms[k], r)),
        }
    }

    fn apply_mutation<A: PlatformAdapter<Handle = H>>(
        &mut self,
        adapter: &mut A,
        mutation: &Mutation,
    ) -> (r: Result<(), BackendError>)
        requires
            old(self).wf(),
        ensures
            final(self).wf(),
            old(self).mutation_rejection(*mutation) matches Some(msg) ==> rejected_with(r, msg)
                && *final(self) == *old(self) && *final(adapter) == *old(adapter),
            old(self).mutation_rejection(*mutation) is None ==> r is Err
                || old(self).mutation_applied(final(self), *mutation),
            old(self).mutation_rejection(*mutation) is None && r is Err && parent_links_ok(
                old(self).nodes_map(),
            ) ==> adapter_refused::<A>(r) || late_refusal(*mutation, r),
            old(self).is_well_formed_tree() && r is Ok ==> final(self).is_well_formed_tree(),
    {
        match mutation {
            Mutation::CreateNode { id, kind } => self.create_node(adapter, *id, *kind, None),
            Mutation::CreateTextNode { id, text } => self.create_node(
                adapter,
                *id,
                ElementKind::Text,
                Some(text.clone()),
            ),
            Mutation::SetText { id, text } => self.set_text(adapter, *id, text.as_str()),
            Mutation::SetProp { id, key, value } => self.set_prop(adapter, *id, *key, value),
            Mutation::UnsetProp { id, key } => self.unset_prop(adapter, *id, *key),
            Mutation::InsertChild { parent, child, index } => self.insert_child(
                adapter,
                *parent,
                *child,
                *index as usize,
            ),
            Mutation::MoveNode { id, new_parent, index } => self.move_node(
                adapter,
                *id,
                *new_parent,
                *index as usize,
            ),
            Mutation::ReplaceNode { old: old_id, new_id, kind } => self.replace_node(
                adapter,
                *old_id,
                *new_id,
                *kind,
            ),
            Mutation::RemoveNode { id } => self.remove_node(adapter, *id),
            Mutation::AttachEventListener { id, event } => self.attach_listener(
                adapter,
                *id,
                *event,
            ),
        }
    }

    /// Applies `mutations` in order through `adapter`, stopping at the first that fails.
    pub fn apply_mutations<A: PlatformAdapter<Handle = H>>(
        &mut self,
        adapter: &mut A,
        mutations: &[Mutation],
    ) -> (r: Result<(), BackendError>)
        requires
            old(self).wf(),
        ensures
            final(self).wf(),
            r is Ok ==> old(self).batch_applied(final(self), mutations@),
            mutations@.len() == 0 ==> r is Ok && *final(self) == *old(self) && *final(adapter)
                == *old(adapter),
            r is Err ==> exists|k: int, mid: Self|
                #[trigger] old(self).batch_stopped_at::<A>(final(self), mutations@, k, mid, r),
            mutations@.len() > 0 ==> (old(self).mutation_rejection(mutations@[0]) matches Some(
                msg,
            ) ==> rejected_with(r, msg) && *final(self) == *old(self)),
            old(self).is_well_formed_tree() && r is Ok ==> final(self).is_well_formed_tree(),
    {
        let ghost start = *self;
        let ghost mut trace: Seq<Self> = seq![*self];
        let mut i: usize = 0;
        while i < mutations.len()
            invariant
                self.wf(),
                i <= mutations@.len(),
                start == *old(self),
                start.batch_trace(self, mutations@.take(i as int), trace),
                start.is_well_formed_tree() ==> self.is_well_formed_tree(),
                i == 0 ==> *self == start && *adapter == *old(adapter),
                i > 0 ==> start.mutation_rejection(mutations@[0]) is None,
            decreases mutations@.len() - i,
        {
            let ghost before = *self;
            let r = self.apply_mutation(adapter, &mutations[i]);
            if r.is_err() {
                proof {
                    if i == 0 {
                        assert(mutations@.take(0).len() == 0);
                        assert(before == start);
                    }
                    assert(start.batch_trace(&before, mutations@.take(i as int), trace));
                    assert(start.batch_stopped_at::<A>(self, mutations@, i as int, before, r));
                }
                return r;
            }
            proof {
                let ms = mutations@.take(i + 1);
                let old_trace = trace;
                trace = trace.push(*self);
                assert forall|j: int| 0 <= j < ms.len() implies (#[trigger] trace[j]).mutation_rejection(
                    ms[j],
                ) is None && trace[j].mutation_applied(&trace[j + 1], ms[j]) by {
                    if j < i {
                        assert(trace[j] == old_trace[j]);
                        assert(trace[j + 1] == old_trace[j + 1]);
                        assert(ms[j] == mutations@.take(i as int)[j]);
                    } else {
                        assert(trace[j] == before);
                        assert(ms[j] == mutations@[i as int]);
                    }
                }
            }
            i = i + 1;
        }
        proof {
            assert(mutations@.take(mutations@.len() as int) =~= mutations@);
            assert(start.batch_trace(self, mutations@, trace));
        }
        Ok(())
    }

    /// Queues `frames` for the next flush, after checking each one; stops at the first that
    /// is invalid or names an absent node.
    pub fn apply_layout(&mut self, frames: &[LayoutFrame]) -> (r: Result<(), BackendError>)
        requires
            old(self).wf(),
        ensures
            final(self).wf(),
            final(self).nodes_map() == old(self).nodes_map(),
            final(self).root() == old(self).root(),
            final(self).frames_map() == old(self).frames_map(),
            old(self).is_well_formed_tree() ==> final(self).is_well_formed_tree(),
            (forall|j: int|
                0 <= j < frames@.len() ==> frame_rejection(
                    #[trigger] frames@[j],
                    old(self).nodes_map().dom(),
                ) is None) ==> r is Ok,
            r is Ok ==> final(self).pending() == old(self).pending() + frames@,
            r is Ok ==> forall|j: int|
                0 <= j < frames@.len() ==> frame_rejection(
                    #[trigger] frames@[j],
                    old(self).nodes_map().dom(),
                ) is None,
            r is Err ==> exists|k: int|
                0 <= k < frames@.len() && (forall|j: int|
                    0 <= j < k ==> frame_rejection(
                        #[trigger] frames@[j],
                        old(self).nodes_map().dom(),
                    ) is None) && (frame_rejection(frames@[k], old(self).nodes_map().dom())
                    matches Some(msg) && rejected_with(r, msg)) && final(self).pending() == old(
                    self,
                ).pending() + #[trigger] frames@.take(k),
    {
        let ghost start = *self;
        let mut i: usize = 0;
        while i < frames.len()
            invariant
                self.wf(),
                i <= frames@.len(),
                start == *old(self),
                self.nodes@ == start.nodes@,
                self.root_id == start.root_id,
                self.frames@ == start.frames@,
                self.depth == start.depth,
                self.depth_bound == start.depth_bound,
                self.pending_layout@ == start.pending_layout@ + frames@.take(i as int),
                forall|j: int|
                    0 <= j < i ==> frame_rejection(#[trigger] frames@[j], start.nodes@.dom())
                        is None,
            decreases frames@.len() - i,
        {
            let frame = frames[i];
            match frame.validate() {
                Ok(()) => {},
                Err(err) => {
                    proof {
                        assert(frames@.take(i as int).len() == i);
                    }
                    return Err(reject_texts("invalid layout frame: ", frame_error_str(err)));
                },
            }
            if !self.nodes.contains_key(&frame.id) {
                proof {
                    assert(frames@.take(i as int).len() == i);
                }
                return Err(reject_id("layout references unknown node id ", frame.id));
            }
            let ghost before = self.pending_layout@;
            self.pending_layout.push(frame);
            proof {
                assert(frames@.take(i + 1) =~= frames@.take(i as int).push(frame));
                assert forall|j: int| 0 <= j < self.pending_layout@.len() implies self.nodes@.contains_key(
                    #[trigger] self.pending_layout@[j].id,
                ) by {
                    if j < before.len() {
                        assert(self.pending_layout@[j] == before[j]);
                    }
                }
            }
            i = i + 1;
        }
        proof {
            assert(frames@.take(frames@.len() as int) =~= frames@);
        }
        Ok(())
    }

    /// Hands the queued frames to the adapter in order, records them, and flushes the
    /// adapter; the queue is empty afterwards whatever happens.
    pub fn flush<A: PlatformAdapter<Handle = H>>(&mut self, adapter: &mut A) -> (r: Result<
        (),
        BackendError,
    >)
        requires
            old(self).wf(),
        ensures
            final(self).wf(),
            final(self).nodes_map() == old(self).nodes_map(),
            final(self).root() == old(self).root(),
            final(self).pending() == Seq::<LayoutFrame>::empty(),
            old(self).is_well_formed_tree() ==> final(self).is_well_formed_tree(),
            r is Ok ==> final(self).frames_map() == frames_recorded(
                old(self).frames_map(),
                old(self).pending(),
            ),
            exists|k: int|
                0 <= k <= old(self).pending().len() && final(self).frames_map() == frames_recorded(
                    old(self).frames_map(),
                    #[trigger] old(self).pending().take(k),
                ),
    {
        let ghost start = *self;
        let mut queued: Vec<LayoutFrame> = Vec::new();
        std::mem::swap(&mut queued, &mut self.pending_layout);
        proof {
            assert(start.pending_layout@.take(0) =~= Seq::<LayoutFrame>::empty());
        }
        let mut i: usize = 0;
        while i < queued.len()
            invariant
                self.wf(),
                i <= queued@.len(),
                start == *old(self),
                start.wf(),
                queued@ == start.pending_layout@,
                self.nodes@ == start.nodes@,
                self.root_id == start.root_id,
                self.depth == start.depth,
                self.depth_bound == start.depth_bound,
                self.pending_layout@ == Seq::<LayoutFrame>::empty(),
                self.frames@ == frames_recorded(start.frames@, queued@.take(i as int)),
            decreases queued@.len() - i,
        {
            let frame = queued[i];
            proof {
                assert(start.nodes@.contains_key(start.pending_layout@[i as int].id));
            }
            proof {
                assert(self.frames_map() == frames_recorded(
                    start.frames_map(),
                    start.pending().take(i as int),
                ));
            }
            let handle = match self.nodes.get(&frame.id) {
                Some(rec) => rec.handle,
                None => {
                    return Err(reject_id("layout references unknown node id ", frame.id));
                },
            };
            match adapter.apply_frame(handle, frame) {
                Ok(()) => {},
                Err(e) => {
                    return Err(e);
                },
            }
            self.frames.insert(frame.id, frame);
            proof {
                let t = queued@.take(i + 1);
                assert(t.drop_last() =~= queued@.take(i as int));
                assert(t.last() == frame);
            }
            i = i + 1;
        }
        proof {
            assert(queued@.take(queued@.len() as int) =~= queued@);
            assert(self.frames_map() == frames_recorded(
                start.frames_map(),
                start.pending().take(start.pending().len() as int),
            ));
        }
        adapter.flush()
    }

    /// The events the platform has queued since the last call.
    pub fn drain_events<A: PlatformAdapter<Handle = H>>(&mut self, adapter: &mut A) -> (r: Vec<
        UiEvent,
    >)
        ensures
            *final(self) == *old(self),
            exists|a: &mut A|
                mut_ref_current(a) == *old(adapter)
                    && mut_ref_future(a) == *final(adapter)
                    && #[trigger] call_ensures(A::drain_events, (a,), r),
    {
        adapter.drain_events()
    }

    /// What removing the subtree of `id` does, whatever the adapter answers; `ok` when it
    /// succeeded.
    pub open spec fn subtree_removal(&self, after: &Self, id: UiNodeId, ok: bool) -> bool {
        let o = self.nodes_map();
        let f = after.nodes_map();
        &&& forall|x: UiNodeId| #[trigger]
            f.contains_key(x) ==> o.contains_key(x) && f[x].parent == o[x].parent
        &&& forall|x: UiNodeId| #[trigger]
            o.contains_key(x) && !descends_from(o, x, id) ==> f.contains_key(x) && (f[x] == o[x]
                || (o[id].parent == Some(x) && f[x] == NodeRecord {
                children: f[x].children,
                ..o[x]
            } && f[x].children@ == without(o[x].children@, id)))
        &&& (after.root() == self.root() || (self.root() == Some(id) && after.root() is None))
        &&& after.frames_map() == self.frames_map().restrict(f.dom())
        &&& after.pending() == frames_within(self.pending(), f.dom())
        &&& ok ==> !f.contains_key(id)
        &&& ok ==> (self.root() == Some(id) ==> after.root() is None)
        &&& ok ==> unlisted_from_parent(o, f, id)
        &&& ok ==> (o[id].parent is Some ==> o.contains_key(o[id].parent->0))
        &&& ok && parent_links_ok(o) ==> forall|x: UiNodeId| #[trigger]
            descends_from(o, x, id) ==> !f.contains_key(x)
    }

    /// Position of `id` in the child list of `p`.
    fn child_position(&self, p: UiNodeId, id: UiNodeId) -> (r: Option<usize>)
        requires
            self.wf(),
            self.nodes_map().contains_key(p),
        ensures
            match r {
                Some(i) => i < self.nodes_map()[p].children@.len()
                    && self.nodes_map()[p].children@[i as int] == id
                    && self.nodes_map()[p].children@.contains(id)
                    && self.nodes_map()[p].children@.index_of(id) == i,
                None => !self.nodes_map()[p].children@.contains(id),
            },
    {
        let rec = self.nodes.get(&p).unwrap();
        let ghost list = rec.children@;
        assert(list == self.nodes_map()[p].children@);
        assert(list.no_duplicates());
        let mut i: usize = 0;
        while i < rec.children.len()
            invariant
                i <= list.len(),
                list == rec.children@,
                list == self.nodes_map()[p].children@,
                list.no_duplicates(),
                forall|j: int| 0 <= j < i ==> list[j] != id,
            decreases list.len() - i,
        {
            if rec.children[i] == id {
                assert(list.contains(id));
                let ghost k = list.index_of(id);
                assert(0 <= k < list.len() && list[k] == id);
                assert(k == i);
                return Some(i);
            }
            i = i + 1;
        }
        None
    }

    /// Removes node `id` and everything listed below it, children first.
    fn remove_subtree<A: PlatformAdapter<Handle = H>>(&mut self, adapter: &mut A, id: UiNodeId) -> (r:
        Result<(), BackendError>)
        requires
            old(self).wf(),
        ensures
            final(self).wf(),
            final(self).depth_bound == old(self).depth_bound,
            forall|x: UiNodeId| #[trigger]
                final(self).nodes@.contains_key(x) && !descends_from(old(self).nodes@, x, id)
                    ==> final(self).depth@[x] == old(self).depth@[x],
            !old(self).nodes_map().contains_key(id) ==> rejected_with(
                r,
                "unknown node id "@ + decimal_text(id as nat),
            ) && *final(self) == *old(self) && *final(adapter) == *old(adapter),
            old(self).subtree_removal(final(self), id, r is Ok),
            r is Err && old(self).nodes_map().contains_key(id) && parent_links_ok(
                old(self).nodes_map(),
            ) ==> adapter_refused::<A>(r),
            r is Ok ==> exists|a: &mut A, l: &[EventKind]|
                mut_ref_future(a) == *final(adapter) && #[trigger] call_ensures(
                    A::remove_view,
                    (a, id, old(self).nodes_map()[id].handle, l),
                    r,
                ),
            r is Ok && parent_links_ok(old(self).nodes_map()) ==> forall|x: UiNodeId|
                #[trigger] descends_from(old(self).nodes_map(), x, id) ==> view_removed::<A>(
                    x,
                    old(self).nodes_map()[x].handle,
                ),
        decreases old(self).depth_bound@ - old(self).depth@[id],
    {
        let (parent_opt, handle) = match self.nodes.get(&id) {
            Some(rec) => (rec.parent, rec.handle),
            None => {
                proof {
                    assert(self.frames@ =~= self.frames@.restrict(self.nodes@.dom()));
                    lemma_frames_within_all(self.pending_layout@, self.nodes@.dom());
                }
                return Err(reject_id("unknown node id ", id));
            },
        };
        let ghost o = *self;
        let ghost on = self.nodes@;
        let kids = copy_ids(&self.nodes.get(&id).unwrap().children);
        let n = kids.len();
        proof {
            self.lemma_progress_start(id);
        }
        let mut k: usize = 0;
        while k < n
            invariant
                0 <= k <= n,
                n == kids@.len(),
                parent_opt == on[id].parent,
                handle == on[id].handle,
                on == o.nodes@,
                o == *old(self),
                self.removal_progress(o, id, kids@, k as int),
                parent_links_ok(on) ==> forall|j: int, x: UiNodeId|
                    0 <= j < k && #[trigger] descends_from(on, x, kids@[j]) ==> view_removed::<A>(
                        x,
                        on[x].handle,
                    ),
            decreases n - k,
        {
            let kid = kids[k];
            let ghost s = *self;
            proof {
                assert(self.nodes@[id].children@ == kids@.subrange(k as int, n as int));
                assert(self.nodes@[id].children@[0] == kid);
                assert(self.nodes@.contains_key(id));
                assert(self.nodes@.contains_key(kid));
                assert(live_parent(self.nodes@, kid) == Some(id));
                assert(self.depth@[kid] == self.depth@[id] + 1);
            }
            let r = self.remove_subtree(adapter, kid);
            proof {
                self.lemma_kid_removed(o, s, id, kid, k as int, kids@, r is Ok);
                if r is Err && parent_links_ok(on) {
                    assert(parent_links_ok(s.nodes_map()));
                    assert(adapter_refused::<A>(r));
                }
            }
            if r.is_err() {
                return r;
            }
            proof {
                if parent_links_ok(on) {
                    let sn = s.nodes@;
                    o.lemma_wf_acyclic();
                    assert(depth_exact(on, o.depth@));
                    assert(kids@[k as int] == kid);
                    assert(on[kid].parent == Some(id)) by {
                        assert(on.contains_key(kid));
                    }
                    lemma_parent_not_below(on, o.depth@, kid, id);
                    assert forall|z: UiNodeId| #[trigger] descends_from(on, z, kid) implies sn.contains_key(z)
                        && sn[z].parent == on[z].parent by {
                        assert(descends_from(on, z, kids@[k as int]));
                        assert(z != id);
                    }
                    assert forall|j: int, x: UiNodeId|
                        0 <= j < k + 1 && #[trigger] descends_from(on, x, kids@[j]) implies view_removed::<A>(
                        x,
                        on[x].handle,
                    ) by {
                        if j == k {
                            crate::tree::lemma_descends_keep(on, sn, x, kid);
                            assert(x != id);
                            assert(sn[x] == on[x]);
                        }
                    }
                }
            }
            k = k + 1;
        }
        let r = self.finish_removal(adapter, id, parent_opt, handle, Ghost(o), Ghost(kids@));
        proof {
            if r is Ok && parent_links_ok(on) {
                assert(view_removed::<A>(id, handle));
                assert forall|x: UiNodeId| #[trigger] descends_from(on, x, id) implies view_removed::<A>(
                    x,
                    on[x].handle,
                ) by {
                    if x != id {
                        o.lemma_below_child(id, x);
                    }
                }
            }
        }
        r
    }

    /// The state while the children of `id` (listed in `kids`) are removed one by one, `k`
    /// of them done.
    spec fn removal_progress(&self, o: Self, id: UiNodeId, kids: Seq<UiNodeId>, k: int) -> bool {
        let on = o.nodes@;
        let sn = self.nodes@;
        &&& o.wf()
        &&& on.contains_key(id)
        &&& kids == on[id].children@
        &&& 0 <= k <= kids.len()
        &&& self.wf()
        &&& self.depth_bound == o.depth_bound
        &&& sn.contains_key(id)
        &&& sn[id] == NodeRecord { children: sn[id].children, ..on[id] }
        &&& sn[id].children@ == kids.subrange(k, kids.len() as int)
        &&& self.depth@[id] == o.depth@[id]
        &&& forall|x: UiNodeId| #[trigger]
            sn.contains_key(x) ==> on.contains_key(x) && sn[x].parent == on[x].parent
        &&& forall|x: UiNodeId| #[trigger]
            on.contains_key(x) && !descends_from(on, x, id) ==> sn.contains_key(x) && sn[x] == on[x]
                && self.depth@[x] == o.depth@[x]
        &&& self.root_id == o.root_id
        &&& self.frames@ == o.frames@.restrict(sn.dom())
        &&& self.pending_layout@ == frames_within(o.pending_layout@, sn.dom())
        &&& parent_links_ok(on) ==> {
            &&& parent_links_ok(sn)
            &&& forall|x: UiNodeId| #[trigger] sn.contains_key(x) && x != id ==> sn[x] == on[x]
            &&& forall|x: UiNodeId| #[trigger]
                descends_from(on, x, id) && sn.contains_key(x) && x != id ==> exists|j: int|
                    k <= j < kids.len() && descends_from(on, x, kids[j])
            &&& forall|x: UiNodeId, j: int|
                k <= j < kids.len() && #[trigger] descends_from(on, x, kids[j]) ==> sn.contains_key(
                    x,
                )
        }
    }

    proof fn lemma_progress_start(&self, id: UiNodeId)
        requires
            self.wf(),
            self.nodes@.contains_key(id),
        ensures
            self.removal_progress(*self, id, self.nodes@[id].children@, 0),
    {
        let on = self.nodes@;
        let kids = on[id].children@;
        assert(on[id].children@.subrange(0, kids.len() as int) =~= kids);
        assert(self.frames@ =~= self.frames@.restrict(on.dom()));
        lemma_frames_within_all(self.pending_layout@, on.dom());
        if parent_links_ok(on) {
            assert forall|x: UiNodeId| #[trigger]
                descends_from(on, x, id) && on.contains_key(x) && x != id implies exists|j: int|
                0 <= j < kids.len() && descends_from(on, x, kids[j]) by {
                self.lemma_below_child(id, x);
            }
        }
    }

    /// In a tree, a proper descendant of `id` descends from one of the listed children.
    proof fn lemma_below_child(&self, id: UiNodeId, x: UiNodeId)
        requires
            self.wf(),
            parent_links_ok(self.nodes@),
            self.nodes@.contains_key(id),
            descends_from(self.nodes@, x, id),
            x != id,
        ensures
            exists|j: int|
                0 <= j < self.nodes@[id].children@.len() && descends_from(
                    self.nodes@,
                    x,
                    self.nodes@[id].children@[j],
                ),
    {
        let on = self.nodes@;
        let d = self.depth@;
        crate::tree::lemma_descends_iff_in_subtree(on, d, x, id);
        let m = (d[x] - d[id]) as nat;
        assert(m >= 1) by {
            if m == 0 {
                assert(crate::tree::ancestor(on, x, 0) == x);
            }
        }
        let c = crate::tree::ancestor(on, x, (m - 1) as nat);
        crate::tree::lemma_ancestor_depth(on, d, x, (m - 1) as nat);
        crate::tree::lemma_ancestor_add(on, x, (m - 1) as nat, 1);
        assert(((m - 1) as nat) + 1 == m);
        assert(on.contains_key(c));
        assert(d[c] == d[id] + 1);
        match live_parent(on, c) {
            Some(q) => {
                assert(crate::tree::ancestor(on, c, 1) == crate::tree::ancestor(on, q, 0));
                assert(q == id);
                assert(on[c].parent == Some(id));
                assert(on[id].children@.contains(c));
                let j = choose|j: int| 0 <= j < on[id].children@.len() && on[id].children@[j] == c;
                assert(descends_from(on, x, c));
                assert(descends_from(on, x, on[id].children@[j]));
            },
            None => {
                assert(d[c] == 0);
            },
        }
    }

    /// The removal of one listed child subtree keeps the progress of the parent's removal.
    #[verifier::spinoff_prover]
    #[verifier::rlimit(40)]
    proof fn lemma_kid_removed(
        &self,
        o: Self,
        s: Self,
        id: UiNodeId,
        kid: UiNodeId,
        k: int,
        kids: Seq<UiNodeId>,
        ok: bool,
    )
        requires
            s.removal_progress(o, id, kids, k),
            k < kids.len(),
            kid == kids[k],
            self.wf(),
            self.depth_bound == s.depth_bound,
            forall|x: UiNodeId| #[trigger]
                self.nodes@.contains_key(x) && !descends_from(s.nodes@, x, kid) ==> self.depth@[x]
                    == s.depth@[x],
            s.subtree_removal(self, kid, ok),
        ensures
            o.subtree_removal(self, id, false),
            forall|x: UiNodeId| #[trigger]
                self.nodes@.contains_key(x) && !descends_from(o.nodes@, x, id) ==> self.depth@[x]
                    == o.depth@[x],
            ok ==> self.removal_progress(o, id, kids, k + 1),
    {
        let on = o.nodes@;
        let sn = s.nodes@;
        let fnn = self.nodes@;
        assert(sn[id].children@[0] == kid);
        assert(sn.contains_key(kid));
        assert(sn[kid].parent == Some(id));
        assert(on.contains_key(kid));
        assert(on[kid].parent == Some(id));
        assert(live_parent(on, kid) == Some(id));
        lemma_descends_parent(on, kid, id);
        // what the child's removal can touch lies below `id`
        assert forall|x: UiNodeId| descends_from(sn, x, kid) implies descends_from(on, x, id) by {
            lemma_descends_shrink(on, sn, x, kid);
            lemma_descends_trans(on, x, kid, id);
        }
        assert(!descends_from(sn, id, kid)) by {
            if descends_from(sn, id, kid) {
                lemma_descends_shrink(on, sn, id, kid);
                crate::tree::lemma_descends_iff_in_subtree(on, o.depth@, id, kid);
                assert(on.contains_key(kid));
            }
        }
        assert(s.root_id != Some(kid));
        assert(fnn.dom().subset_of(sn.dom()));
        assert(self.frames@ =~= o.frames@.restrict(fnn.dom()));
        lemma_frames_within_twice(o.pending_layout@, sn.dom(), fnn.dom());
        assert forall|x: UiNodeId| #[trigger]
            on.contains_key(x) && !descends_from(on, x, id) implies fnn.contains_key(x) && fnn[x]
            == on[x] && self.depth@[x] == o.depth@[x] by {
            assert(sn.contains_key(x));
            assert(!descends_from(sn, x, kid));
            lemma_descends_self(on, id);
        }
        if ok {
            assert(fnn.contains_key(id));
            let list = sn[id].children@;
            assert(list.no_duplicates());
            assert(list.contains(kid)) by {
                assert(list[0] == kid);
            }
            let i0 = list.index_of(kid);
            assert(i0 == 0);
            assert(list.remove(0) =~= kids.subrange(k + 1, kids.len() as int));
            if parent_links_ok(on) {
                assert(parent_links_ok(sn));
                assert forall|x: UiNodeId| #[trigger]
                    fnn.contains_key(x) && x != id implies fnn[x] == on[x] by {
                    assert(!descends_from(sn, x, kid));
                    assert(sn.contains_key(x));
                }
                assert forall|x: UiNodeId| #[trigger]
                    descends_from(on, x, id) && fnn.contains_key(x) && x != id implies exists|j: int|
                    k + 1 <= j < kids.len() && descends_from(on, x, kids[j]) by {
                    assert(sn.contains_key(x));
                    let j = choose|j: int| k <= j < kids.len() && descends_from(on, x, kids[j]);
                    if j == k {
                        assert forall|z: UiNodeId| #[trigger]
                            descends_from(on, z, kid) implies sn.contains_key(z) && sn[z].parent
                            == on[z].parent by {
                            assert(sn.contains_key(z));
                        }
                        lemma_descends_keep(on, sn, x, kid);
                    }
                }
                assert forall|x: UiNodeId, j: int|
                    k + 1 <= j < kids.len() && #[trigger] descends_from(
                        on,
                        x,
                        kids[j],
                    ) implies fnn.contains_key(x) by {
                    assert(sn.contains_key(x));
                    if !fnn.contains_key(x) {
                        assert(descends_from(sn, x, kid));
                        lemma_descends_shrink(on, sn, x, kid);
                        assert(on[id].children@.no_duplicates());
                        assert(kids[j] != kid);
                        assert(on.contains_key(kids[j]));
                        assert(on[kids[j]].parent == Some(id));
                        lemma_siblings_disjoint(on, o.depth@, kid, kids[j], id, x);
                    }
                }
                assert forall|x: UiNodeId| #[trigger] fnn.contains_key(x) implies match fnn[x].parent {
                    Some(p) => fnn.contains_key(p) && fnn[p].children@.contains(x),
                    None => true,
                } by {
                    assert(sn.contains_key(x));
                    match fnn[x].parent {
                        Some(p) => {
                            assert(sn.contains_key(p));
                            assert(sn[p].children@.contains(x));
                            if descends_from(sn, p, kid) {
                                assert(live_parent(sn, x) == Some(p));
                                lemma_parent_outside(sn, x, p, kid);
                            }
                            assert(fnn.contains_key(p));
                            if fnn[p] != sn[p] {
                                lemma_descends_self(sn, kid);
                                assert(x != kid);
                                let lp = sn[p].children@;
                                let jx = choose|jx: int| 0 <= jx < lp.len() && lp[jx] == x;
                                let ik = lp.index_of(kid);
                                let jn = if jx < ik { jx } else { jx - 1 };
                                assert(lp.remove(ik)[jn] == x);
                            }
                        },
                        None => {},
                    }
                }
            }
        }
    }
    /// The state while node `id`, whose children are gone, is unlinked from its parent (or
    /// from the root); `done` once that step succeeded.
    spec fn unlinking(&self, o: Self, id: UiNodeId, done: bool) -> bool {
        let on = o.nodes@;
        let sn = self.nodes@;
        &&& o.wf()
        &&& on.contains_key(id)
        &&& self.wf()
        &&& self.depth_bound == o.depth_bound
        &&& o.subtree_removal(self, id, false)
        &&& forall|x: UiNodeId| #[trigger]
            sn.contains_key(x) && !descends_from(on, x, id) ==> self.depth@[x] == o.depth@[x]
        &&& sn.contains_key(id)
        &&& sn[id] == NodeRecord { children: sn[id].children, ..on[id] }
        &&& sn[id].children@.len() == 0
        &&& parent_links_ok(on) ==> forall|x: UiNodeId| #[trigger]
            descends_from(on, x, id) && sn.contains_key(x) ==> x == id
        &&& done ==> unlisted_from_parent(on, sn, id)
        &&& done ==> (on[id].parent is Some ==> on.contains_key(on[id].parent->0))
        &&& done ==> (o.root_id == Some(id) ==> self.root_id is None)
        &&& !done ==> self.root_id == o.root_id
        &&& !done ==> match on[id].parent {
            Some(p) => on.contains_key(p) ==> sn.contains_key(p) && sn[p] == on[p],
            None => true,
        }
    }

    proof fn lemma_unlinking_start(&self, o: Self, id: UiNodeId, kids: Seq<UiNodeId>)
        requires
            self.removal_progress(o, id, kids, kids.len() as int),
        ensures
            self.unlinking(o, id, false),
    {
        let on = o.nodes@;
        let sn = self.nodes@;
        assert(sn[id].children@.len() == 0);
        match on[id].parent {
            Some(p) => {
                if on.contains_key(p) {
                    assert(live_parent(on, id) == Some(p));
                    assert(!descends_from(on, p, id)) by {
                        if descends_from(on, p, id) {
                            lemma_descends_iff_in_subtree(on, o.depth@, p, id);
                        }
                    }
                }
            },
            None => {},
        }
        if parent_links_ok(on) {
            assert forall|x: UiNodeId| #[trigger]
                descends_from(on, x, id) && sn.contains_key(x) implies x == id by {
                if x != id {
                    let j = choose|j: int|
                        kids.len() <= j < kids.len() && descends_from(on, x, kids[j]);
                }
            }
        }
    }

    /// With nothing to unlink (no live parent listing `id`, `id` not the root), the step is
    /// done.
    proof fn lemma_unlinking_nothing(&self, o: Self, id: UiNodeId)
        requires
            self.unlinking(o, id, false),
            o.root_id != Some(id),
            o.nodes@[id].parent is Some ==> o.nodes@.contains_key(o.nodes@[id].parent->0),
            match o.nodes@[id].parent {
                Some(p) => o.nodes@.contains_key(p) ==> !o.nodes@[p].children@.contains(id),
                None => true,
            },
        ensures
            self.unlinking(o, id, true),
    {
    }

    /// Drops the entry at `pos`, which lists `id`, from the child list of `p`, the parent of
    /// `id`.
    fn unlist_child(&mut self, p: UiNodeId, id: UiNodeId, pos: usize, Ghost(o): Ghost<Self>)
        requires
            old(self).unlinking(o, id, false),
            o.nodes@[id].parent == Some(p),
            o.nodes@.contains_key(p),
            pos < old(self).nodes@[p].children@.len(),
            old(self).nodes@[p].children@.index_of(id) == pos,
            old(self).nodes@[p].children@.contains(id),
        ensures
            final(self).unlinking(o, id, true),
    {
        let ghost s = *self;
        let mut rp = self.nodes.remove(&p).unwrap();
        rp.children.remove(pos);
        self.nodes.insert(p, rp);
        proof {
            assert(self.nodes@ =~= s.nodes@.insert(p, self.nodes@[p]));
            lemma_unlisted(s, *self, o, id, p, pos as int);
        }
    }

    /// Drops node `id`, unlinked and without children, from the maps and the pending frames.
    fn drop_node(&mut self, id: UiNodeId, Ghost(o): Ghost<Self>)
        requires
            old(self).unlinking(o, id, true),
        ensures
            final(self).wf(),
            final(self).depth_bound == o.depth_bound,
            forall|x: UiNodeId| #[trigger]
                final(self).nodes@.contains_key(x) && !descends_from(o.nodes@, x, id)
                    ==> final(self).depth@[x] == o.depth@[x],
            o.subtree_removal(final(self), id, true),
    {
        let ghost sn = self.nodes@;
        let ghost sd = self.depth@;
        let ghost s = *self;
        self.nodes.remove(&id);
        self.frames.remove(&id);
        self.pending_layout = frames_except(&self.pending_layout, id);
        proof {
            let on = o.nodes@;
            let nn = self.nodes@;
            lemma_cut(sn, nn, sd, id, self.depth_bound@);
            self.depth = Ghost(cut_depth(sn, sd, id));
            assert forall|x: UiNodeId| #[trigger]
                nn.contains_key(x) && !descends_from(on, x, id) implies self.depth@[x]
                == o.depth@[x] by {
                if in_subtree(sn, sd, x, id) {
                    lemma_descends_iff_in_subtree(sn, sd, x, id);
                    lemma_descends_shrink(on, sn, x, id);
                }
            }
            // no child list names `id` any more
            assert forall|q: UiNodeId, i: int|
                nn.contains_key(q) && 0 <= i < nn[q].children@.len() implies {
                &&& nn.contains_key(#[trigger] nn[q].children@[i])
                &&& nn[nn[q].children@[i]].parent == Some(q)
            } by {
                assert(sn.contains_key(q));
                let c = nn[q].children@[i];
                assert(sn[q].children@[i] == c);
                if c == id {
                    assert(sn[id].parent == Some(q));
                    assert(on[id].parent == Some(q));
                    assert(on.contains_key(q));
                    assert(!descends_from(on, q, id)) by {
                        assert(live_parent(on, id) == Some(q));
                        if descends_from(on, q, id) {
                            lemma_descends_iff_in_subtree(on, o.depth@, q, id);
                        }
                    }
                    assert(sn[q].children@ == without(on[q].children@, id));
                    assert(on[q].children@.no_duplicates());
                    assert(!without(on[q].children@, id).contains(id)) by {
                        let l = on[q].children@;
                        if l.contains(id) {
                            let k = l.index_of(id);
                            assert forall|j: int| 0 <= j < l.remove(k).len() implies l.remove(k)[j]
                                != id by {
                                if j < k {
                                    assert(l.remove(k)[j] == l[j]);
                                } else {
                                    assert(l.remove(k)[j] == l[j + 1]);
                                }
                            }
                        }
                    }
                    assert(false);
                }
            }
            assert forall|q: UiNodeId| #[trigger]
                nn.contains_key(q) implies nn[q].children@.no_duplicates() by {
                assert(sn.contains_key(q));
            }
            assert(self.frames@ =~= o.frames@.restrict(nn.dom()));
            lemma_frames_within_ids(o.pending_layout@, sn.dom());
            lemma_frames_within_equiv(s.pending_layout@, all_but(id), nn.dom());
            lemma_frames_within_twice(o.pending_layout@, sn.dom(), nn.dom());
            lemma_frames_within_ids(o.pending_layout@, nn.dom());
            assert forall|x: UiNodeId| #[trigger]
                on.contains_key(x) && !descends_from(on, x, id) implies nn.contains_key(x) by {
                lemma_descends_self(on, id);
            }
        }
    }

    /// Unlinks node `id`, whose children are gone, from its parent or from the root and
    /// drops it.
    fn finish_removal<A: PlatformAdapter<Handle = H>>(
        &mut self,
        adapter: &mut A,
        id: UiNodeId,
        parent_opt: Option<UiNodeId>,
        handle: H,
        Ghost(o): Ghost<Self>,
        Ghost(kids): Ghost<Seq<UiNodeId>>,
    ) -> (r: Result<(), BackendError>)
        requires
            old(self).removal_progress(o, id, kids, kids.len() as int),
            parent_opt == o.nodes@[id].parent,
            handle == o.nodes@[id].handle,
        ensures
            final(self).wf(),
            final(self).depth_bound == o.depth_bound,
            forall|x: UiNodeId| #[trigger]
                final(self).nodes@.contains_key(x) && !descends_from(o.nodes@, x, id)
                    ==> final(self).depth@[x] == o.depth@[x],
            o.subtree_removal(final(self), id, r is Ok),
            r is Ok ==> exists|a: &mut A, l: &[EventKind]|
                mut_ref_future(a) == *final(adapter)
                    && #[trigger] call_ensures(A::remove_view, (a, id, handle, l), r),
            r is Err && parent_links_ok(o.nodes_map()) ==> adapter_refused::<A>(r),
            r is Err ==> {
                ||| (parent_opt matches Some(p) && !old(self).nodes_map().contains_key(p)
                    && rejected_with(r, "unknown node id "@ + decimal_text(p as nat)))
                ||| exists|a: &mut A, ph: H|
                    mut_ref_future(a) == *final(adapter)
                        && #[trigger] call_ensures(A::remove_child, (a, ph, handle), r)
                ||| exists|a: &mut A|
                    mut_ref_future(a) == *final(adapter)
                        && #[trigger] call_ensures(A::detach_root, (a, id, handle), r)
                ||| exists|a: &mut A, l: &[EventKind]|
                    mut_ref_future(a) == *final(adapter)
                        && #[trigger] call_ensures(A::remove_view, (a, id, handle, l), r)
            },
    {
        proof {
            self.lemma_unlinking_start(o, id, kids);
        }
        match parent_opt {
            Some(p) => {
                let parent_handle = match self.nodes.get(&p) {
                    Some(rec) => rec.handle,
                    None => {
                        proof {
                            if parent_links_ok(o.nodes_map()) {
                                o.lemma_wf_acyclic();
                                assert(depth_exact(o.nodes@, o.depth@));
                                assert(o.nodes@.contains_key(p));
                                lemma_parent_not_below(o.nodes@, o.depth@, id, p);
                                assert(false);
                            }
                        }
                        return Err(reject_id("unknown node id ", p));
                    },
                };
                let unlinked = adapter.remove_child(parent_handle, handle);
                if unlinked.is_err() {
                    return unlinked;
                }
                match self.child_position(p, id) {
                    Some(pos) => {
                        self.unlist_child(p, id, pos, Ghost(o));
                    },
                    None => {
                        proof {
                            assert(o.root_id != Some(id));
                            self.lemma_unlinking_nothing(o, id);
                        }
                    },
                }
            },
            None => {
                if self.root_id == Some(id) {
                    let detached = adapter.detach_root(id, handle);
                    if detached.is_err() {
                        return detached;
                    }
                    self.root_id = None;
                    proof {
                        assert(self.frames@ =~= o.frames@.restrict(self.nodes@.dom()));
                    }
                } else {
                    proof {
                        self.lemma_unlinking_nothing(o, id);
                    }
                }
            },
        }
        let listeners = copy_events(&self.nodes.get(&id).unwrap().listeners);
        let removed = adapter.remove_view(id, handle, listeners.as_slice());
        if removed.is_err() {
            return removed;
        }
        self.drop_node(id, Ghost(o));
        removed
    }

}

/// What dropping the entry at `pos` from the child list of `p` does to the state `s`.
spec fn unlisted_at<H>(s: ExecutorState<H>, t: ExecutorState<H>, p: UiNodeId, pos: int) -> bool {
    &&& s.nodes@.contains_key(p)
    &&& 0 <= pos < s.nodes@[p].children@.len()
    &&& t.nodes@ == s.nodes@.insert(p, t.nodes@[p])
    &&& t.nodes@[p] == (NodeRecord { children: t.nodes@[p].children, ..s.nodes@[p] })
    &&& t.nodes@[p].children@ == s.nodes@[p].children@.remove(pos)
    &&& t.root_id == s.root_id
    &&& t.frames@ == s.frames@
    &&& t.pending_layout@ == s.pending_layout@
    &&& t.depth == s.depth
    &&& t.depth_bound == s.depth_bound
}

/// Dropping an entry from a child list keeps the invariant.
proof fn lemma_unlisted_wf<H: Copy>(s: ExecutorState<H>, t: ExecutorState<H>, p: UiNodeId, pos: int)
    requires
        s.wf(),
        unlisted_at(s, t, p, pos),
    ensures
        t.wf(),
        t.nodes@.dom() == s.nodes@.dom(),
{
    let sn = s.nodes@;
    let nn = t.nodes@;
    let old_list = sn[p].children@;
    assert(nn.dom() =~= sn.dom());
    assert forall|x: UiNodeId| #[trigger] nn.contains_key(x) implies live_parent(nn, x)
        == live_parent(sn, x) by {}
    assert(depth_exact(nn, t.depth@));
    assert forall|q: UiNodeId, i: int|
        nn.contains_key(q) && 0 <= i < nn[q].children@.len() implies {
        &&& nn.contains_key(#[trigger] nn[q].children@[i])
        &&& nn[nn[q].children@[i]].parent == Some(q)
    } by {
        if q == p {
            if i < pos {
                assert(nn[q].children@[i] == old_list[i]);
            } else {
                assert(nn[q].children@[i] == old_list[i + 1]);
            }
        }
    }
    assert forall|q: UiNodeId| #[trigger]
        nn.contains_key(q) implies nn[q].children@.no_duplicates() by {
        if q == p {
            assert(old_list.no_duplicates());
        }
    }
}

/// Dropping another entry keeps `x` in a list.
proof fn lemma_without_keeps(l: Seq<UiNodeId>, v: UiNodeId, x: UiNodeId)
    requires
        l.contains(x),
        x != v,
    ensures
        without(l, v).contains(x),
{
    if l.contains(v) {
        let k = l.index_of(v);
        let j = choose|j: int| 0 <= j < l.len() && l[j] == x;
        let jn = if j < k { j } else { j - 1 };
        assert(j != k);
        assert(without(l, v)[jn] == x);
    }
}

/// A successful removal from a well-formed tree leaves a well-formed tree.
proof fn lemma_removal_keeps_tree<H: Copy>(o: ExecutorState<H>, f: ExecutorState<H>, id: UiNodeId)
    requires
        o.wf(),
        f.wf(),
        o.is_well_formed_tree(),
        o.subtree_removal(&f, id, true),
    ensures
        f.is_well_formed_tree(),
{
    let on = o.nodes@;
    let fnn = f.nodes@;
    f.lemma_wf_acyclic();
    assert forall|x: UiNodeId| #[trigger] fnn.contains_key(x) implies match fnn[x].parent {
        Some(p) => fnn.contains_key(p) && fnn[p].children@.contains(x),
        None => true,
    } by {
        assert(on.contains_key(x));
        match fnn[x].parent {
            Some(p) => {
                assert(on[x].parent == Some(p));
                assert(on.contains_key(p) && on[p].children@.contains(x));
                assert(!descends_from(on, x, id));
                if descends_from(on, p, id) {
                    assert(live_parent(on, x) == Some(p));
                    lemma_parent_outside(on, x, p, id);
                }
                assert(fnn.contains_key(p));
                if fnn[p] != on[p] {
                    assert(x != id);
                    lemma_without_keeps(on[p].children@, id, x);
                }
            },
            None => {},
        }
    }
}

/// Where `replace_node` puts the new node in the child list of `p`.
spec fn replace_position(l: Seq<UiNodeId>, old_id: UiNodeId) -> int {
    if l.contains(old_id) {
        l.index_of(old_id)
    } else {
        without(l, old_id).len() as int
    }
}

/// The removal of the old subtree, the fresh node and its placement make a replacement.
proof fn lemma_replaced<H: Copy>(
    o: ExecutorState<H>,
    m: ExecutorState<H>,
    a: ExecutorState<H>,
    f: ExecutorState<H>,
    old_id: UiNodeId,
    new_id: UiNodeId,
    kind: ElementKind,
    at: usize,
)
    requires
        o.wf(),
        m.wf(),
        o.nodes@.contains_key(old_id),
        !o.nodes@.contains_key(new_id),
        o.subtree_removal(&m, old_id, true),
        !m.nodes@.contains_key(new_id),
        a.nodes@ == m.nodes@.insert(new_id, a.nodes@[new_id]),
        a.nodes@[new_id].is_fresh(kind, a.nodes@[new_id].handle, None),
        a.root_id == m.root_id,
        a.frames@ == m.frames@,
        a.pending_layout@ == m.pending_layout@,
        match o.nodes@[old_id].parent {
            Some(p) => a.child_inserted(&f, p, new_id, at) && at == replace_position(
                o.nodes@[p].children@,
                old_id,
            ),
            None => f.nodes@ == a.nodes@ && f.root_id == Some(new_id) && f.frames@ == a.frames@
                && f.pending_layout@ == a.pending_layout@,
        },
    ensures
        o.node_replaced(&f, old_id, new_id, kind),
{
    let on = o.nodes@;
    let mn = m.nodes@;
    let an = a.nodes@;
    let fnn = f.nodes@;
    assert(fnn.dom() =~= mn.dom().insert(new_id)) by {
        match on[old_id].parent {
            Some(p) => {
                assert(fnn.dom() =~= an.dom());
            },
            None => {},
        }
    }
    assert forall|x: UiNodeId| #[trigger]
        fnn.contains_key(x) && x != new_id implies on.contains_key(x) && fnn[x].parent
        == on[x].parent by {
        assert(mn.contains_key(x));
    }
    match on[old_id].parent {
        Some(p) => {
            assert(on.contains_key(p));
            assert(live_parent(on, old_id) == Some(p));
            assert(!descends_from(on, p, old_id)) by {
                if descends_from(on, p, old_id) {
                    lemma_descends_iff_in_subtree(on, o.depth@, p, old_id);
                }
            }
            assert(mn.contains_key(p));
            assert(p != new_id);
            assert(an[p] == mn[p]);
            assert forall|x: UiNodeId| #[trigger]
                on.contains_key(x) && !descends_from(on, x, old_id) && on[old_id].parent != Some(
                    x,
                ) implies fnn.contains_key(x) && fnn[x] == on[x] by {
                assert(mn.contains_key(x));
                assert(x != new_id);
                assert(x != p);
                assert(fnn[x] == an[x]);
            }
        },
        None => {
            assert forall|x: UiNodeId| #[trigger]
                on.contains_key(x) && !descends_from(on, x, old_id) && on[old_id].parent != Some(
                    x,
                ) implies fnn.contains_key(x) && fnn[x] == on[x] by {
                assert(mn.contains_key(x));
                assert(x != new_id);
            }
        },
    }
    assert(f.frames@ =~= o.frames@.restrict(fnn.dom())) by {
        assert(!o.frames@.contains_key(new_id));
    }
    assert forall|i: int| 0 <= i < o.pending_layout@.len() implies (mn.dom().contains(
        #[trigger] o.pending_layout@[i].id,
    ) <==> fnn.dom().contains(o.pending_layout@[i].id)) by {
        assert(on.contains_key(o.pending_layout@[i].id));
    }
    lemma_frames_within_equiv(o.pending_layout@, mn.dom(), fnn.dom());
}

/// `f` is `o` with `id` dropped from the child list of `op` and its parent link cleared.
pub open spec fn detached<H>(
    o: Map<UiNodeId, NodeRecord<H>>,
    f: Map<UiNodeId, NodeRecord<H>>,
    id: UiNodeId,
    op: UiNodeId,
) -> bool {
    &&& f.dom() == o.dom()
    &&& f[id] == NodeRecord { parent: None, ..o[id] }
    &&& f[op] == NodeRecord { children: f[op].children, ..o[op] }
    &&& f[op].children@ == without(o[op].children@, id)
    &&& forall|x: UiNodeId| #[trigger] f.contains_key(x) && x != id && x != op ==> f[x] == o[x]
}

/// Dropping `id` from the list of its parent `op` and clearing its link keeps the lists
/// and the root sound and makes `id` the top of its chain.
proof fn lemma_detached<H: Copy>(s: ExecutorState<H>, t: ExecutorState<H>, id: UiNodeId, op: UiNodeId)
    requires
        s.wf(),
        s.nodes@.contains_key(id),
        s.nodes@.contains_key(op),
        s.nodes@[id].parent == Some(op),
        op != id,
        t.nodes@.dom() == s.nodes@.dom(),
        t.nodes@[id] == (NodeRecord { parent: None, ..s.nodes@[id] }),
        t.nodes@[op] == (NodeRecord { children: t.nodes@[op].children, ..s.nodes@[op] }),
        t.nodes@[op].children@ == without(s.nodes@[op].children@, id),
        forall|x: UiNodeId| #[trigger]
            t.nodes@.contains_key(x) && x != id && x != op ==> t.nodes@[x] == s.nodes@[x],
    ensures
        detached(s.nodes@, t.nodes@, id, op),
        child_lists_ok(t.nodes@),
        root_ok(s.root_id, t.nodes@),
        depth_exact(t.nodes@, crate::tree::reparented_depth(s.nodes@, s.depth@, id, None)),
        forall|x: UiNodeId|
            t.nodes@.contains_key(x) ==> #[trigger] crate::tree::reparented_depth(
                s.nodes@,
                s.depth@,
                id,
                None,
            )[x] <= 2 * s.depth_bound@ + 1,
        parent_links_ok(s.nodes@) ==> parent_links_ok(t.nodes@),
{
    let sn = s.nodes@;
    let nn = t.nodes@;
    let l = sn[op].children@;
    assert(l.no_duplicates());
    assert forall|x: UiNodeId| #[trigger] nn.contains_key(x) && x != id implies live_parent(nn, x)
        == live_parent(sn, x) by {
        if x != op {
            assert(nn[x] == sn[x]);
        }
    }
    assert(crate::tree::same_links_except(sn, nn, id));
    lemma_reparent(sn, nn, s.depth@, id, None, s.depth_bound@);
    // the list of `op` keeps its other entries, in order, without `id`
    let wl = without(l, id);
    assert(forall|j: int| 0 <= j < wl.len() ==> wl[j] != id && l.contains(#[trigger] wl[j])) by {
        if l.contains(id) {
            let k = l.index_of(id);
            assert forall|j: int| 0 <= j < wl.len() implies wl[j] != id && l.contains(
                #[trigger] wl[j],
            ) by {
                if j < k {
                    assert(wl[j] == l[j]);
                } else {
                    assert(wl[j] == l[j + 1]);
                }
            }
            assert(wl.no_duplicates());
        }
    }
    assert(wl.no_duplicates()) by {
        if l.contains(id) {
            let k = l.index_of(id);
            assert forall|a: int, b: int| 0 <= a < b < wl.len() implies wl[a] != wl[b] by {
                let ia = if a < k { a } else { a + 1 };
                let ib = if b < k { b } else { b + 1 };
                assert(wl[a] == l[ia]);
                assert(wl[b] == l[ib]);
            }
        }
    }
    assert forall|q: UiNodeId, i: int|
        nn.contains_key(q) && 0 <= i < nn[q].children@.len() implies {
        &&& nn.contains_key(#[trigger] nn[q].children@[i])
        &&& nn[nn[q].children@[i]].parent == Some(q)
    } by {
        let c = nn[q].children@[i];
        if q == op {
            assert(wl.contains(c));
            assert(l.contains(c));
            let j = choose|j: int| 0 <= j < l.len() && l[j] == c;
            assert(sn[l[j]].parent == Some(op));
            assert(c != id);
        } else if q == id {
            assert(sn[id].children@[i] == c);
            assert(sn[c].parent == Some(id));
            assert(c != id);
            assert(c != op) by {
                if c == op {
                    assert(live_parent(sn, op) == Some(id));
                    assert(live_parent(sn, id) == Some(op));
                }
            }
        } else {
            assert(sn[q].children@[i] == c);
            assert(sn[c].parent == Some(q));
            assert(c != id);
        }
    }
    assert forall|q: UiNodeId| #[trigger] nn.contains_key(q) implies nn[q].children@.no_duplicates()
        by {
        if q != op && q != id {
            assert(nn[q] == sn[q]);
        }
    }
    match s.root_id {
        Some(r) => {
            assert(sn.contains_key(r));
            assert(r != id);
        },
        None => {},
    }
    if parent_links_ok(sn) {
        assert forall|x: UiNodeId| #[trigger] nn.contains_key(x) implies match nn[x].parent {
            Some(p) => nn.contains_key(p) && nn[p].children@.contains(x),
            None => true,
        } by {
            if x != id {
                match nn[x].parent {
                    Some(p) => {
                        assert(sn[x].parent == Some(p));
                        assert(sn[p].children@.contains(x));
                        if p == op {
                            let j = choose|j: int| 0 <= j < l.len() && l[j] == x;
                            if l.contains(id) {
                                let k = l.index_of(id);
                                let jn = if j < k { j } else { j - 1 };
                                assert(j != k);
                                assert(wl[jn] == x);
                            }
                        } else if p == id {
                            assert(nn[id].children@ == sn[id].children@);
                        }
                    },
                    None => {},
                }
            }
        }
    }
}

/// Dropping `id` from the child list of its parent `p` completes the unlinking step.
proof fn lemma_unlisted<H: Copy>(
    s: ExecutorState<H>,
    t: ExecutorState<H>,
    o: ExecutorState<H>,
    id: UiNodeId,
    p: UiNodeId,
    pos: int,
)
    requires
        s.unlinking(o, id, false),
        o.nodes@[id].parent == Some(p),
        o.nodes@.contains_key(p),
        s.nodes@[p].children@.index_of(id) == pos,
        s.nodes@[p].children@.contains(id),
        unlisted_at(s, t, p, pos),
    ensures
        t.unlinking(o, id, true),
{
    let sn = s.nodes@;
    let nn = t.nodes@;
    let on = o.nodes@;
    assert(on.contains_key(id));
    assert(live_parent(on, id) == Some(p));
    assert(p != id);
    assert(sn[p] == on[p]);
    lemma_unlisted_wf(s, t, p, pos);
    assert(t.frames@ =~= o.frames@.restrict(nn.dom()));
    assert(o.subtree_removal(&t, id, false)) by {
        assert forall|x: UiNodeId| #[trigger]
            on.contains_key(x) && !descends_from(on, x, id) implies nn.contains_key(x) && (nn[x]
            == on[x] || (on[id].parent == Some(x) && nn[x] == NodeRecord {
            children: nn[x].children,
            ..on[x]
        } && nn[x].children@ == without(on[x].children@, id))) by {
            assert(sn.contains_key(x));
            if x != p {
                assert(nn[x] == sn[x]);
            }
        }
    }
    assert(t.root_id == o.root_id);
    assert(unlisted_from_parent(on, nn, id));
    assert forall|x: UiNodeId| #[trigger]
        nn.contains_key(x) && !descends_from(on, x, id) implies t.depth@[x] == o.depth@[x] by {
        assert(sn.contains_key(x));
    }
}

/// A copy of a list of event kinds.
fn copy_events(v: &Vec<EventKind>) -> (r: Vec<EventKind>)
    ensures
        r@ == v@,
{
    let mut r: Vec<EventKind> = Vec::new();
    let mut i: usize = 0;
    while i < v.len()
        invariant
            i <= v@.len(),
            r@ == v@.take(i as int),
        decreases v@.len() - i,
    {
        r.push(v[i]);
        i = i + 1;
        assert(r@ =~= v@.take(i as int));
    }
    assert(v@.take(v@.len() as int) =~= v@);
    r
}

/// A copy of a list of node ids.
fn copy_ids(v: &Vec<UiNodeId>) -> (r: Vec<UiNodeId>)
    ensures
        r@ == v@,
{
    let mut r: Vec<UiNodeId> = Vec::new();
    let mut i: usize = 0;
    while i < v.len()
        invariant
            i <= v@.len(),
            r@ == v@.take(i as int),
        decreases v@.len() - i,
    {
        r.push(v[i]);
        i = i + 1;
        assert(r@ =~= v@.take(i as int));
    }
    assert(v@.take(v@.len() as int) =~= v@);
    r
}

/// Stacks, containers, safe areas and lists take children: inserting an existing child
/// that has no parent, is not the root and is no ancestor of the parent under an existing
/// parent of one of these kinds passes every check. Texts, buttons, images and inputs take
/// none: the same insertion under one of them is refused for the parent's kind.
pub proof fn lemma_layout_kinds_take_children<H: Copy>(
    s: ExecutorState<H>,
    parent: UiNodeId,
    child: UiNodeId,
)
    requires
        s.nodes_map().contains_key(parent),
        s.nodes_map().contains_key(child),
        child != parent,
        s.root() != Some(child),
        s.nodes_map()[child].parent is None,
        !descends_from(s.nodes_map(), parent, child),
    ensures
        s.nodes_map()[parent].kind == ElementKind::Stack ==> s.insert_child_rejection(parent, child)
            is None,
        s.nodes_map()[parent].kind == ElementKind::SafeArea ==> s.insert_child_rejection(
            parent,
            child,
        ) is None,
        s.nodes_map()[parent].kind == ElementKind::List ==> s.insert_child_rejection(parent, child)
            is None,
        s.nodes_map()[parent].kind == ElementKind::Container ==> s.insert_child_rejection(
            parent,
            child,
        ) is None,
        s.nodes_map()[parent].kind == ElementKind::Text || s.nodes_map()[parent].kind
            == ElementKind::Button || s.nodes_map()[parent].kind == ElementKind::Image
            || s.nodes_map()[parent].kind == ElementKind::Input ==> s.insert_child_rejection(
            parent,
            child,
        ) == Some(kind_text(s.nodes_map()[parent].kind) + " cannot accept children"@),
{
}

} // verus!
