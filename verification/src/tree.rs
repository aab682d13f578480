//! The shape of the native node tree: parent links, child lists, ancestors and subtrees.

use vstd::prelude::*;
use crate::mutation::{ElementKind, EventKind, UiNodeId};
use crate::props::PropMap;

verus! {

/// What the executor records about one native node.
#[derive(Debug)]
pub struct NodeRecord<H> {
    pub kind: ElementKind,
    pub handle: H,
    pub parent: Option<UiNodeId>,
    pub children: Vec<UiNodeId>,
    pub props: PropMap,
    pub text: Option<String>,
    pub listeners: Vec<EventKind>,
}

/// The parent of `x` when that parent is itself in the tree; a link to a node that is no
/// longer present ends the chain like a missing link.
pub open spec fn live_parent<H>(nodes: Map<UiNodeId, NodeRecord<H>>, x: UiNodeId) -> Option<
    UiNodeId,
> {
    match nodes[x].parent {
        Some(p) => if nodes.contains_key(p) {
            Some(p)
        } else {
            None
        },
        None => None,
    }
}

/// The node reached from `x` by following `k` parent links (staying at the top once there).
pub open spec fn ancestor<H>(nodes: Map<UiNodeId, NodeRecord<H>>, x: UiNodeId, k: nat) -> UiNodeId
    decreases k,
{
    if k == 0 {
        x
    } else {
        match live_parent(nodes, x) {
            Some(p) => ancestor(nodes, p, (k - 1) as nat),
            None => x,
        }
    }
}

/// `x` is `c` or lies below `c` through parent links.
pub open spec fn descends_from<H>(
    nodes: Map<UiNodeId, NodeRecord<H>>,
    x: UiNodeId,
    c: UiNodeId,
) -> bool {
    nodes.contains_key(x) && exists|k: nat| ancestor(nodes, x, k) == c
}

/// `d` gives every node its distance from the top of its chain of parent links; such a map
/// exists exactly when parent links form no cycle.
pub open spec fn depth_exact<H>(nodes: Map<UiNodeId, NodeRecord<H>>, d: Map<UiNodeId, nat>) -> bool {
    forall|x: UiNodeId|
        #![trigger nodes.contains_key(x)]
        nodes.contains_key(x) ==> d.contains_key(x) && match live_parent(nodes, x) {
            None => d[x] == 0,
            Some(p) => d.contains_key(p) && d[x] == d[p] + 1,
        }
}

/// Parent links form no cycle.
pub open spec fn acyclic<H>(nodes: Map<UiNodeId, NodeRecord<H>>) -> bool {
    exists|d: Map<UiNodeId, nat>| depth_exact(nodes, d)
}

/// Every listed child is present, links back to the node that lists it, and is listed once.
pub open spec fn child_lists_ok<H>(nodes: Map<UiNodeId, NodeRecord<H>>) -> bool {
    &&& forall|p: UiNodeId, i: int|
        #![trigger nodes[p].children@[i]]
        nodes.contains_key(p) && 0 <= i < nodes[p].children@.len() ==> {
            &&& nodes.contains_key(nodes[p].children@[i])
            &&& nodes[nodes[p].children@[i]].parent == Some(p)
        }
    &&& forall|p: UiNodeId| #[trigger]
        nodes.contains_key(p) ==> nodes[p].children@.no_duplicates()
}

/// Every parent link points to a present node that lists the child.
pub open spec fn parent_links_ok<H>(nodes: Map<UiNodeId, NodeRecord<H>>) -> bool {
    forall|x: UiNodeId|
        #![trigger nodes.contains_key(x)]
        nodes.contains_key(x) ==> match nodes[x].parent {
            Some(p) => nodes.contains_key(p) && nodes[p].children@.contains(x),
            None => true,
        }
}

/// The root, when there is one, is present and has no parent.
pub open spec fn root_ok<H>(root: Option<UiNodeId>, nodes: Map<UiNodeId, NodeRecord<H>>) -> bool {
    match root {
        Some(r) => nodes.contains_key(r) && nodes[r].parent is None,
        None => true,
    }
}

/// A well-formed native tree: child lists and parent links agree, the root has no parent,
/// and parent links form no cycle.
pub open spec fn is_tree<H>(root: Option<UiNodeId>, nodes: Map<UiNodeId, NodeRecord<H>>) -> bool {
    &&& child_lists_ok(nodes)
    &&& parent_links_ok(nodes)
    &&& root_ok(root, nodes)
    &&& acyclic(nodes)
}

/// `x` is `c` or below `c`, measured with the depth map `d`.
pub open spec fn in_subtree<H>(
    nodes: Map<UiNodeId, NodeRecord<H>>,
    d: Map<UiNodeId, nat>,
    x: UiNodeId,
    c: UiNodeId,
) -> bool {
    nodes.contains_key(x) && d[x] >= d[c] && ancestor(nodes, x, (d[x] - d[c]) as nat) == c
}

/// Following `k <= d[x]` parent links from `x` stays in the tree and lowers the depth by `k`.
pub proof fn lemma_ancestor_depth<H>(
    nodes: Map<UiNodeId, NodeRecord<H>>,
    d: Map<UiNodeId, nat>,
    x: UiNodeId,
    k: nat,
)
    requires
        depth_exact(nodes, d),
        nodes.contains_key(x),
        k <= d[x],
    ensures
        nodes.contains_key(ancestor(nodes, x, k)),
        d[ancestor(nodes, x, k)] == d[x] - k,
    decreases k,
{
    if k > 0 {
        assert(nodes.contains_key(x));
        match live_parent(nodes, x) {
            Some(p) => {
                lemma_ancestor_depth(nodes, d, p, (k - 1) as nat);
            },
            None => {},
        }
    }
}

/// Beyond the depth of `x`, more parent links lead nowhere new.
pub proof fn lemma_ancestor_top<H>(
    nodes: Map<UiNodeId, NodeRecord<H>>,
    d: Map<UiNodeId, nat>,
    x: UiNodeId,
    k: nat,
)
    requires
        depth_exact(nodes, d),
        nodes.contains_key(x),
        k >= d[x],
    ensures
        ancestor(nodes, x, k) == ancestor(nodes, x, d[x]),
    decreases k,
{
    assert(nodes.contains_key(x));
    if k > 0 {
        match live_parent(nodes, x) {
            Some(p) => {
                assert(nodes.contains_key(p));
                lemma_ancestor_top(nodes, d, p, (k - 1) as nat);
            },
            None => {},
        }
    }
}

/// With a depth map, being a descendant is the same as lying in the measured subtree.
pub proof fn lemma_descends_iff_in_subtree<H>(
    nodes: Map<UiNodeId, NodeRecord<H>>,
    d: Map<UiNodeId, nat>,
    x: UiNodeId,
    c: UiNodeId,
)
    requires
        depth_exact(nodes, d),
        nodes.contains_key(c),
    ensures
        descends_from(nodes, x, c) <==> in_subtree(nodes, d, x, c),
{
    if in_subtree(nodes, d, x, c) {
        assert(ancestor(nodes, x, (d[x] - d[c]) as nat) == c);
    }
    if descends_from(nodes, x, c) {
        let k = choose|k: nat| ancestor(nodes, x, k) == c;
        if k <= d[x] {
            lemma_ancestor_depth(nodes, d, x, k);
            assert(d[c] == d[x] - k);
            assert((d[x] - d[c]) as nat == k);
        } else {
            lemma_ancestor_top(nodes, d, x, k);
            lemma_ancestor_depth(nodes, d, x, d[x]);
            let top = ancestor(nodes, x, d[x]);
            assert(d[top] == 0);
            assert(top == c);
            assert((d[x] - d[c]) as nat == d[x]);
        }
    }
}

/// Stepping from a node other than `c` to its parent neither enters nor leaves the
/// subtree of `c`.
pub proof fn lemma_subtree_step<H>(
    nodes: Map<UiNodeId, NodeRecord<H>>,
    d: Map<UiNodeId, nat>,
    x: UiNodeId,
    q: UiNodeId,
    c: UiNodeId,
)
    requires
        depth_exact(nodes, d),
        nodes.contains_key(x),
        nodes.contains_key(c),
        live_parent(nodes, x) == Some(q),
        x != c,
    ensures
        in_subtree(nodes, d, x, c) <==> in_subtree(nodes, d, q, c),
{
    assert(nodes.contains_key(x));
    assert(nodes.contains_key(q));
    if d[x] >= d[c] + 1 {
        assert(ancestor(nodes, x, (d[x] - d[c]) as nat) == ancestor(
            nodes,
            q,
            (d[q] - d[c]) as nat,
        ));
    }
}

/// A node with no live parent lies only in its own subtree.
pub proof fn lemma_top_subtree<H>(
    nodes: Map<UiNodeId, NodeRecord<H>>,
    d: Map<UiNodeId, nat>,
    x: UiNodeId,
    c: UiNodeId,
)
    requires
        depth_exact(nodes, d),
        nodes.contains_key(x),
        live_parent(nodes, x) is None,
    ensures
        in_subtree(nodes, d, x, c) <==> x == c,
{
    assert(nodes.contains_key(x));
    if in_subtree(nodes, d, x, c) {
        assert(d[x] == 0);
    }
}

/// Moving the subtree of `c` under `np` (or making `c` a top node) keeps a depth map: the
/// nodes of the subtree shift by the same amount and the others keep theirs.
pub open spec fn reparented_depth<H>(
    nodes: Map<UiNodeId, NodeRecord<H>>,
    d: Map<UiNodeId, nat>,
    c: UiNodeId,
    np: Option<UiNodeId>,
) -> Map<UiNodeId, nat> {
    let base: int = match np {
        Some(p) => d[p] + 1int,
        None => 0int,
    };
    Map::new(
        |x: UiNodeId| nodes.contains_key(x),
        |x: UiNodeId|
            if in_subtree(nodes, d, x, c) {
                (d[x] - d[c] + base) as nat
            } else {
                d[x]
            },
    )
}

/// Two node maps over the same keys whose live parent links agree except at `c`.
pub open spec fn same_links_except<H>(
    old_nodes: Map<UiNodeId, NodeRecord<H>>,
    new_nodes: Map<UiNodeId, NodeRecord<H>>,
    c: UiNodeId,
) -> bool {
    &&& old_nodes.dom() == new_nodes.dom()
    &&& forall|x: UiNodeId|
        #![trigger new_nodes.contains_key(x)]
        new_nodes.contains_key(x) && x != c ==> live_parent(new_nodes, x) == live_parent(
            old_nodes,
            x,
        )
}

pub proof fn lemma_reparent<H>(
    old_nodes: Map<UiNodeId, NodeRecord<H>>,
    new_nodes: Map<UiNodeId, NodeRecord<H>>,
    d: Map<UiNodeId, nat>,
    c: UiNodeId,
    np: Option<UiNodeId>,
    bound: nat,
)
    requires
        depth_exact(old_nodes, d),
        forall|x: UiNodeId| old_nodes.contains_key(x) ==> #[trigger] d[x] <= bound,
        old_nodes.contains_key(c),
        same_links_except(old_nodes, new_nodes, c),
        live_parent(new_nodes, c) == np,
        match np {
            Some(p) => old_nodes.contains_key(p) && !in_subtree(old_nodes, d, p, c),
            None => true,
        },
    ensures
        depth_exact(new_nodes, reparented_depth(old_nodes, d, c, np)),
        forall|x: UiNodeId|
            new_nodes.contains_key(x) ==> #[trigger] reparented_depth(old_nodes, d, c, np)[x]
                <= 2 * bound + 1,
{
    let nd = reparented_depth(old_nodes, d, c, np);
    assert(ancestor(old_nodes, c, 0) == c);
    assert forall|x: UiNodeId| #[trigger] new_nodes.contains_key(x) implies nd.contains_key(x)
        && match live_parent(new_nodes, x) {
        None => nd[x] == 0,
        Some(p) => nd.contains_key(p) && nd[x] == nd[p] + 1,
    } by {
        assert(old_nodes.contains_key(x));
        if x == c {
            assert(in_subtree(old_nodes, d, c, c));
        } else {
            match live_parent(old_nodes, x) {
                Some(q) => {
                    lemma_subtree_step(old_nodes, d, x, q, c);
                    assert(old_nodes.contains_key(q));
                },
                None => {
                    lemma_top_subtree(old_nodes, d, x, c);
                },
            }
        }
    }
    assert forall|x: UiNodeId| new_nodes.contains_key(x) implies #[trigger] nd[x] <= 2 * bound
        + 1 by {
        assert(old_nodes.contains_key(x));
        assert(d[x] <= bound);
        match np {
            Some(p) => {
                assert(d[p] <= bound);
            },
            None => {},
        }
    }
}

/// Removing the node `x` keeps a depth map: the nodes below `x` become the tops of their
/// own chains.
pub open spec fn cut_depth<H>(
    nodes: Map<UiNodeId, NodeRecord<H>>,
    d: Map<UiNodeId, nat>,
    x: UiNodeId,
) -> Map<UiNodeId, nat> {
    Map::new(
        |z: UiNodeId| nodes.contains_key(z) && z != x,
        |z: UiNodeId|
            if in_subtree(nodes, d, z, x) {
                (d[z] - d[x] - 1) as nat
            } else {
                d[z]
            },
    )
}

pub proof fn lemma_cut<H>(
    old_nodes: Map<UiNodeId, NodeRecord<H>>,
    new_nodes: Map<UiNodeId, NodeRecord<H>>,
    d: Map<UiNodeId, nat>,
    x: UiNodeId,
    bound: nat,
)
    requires
        depth_exact(old_nodes, d),
        forall|z: UiNodeId| old_nodes.contains_key(z) ==> #[trigger] d[z] <= bound,
        old_nodes.contains_key(x),
        new_nodes.dom() == old_nodes.dom().remove(x),
        forall|z: UiNodeId| #[trigger]
            new_nodes.contains_key(z) ==> new_nodes[z].parent == old_nodes[z].parent,
    ensures
        depth_exact(new_nodes, cut_depth(old_nodes, d, x)),
        forall|z: UiNodeId|
            new_nodes.contains_key(z) ==> #[trigger] cut_depth(old_nodes, d, x)[z] <= bound,
{
    let nd = cut_depth(old_nodes, d, x);
    assert forall|z: UiNodeId| #[trigger] new_nodes.contains_key(z) implies nd.contains_key(z)
        && match live_parent(new_nodes, z) {
        None => nd[z] == 0,
        Some(p) => nd.contains_key(p) && nd[z] == nd[p] + 1,
    } by {
        assert(old_nodes.contains_key(z));
        assert(z != x);
        match live_parent(old_nodes, z) {
            Some(q) => {
                lemma_subtree_step(old_nodes, d, z, q, x);
                assert(old_nodes.contains_key(q));
                if q == x {
                    assert(ancestor(old_nodes, x, 0) == x);
                    assert(ancestor(old_nodes, z, 1) == x);
                    assert(in_subtree(old_nodes, d, z, x));
                }
            },
            None => {
                lemma_top_subtree(old_nodes, d, z, x);
            },
        }
    }
    assert forall|z: UiNodeId| new_nodes.contains_key(z) implies #[trigger] nd[z] <= bound by {
        assert(old_nodes.contains_key(z));
        assert(d[z] <= bound);
    }
}

} // verus!

verus! {

/// Two node maps over the same keys whose parent links and child lists are the same.
pub open spec fn same_shape<H>(
    old_nodes: Map<UiNodeId, NodeRecord<H>>,
    new_nodes: Map<UiNodeId, NodeRecord<H>>,
) -> bool {
    &&& old_nodes.dom() == new_nodes.dom()
    &&& forall|x: UiNodeId| #[trigger]
        new_nodes.contains_key(x) ==> new_nodes[x].parent == old_nodes[x].parent
            && new_nodes[x].children@ == old_nodes[x].children@
}

/// Changing what nodes hold without touching links keeps every property of the shape.
pub proof fn lemma_same_shape<H>(
    old_nodes: Map<UiNodeId, NodeRecord<H>>,
    new_nodes: Map<UiNodeId, NodeRecord<H>>,
    root: Option<UiNodeId>,
    d: Map<UiNodeId, nat>,
)
    requires
        same_shape(old_nodes, new_nodes),
    ensures
        child_lists_ok(old_nodes) ==> child_lists_ok(new_nodes),
        parent_links_ok(old_nodes) ==> parent_links_ok(new_nodes),
        root_ok(root, old_nodes) ==> root_ok(root, new_nodes),
        depth_exact(old_nodes, d) ==> depth_exact(new_nodes, d),
        acyclic(old_nodes) ==> acyclic(new_nodes),
        forall|x: UiNodeId| #[trigger]
            new_nodes.contains_key(x) ==> live_parent(new_nodes, x) == live_parent(old_nodes, x),
{
    assert forall|x: UiNodeId| #[trigger]
        new_nodes.contains_key(x) implies live_parent(new_nodes, x) == live_parent(
        old_nodes,
        x,
    ) by {
        assert(old_nodes.contains_key(x));
    }
    if child_lists_ok(old_nodes) {
        assert forall|p: UiNodeId, i: int|
            new_nodes.contains_key(p) && 0 <= i < new_nodes[p].children@.len() implies {
            &&& new_nodes.contains_key(#[trigger] new_nodes[p].children@[i])
            &&& new_nodes[new_nodes[p].children@[i]].parent == Some(p)
        } by {
            assert(old_nodes.contains_key(p));
            assert(old_nodes[p].children@[i] == new_nodes[p].children@[i]);
            assert(old_nodes.contains_key(old_nodes[p].children@[i]));
        }
        assert forall|p: UiNodeId| #[trigger]
            new_nodes.contains_key(p) implies new_nodes[p].children@.no_duplicates() by {
            assert(old_nodes.contains_key(p));
        }
    }
    if parent_links_ok(old_nodes) {
        assert forall|x: UiNodeId| #[trigger] new_nodes.contains_key(x) implies match new_nodes[
            x].parent {
            Some(p) => new_nodes.contains_key(p) && new_nodes[p].children@.contains(x),
            None => true,
        } by {
            assert(old_nodes.contains_key(x));
            match new_nodes[x].parent {
                Some(p) => {
                    assert(old_nodes.contains_key(p));
                },
                None => {},
            }
        }
    }
    if root_ok(root, old_nodes) {
        match root {
            Some(r) => {
                assert(old_nodes.contains_key(r));
            },
            None => {},
        }
    }
    if depth_exact(old_nodes, d) {
        assert forall|x: UiNodeId| #[trigger] new_nodes.contains_key(x) implies d.contains_key(x)
            && match live_parent(new_nodes, x) {
            None => d[x] == 0,
            Some(p) => d.contains_key(p) && d[x] == d[p] + 1,
        } by {
            assert(old_nodes.contains_key(x));
        }
    }
    if acyclic(old_nodes) {
        let w = choose|w: Map<UiNodeId, nat>| depth_exact(old_nodes, w);
        assert forall|x: UiNodeId| #[trigger] new_nodes.contains_key(x) implies w.contains_key(x)
            && match live_parent(new_nodes, x) {
            None => w[x] == 0,
            Some(p) => w.contains_key(p) && w[x] == w[p] + 1,
        } by {
            assert(old_nodes.contains_key(x));
        }
        assert(depth_exact(new_nodes, w));
    }
}

} // verus!

verus! {

/// Adding node `id` revives parent links that named `id`: every chain whose top links to
/// `id` now continues through it, one step deeper.
pub open spec fn revived_depth<H>(
    nodes: Map<UiNodeId, NodeRecord<H>>,
    d: Map<UiNodeId, nat>,
    id: UiNodeId,
) -> Map<UiNodeId, nat> {
    Map::new(
        |z: UiNodeId| nodes.contains_key(z) || z == id,
        |z: UiNodeId|
            if z == id {
                0
            } else if nodes[ancestor(nodes, z, d[z])].parent == Some(id) {
                d[z] + 1
            } else {
                d[z]
            },
    )
}

pub proof fn lemma_revive<H>(
    old_nodes: Map<UiNodeId, NodeRecord<H>>,
    new_nodes: Map<UiNodeId, NodeRecord<H>>,
    d: Map<UiNodeId, nat>,
    id: UiNodeId,
    bound: nat,
)
    requires
        depth_exact(old_nodes, d),
        forall|z: UiNodeId| old_nodes.contains_key(z) ==> #[trigger] d[z] <= bound,
        !old_nodes.contains_key(id),
        new_nodes.dom() == old_nodes.dom().insert(id),
        forall|z: UiNodeId| #[trigger]
            old_nodes.contains_key(z) ==> new_nodes[z].parent == old_nodes[z].parent,
        new_nodes[id].parent is None,
    ensures
        depth_exact(new_nodes, revived_depth(old_nodes, d, id)),
        forall|z: UiNodeId|
            new_nodes.contains_key(z) ==> #[trigger] revived_depth(old_nodes, d, id)[z] <= bound
                + 1,
{
    let nd = revived_depth(old_nodes, d, id);
    assert forall|z: UiNodeId| #[trigger] new_nodes.contains_key(z) implies nd.contains_key(z)
        && match live_parent(new_nodes, z) {
        None => nd[z] == 0,
        Some(p) => nd.contains_key(p) && nd[z] == nd[p] + 1,
    } by {
        if z != id {
            assert(old_nodes.contains_key(z));
            match live_parent(old_nodes, z) {
                Some(q) => {
                    assert(old_nodes.contains_key(q));
                    assert(ancestor(old_nodes, z, d[z]) == ancestor(old_nodes, q, d[q]));
                    lemma_ancestor_depth(old_nodes, d, q, d[q]);
                },
                None => {
                    assert(ancestor(old_nodes, z, d[z]) == z);
                },
            }
        }
    }
    assert forall|z: UiNodeId| new_nodes.contains_key(z) implies #[trigger] nd[z] <= bound
        + 1 by {
        if z != id {
            assert(old_nodes.contains_key(z));
            assert(d[z] <= bound);
        }
    }
}

} // verus!

verus! {

/// `new_nodes` is `old_nodes` with `child` linked under `parent` at position `at`.
pub open spec fn linked<H>(
    old_nodes: Map<UiNodeId, NodeRecord<H>>,
    new_nodes: Map<UiNodeId, NodeRecord<H>>,
    parent: UiNodeId,
    child: UiNodeId,
    at: int,
) -> bool {
    &&& old_nodes.contains_key(parent)
    &&& old_nodes.contains_key(child)
    &&& parent != child
    &&& 0 <= at <= old_nodes[parent].children@.len()
    &&& new_nodes == old_nodes.insert(child, new_nodes[child]).insert(parent, new_nodes[parent])
    &&& new_nodes[child] == NodeRecord { parent: Some(parent), ..old_nodes[child] }
    &&& new_nodes[parent] == NodeRecord { children: new_nodes[parent].children, ..old_nodes[parent] }
    &&& new_nodes[parent].children@ == old_nodes[parent].children@.insert(at, child)
}

pub proof fn lemma_link<H>(
    old_nodes: Map<UiNodeId, NodeRecord<H>>,
    new_nodes: Map<UiNodeId, NodeRecord<H>>,
    d: Map<UiNodeId, nat>,
    bound: nat,
    root: Option<UiNodeId>,
    parent: UiNodeId,
    child: UiNodeId,
    at: int,
)
    requires
        linked(old_nodes, new_nodes, parent, child, at),
        child_lists_ok(old_nodes),
        root_ok(root, old_nodes),
        root != Some(child),
        depth_exact(old_nodes, d),
        forall|x: UiNodeId| old_nodes.contains_key(x) ==> #[trigger] d[x] <= bound,
        old_nodes[child].parent is None,
        !in_subtree(old_nodes, d, parent, child),
    ensures
        new_nodes.dom() == old_nodes.dom(),
        child_lists_ok(new_nodes),
        root_ok(root, new_nodes),
        depth_exact(new_nodes, reparented_depth(old_nodes, d, child, Some(parent))),
        forall|x: UiNodeId|
            new_nodes.contains_key(x) ==> #[trigger] reparented_depth(
                old_nodes,
                d,
                child,
                Some(parent),
            )[x] <= 2 * bound + 1,
        parent_links_ok(old_nodes) ==> parent_links_ok(new_nodes),
{
    assert(new_nodes.dom() =~= old_nodes.dom());
    if old_nodes[parent].parent == Some(parent) {
        assert(old_nodes.contains_key(parent));
        assert(d[parent] == d[parent] + 1);
    }
    assert(!old_nodes[parent].children@.contains(child)) by {
        if old_nodes[parent].children@.contains(child) {
            let i = choose|i: int|
                0 <= i < old_nodes[parent].children@.len() && old_nodes[parent].children@[i]
                    == child;
            assert(old_nodes[old_nodes[parent].children@[i]].parent == Some(parent));
        }
    }
    assert forall|x: UiNodeId| #[trigger]
        new_nodes.contains_key(x) && x != child implies live_parent(new_nodes, x) == live_parent(
        old_nodes,
        x,
    ) by {
        assert(old_nodes.contains_key(x));
    }
    assert(same_links_except(old_nodes, new_nodes, child));
    assert(live_parent(new_nodes, child) == Some(parent));
    lemma_reparent(old_nodes, new_nodes, d, child, Some(parent), bound);
    lemma_link_lists(old_nodes, new_nodes, parent, child, at);
    match root {
        Some(r) => {
            assert(old_nodes.contains_key(r));
        },
        None => {},
    }
    if parent_links_ok(old_nodes) {
        lemma_link_parents(old_nodes, new_nodes, parent, child, at);
    }
}

proof fn lemma_link_lists<H>(
    old_nodes: Map<UiNodeId, NodeRecord<H>>,
    new_nodes: Map<UiNodeId, NodeRecord<H>>,
    parent: UiNodeId,
    child: UiNodeId,
    at: int,
)
    requires
        linked(old_nodes, new_nodes, parent, child, at),
        child_lists_ok(old_nodes),
        old_nodes[child].parent is None,
        old_nodes[parent].parent != Some(parent),
        !old_nodes[parent].children@.contains(child),
    ensures
        child_lists_ok(new_nodes),
{
    assert forall|p: UiNodeId, i: int|
        new_nodes.contains_key(p) && 0 <= i < new_nodes[p].children@.len() implies {
        &&& new_nodes.contains_key(#[trigger] new_nodes[p].children@[i])
        &&& new_nodes[new_nodes[p].children@[i]].parent == Some(p)
    } by {
        assert(old_nodes.contains_key(p));
        let e = new_nodes[p].children@[i];
        if p == parent {
            if e != child {
                let j = if i < at {
                    i
                } else {
                    i - 1
                };
                assert(old_nodes[parent].children@[j] == e);
                assert(old_nodes.contains_key(e));
                assert(old_nodes[e].parent == Some(parent));
            }
        } else {
            assert(old_nodes[p].children@[i] == e);
            assert(old_nodes.contains_key(e));
            assert(old_nodes[e].parent == Some(p));
        }
    }
    assert forall|p: UiNodeId| #[trigger]
        new_nodes.contains_key(p) implies new_nodes[p].children@.no_duplicates() by {
        assert(old_nodes.contains_key(p));
        if p == parent {
            let s = new_nodes[p].children@;
            let o = old_nodes[p].children@;
            assert forall|i: int, j: int|
                0 <= i < s.len() && 0 <= j < s.len() && i != j implies s[i] != s[j] by {
                let oi = if i < at {
                    i
                } else {
                    i - 1
                };
                let oj = if j < at {
                    j
                } else {
                    j - 1
                };
                if i != at && j != at {
                    assert(s[i] == o[oi]);
                    assert(s[j] == o[oj]);
                } else if i == at {
                    assert(s[j] == o[oj]);
                    assert(o.contains(s[j]));
                } else {
                    assert(s[i] == o[oi]);
                    assert(o.contains(s[i]));
                }
            }
        }
    }
}

proof fn lemma_link_parents<H>(
    old_nodes: Map<UiNodeId, NodeRecord<H>>,
    new_nodes: Map<UiNodeId, NodeRecord<H>>,
    parent: UiNodeId,
    child: UiNodeId,
    at: int,
)
    requires
        linked(old_nodes, new_nodes, parent, child, at),
        parent_links_ok(old_nodes),
    ensures
        parent_links_ok(new_nodes),
{
    assert forall|x: UiNodeId| #[trigger] new_nodes.contains_key(x) implies match new_nodes[
        x].parent {
        Some(p) => new_nodes.contains_key(p) && new_nodes[p].children@.contains(x),
        None => true,
    } by {
        assert(old_nodes.contains_key(x));
        if x != child {
            match new_nodes[x].parent {
                Some(p) => {
                    assert(old_nodes[p].children@.contains(x));
                    if p == parent {
                        let j = choose|j: int|
                            0 <= j < old_nodes[parent].children@.len()
                                && old_nodes[parent].children@[j] == x;
                        let k = if j < at {
                            j
                        } else {
                            j + 1
                        };
                        assert(new_nodes[parent].children@[k] == x);
                    }
                },
                None => {},
            }
        } else {
            assert(new_nodes[parent].children@[at] == child);
        }
    }
}

} // verus!

verus! {

/// Following `a + b` links is following `a` links, then `b` more.
pub proof fn lemma_ancestor_add<H>(nodes: Map<UiNodeId, NodeRecord<H>>, x: UiNodeId, a: nat, b: nat)
    ensures
        ancestor(nodes, x, a + b) == ancestor(nodes, ancestor(nodes, x, a), b),
    decreases a,
{
    if a == 0 {
        assert(a + b == b);
    } else {
        match live_parent(nodes, x) {
            Some(p) => {
                lemma_ancestor_add(nodes, p, (a - 1) as nat, b);
                assert((a + b - 1) as nat == ((a - 1) as nat) + b);
            },
            None => {
                lemma_ancestor_fixed(nodes, x, b);
            },
        }
    }
}

/// A node without live parent is its own ancestor at every distance.
pub proof fn lemma_ancestor_fixed<H>(nodes: Map<UiNodeId, NodeRecord<H>>, x: UiNodeId, k: nat)
    requires
        live_parent(nodes, x) is None,
    ensures
        ancestor(nodes, x, k) == x,
    decreases k,
{
}

/// Descent is transitive.
pub proof fn lemma_descends_trans<H>(
    nodes: Map<UiNodeId, NodeRecord<H>>,
    x: UiNodeId,
    y: UiNodeId,
    z: UiNodeId,
)
    requires
        descends_from(nodes, x, y),
        descends_from(nodes, y, z),
    ensures
        descends_from(nodes, x, z),
{
    let a = choose|k: nat| ancestor(nodes, x, k) == y;
    let b = choose|k: nat| ancestor(nodes, y, k) == z;
    lemma_ancestor_add(nodes, x, a, b);
}

/// A node descends from its live parent.
pub proof fn lemma_descends_parent<H>(nodes: Map<UiNodeId, NodeRecord<H>>, x: UiNodeId, p: UiNodeId)
    requires
        nodes.contains_key(x),
        live_parent(nodes, x) == Some(p),
    ensures
        descends_from(nodes, x, p),
{
    assert(ancestor(nodes, x, 1) == ancestor(nodes, p, 0));
}

/// A node descends from itself.
pub proof fn lemma_descends_self<H>(nodes: Map<UiNodeId, NodeRecord<H>>, x: UiNodeId)
    requires
        nodes.contains_key(x),
    ensures
        descends_from(nodes, x, x),
{
    assert(ancestor(nodes, x, 0) == x);
}

/// Dropping nodes (and keeping the links of the rest) adds no descent.
pub proof fn lemma_descends_shrink<H>(
    old_nodes: Map<UiNodeId, NodeRecord<H>>,
    new_nodes: Map<UiNodeId, NodeRecord<H>>,
    x: UiNodeId,
    c: UiNodeId,
)
    requires
        forall|z: UiNodeId| #[trigger]
            new_nodes.contains_key(z) ==> old_nodes.contains_key(z) && new_nodes[z].parent
                == old_nodes[z].parent,
        descends_from(new_nodes, x, c),
    ensures
        descends_from(old_nodes, x, c),
{
    let k = choose|k: nat| ancestor(new_nodes, x, k) == c;
    lemma_shrink_chain(old_nodes, new_nodes, x, c, k);
}

proof fn lemma_shrink_chain<H>(
    old_nodes: Map<UiNodeId, NodeRecord<H>>,
    new_nodes: Map<UiNodeId, NodeRecord<H>>,
    x: UiNodeId,
    c: UiNodeId,
    k: nat,
)
    requires
        forall|z: UiNodeId| #[trigger]
            new_nodes.contains_key(z) ==> old_nodes.contains_key(z) && new_nodes[z].parent
                == old_nodes[z].parent,
        new_nodes.contains_key(x),
        ancestor(new_nodes, x, k) == c,
    ensures
        exists|j: nat| ancestor(old_nodes, x, j) == c,
    decreases k,
{
    assert(new_nodes.contains_key(x));
    if k == 0 {
        assert(ancestor(old_nodes, x, 0) == c);
    } else {
        match live_parent(new_nodes, x) {
            Some(p) => {
                assert(new_nodes.contains_key(p));
                lemma_shrink_chain(old_nodes, new_nodes, p, c, (k - 1) as nat);
                let j = choose|j: nat| ancestor(old_nodes, p, j) == c;
                assert(ancestor(old_nodes, x, j + 1) == c);
            },
            None => {
                assert(ancestor(old_nodes, x, 0) == c);
            },
        }
    }
}

/// Keeping every descendant of `c` with its links keeps their descent from `c`.
pub proof fn lemma_descends_keep<H>(
    old_nodes: Map<UiNodeId, NodeRecord<H>>,
    new_nodes: Map<UiNodeId, NodeRecord<H>>,
    x: UiNodeId,
    c: UiNodeId,
)
    requires
        forall|z: UiNodeId| #[trigger]
            descends_from(old_nodes, z, c) ==> new_nodes.contains_key(z) && new_nodes[z].parent
                == old_nodes[z].parent,
        descends_from(old_nodes, x, c),
    ensures
        descends_from(new_nodes, x, c),
{
    let k = choose|k: nat| ancestor(old_nodes, x, k) == c;
    lemma_keep_chain(old_nodes, new_nodes, x, c, k);
}

proof fn lemma_keep_chain<H>(
    old_nodes: Map<UiNodeId, NodeRecord<H>>,
    new_nodes: Map<UiNodeId, NodeRecord<H>>,
    x: UiNodeId,
    c: UiNodeId,
    k: nat,
)
    requires
        forall|z: UiNodeId| #[trigger]
            descends_from(old_nodes, z, c) ==> new_nodes.contains_key(z) && new_nodes[z].parent
                == old_nodes[z].parent,
        old_nodes.contains_key(x),
        ancestor(old_nodes, x, k) == c,
    ensures
        exists|j: nat| ancestor(new_nodes, x, j) == c,
    decreases k,
{
    assert(descends_from(old_nodes, x, c));
    assert(new_nodes.contains_key(x));
    if k == 0 {
        assert(ancestor(new_nodes, x, 0) == c);
    } else {
        match live_parent(old_nodes, x) {
            Some(p) => {
                assert(old_nodes.contains_key(p));
                assert(ancestor(old_nodes, p, (k - 1) as nat) == c);
                assert(descends_from(old_nodes, p, c));
                assert(new_nodes.contains_key(p));
                assert(live_parent(new_nodes, x) == Some(p));
                lemma_keep_chain(old_nodes, new_nodes, p, c, (k - 1) as nat);
                let j = choose|j: nat| ancestor(new_nodes, p, j) == c;
                assert(ancestor(new_nodes, x, j + 1) == c);
            },
            None => {
                assert(ancestor(new_nodes, x, 0) == c);
            },
        }
    }
}

/// Two distinct nodes with the same live parent have no common descendant.
pub proof fn lemma_siblings_disjoint<H>(
    nodes: Map<UiNodeId, NodeRecord<H>>,
    d: Map<UiNodeId, nat>,
    a: UiNodeId,
    b: UiNodeId,
    p: UiNodeId,
    x: UiNodeId,
)
    requires
        depth_exact(nodes, d),
        nodes.contains_key(a),
        nodes.contains_key(b),
        live_parent(nodes, a) == Some(p),
        live_parent(nodes, b) == Some(p),
        a != b,
    ensures
        !(descends_from(nodes, x, a) && descends_from(nodes, x, b)),
{
    if descends_from(nodes, x, a) && descends_from(nodes, x, b) {
        lemma_descends_iff_in_subtree(nodes, d, x, a);
        lemma_descends_iff_in_subtree(nodes, d, x, b);
        assert(nodes.contains_key(a));
        assert(nodes.contains_key(b));
        assert(d[a] == d[b]);
    }
}

/// A node that does not descend from `c` has a parent that does not either, unless it
/// is `c` itself.
pub proof fn lemma_parent_outside<H>(
    nodes: Map<UiNodeId, NodeRecord<H>>,
    x: UiNodeId,
    p: UiNodeId,
    c: UiNodeId,
)
    requires
        nodes.contains_key(x),
        live_parent(nodes, x) == Some(p),
        descends_from(nodes, p, c),
    ensures
        descends_from(nodes, x, c),
{
    lemma_descends_parent(nodes, x, p);
    lemma_descends_trans(nodes, x, p, c);
}

} // verus!

verus! {

/// Changing only the parent link of `c` adds no descent from `c`.
pub proof fn lemma_descends_relink<H>(
    old_nodes: Map<UiNodeId, NodeRecord<H>>,
    new_nodes: Map<UiNodeId, NodeRecord<H>>,
    x: UiNodeId,
    c: UiNodeId,
)
    requires
        new_nodes.dom() == old_nodes.dom(),
        forall|z: UiNodeId| #[trigger]
            new_nodes.contains_key(z) && z != c ==> new_nodes[z].parent == old_nodes[z].parent,
        descends_from(new_nodes, x, c),
    ensures
        descends_from(old_nodes, x, c),
{
    let k = choose|k: nat| ancestor(new_nodes, x, k) == c;
    lemma_relink_chain(old_nodes, new_nodes, x, c, k);
}

proof fn lemma_relink_chain<H>(
    old_nodes: Map<UiNodeId, NodeRecord<H>>,
    new_nodes: Map<UiNodeId, NodeRecord<H>>,
    x: UiNodeId,
    c: UiNodeId,
    k: nat,
)
    requires
        new_nodes.dom() == old_nodes.dom(),
        forall|z: UiNodeId| #[trigger]
            new_nodes.contains_key(z) && z != c ==> new_nodes[z].parent == old_nodes[z].parent,
        new_nodes.contains_key(x),
        ancestor(new_nodes, x, k) == c,
    ensures
        exists|j: nat| ancestor(old_nodes, x, j) == c,
    decreases k,
{
    if x == c {
        assert(ancestor(old_nodes, x, 0) == c);
    } else {
        assert(k != 0);
        assert(old_nodes.contains_key(x));
        match live_parent(new_nodes, x) {
            Some(p) => {
                assert(live_parent(old_nodes, x) == Some(p));
                lemma_relink_chain(old_nodes, new_nodes, p, c, (k - 1) as nat);
                let j = choose|j: nat| ancestor(old_nodes, p, j) == c;
                assert(ancestor(old_nodes, x, j + 1) == ancestor(old_nodes, p, j));
            },
            None => {},
        }
    }
}

} // verus!
