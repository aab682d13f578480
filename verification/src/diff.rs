//! A coarse differ for view trees: a tree either keeps its shape or is replaced.

use vstd::prelude::*;
use vstd::view::View as _;
use crate::view::{View, WidgetElement};

verus! {

/// What changed between two view trees.
#[derive(Debug, Clone, PartialEq, Eq, Structural)]
pub enum Patch {
    Replace,
}

/// Two view trees have the same shape: the same element names, node for node.
pub open spec fn same_shape(a: View, b: View) -> bool
    decreases a, 0int,
{
    &&& a.element_name() == b.element_name()
    &&& a.spec_children().len() == b.spec_children().len()
    &&& {
        proof {
            a.lemma_children_smaller();
        }
        children_same_shape(a.spec_children(), b.spec_children(), 0)
    }
}

/// The children of `a` and `b` from position `i` on have the same shapes, pairwise.
pub open spec fn children_same_shape(a: Seq<View>, b: Seq<View>, i: int) -> bool
    decreases a, a.len() - i,
{
    if 0 <= i < a.len() && i < b.len() {
        same_shape(a[i], b[i]) && children_same_shape(a, b, i + 1)
    } else {
        true
    }
}

/// The patches that take the tree `previous` (none at first mount) to `next`.
pub open spec fn spec_diff(previous: Option<View>, next: View) -> Seq<Patch> {
    match previous {
        None => seq![Patch::Replace],
        Some(p) => if same_shape(p, next) {
            Seq::empty()
        } else {
            seq![Patch::Replace]
        },
    }
}

/// Compares view trees by shape.
#[derive(Default)]
pub struct DiffEngine;

impl DiffEngine {
    pub fn new() -> (r: Self) {
        DiffEngine
    }

    pub fn diff(&self, previous: Option<&View>, next: &View) -> (r: Vec<Patch>)
        ensures
            r@ == spec_diff(
                match previous {
                    Some(p) => Some(*p),
                    None => None,
                },
                *next,
            ),
    {
        match previous {
            None => vec![Patch::Replace],
            Some(p) => if Self::equals(p, next) {
                Vec::new()
            } else {
                vec![Patch::Replace]
            },
        }
    }

    fn equals(a: &View, b: &View) -> (r: bool)
        ensures
            r == same_shape(*a, *b),
        decreases *a, 1int,
    {
        if !same_text(a.element().name(), b.element().name()) {
            return false;
        }
        let a_children = a.children();
        let b_children = b.children();
        if a_children.len() != b_children.len() {
            return false;
        }
        let mut i: usize = a_children.len();
        let mut all = true;
        while i > 0
            invariant
                i <= a_children@.len(),
                a_children@ == a.spec_children(),
                b_children@ == b.spec_children(),
                a_children@.len() == b_children@.len(),
                all == children_same_shape(a_children@, b_children@, i as int),
            decreases i,
        {
            i = i - 1;
            proof {
                a.lemma_children_smaller();
            }
            let e = Self::equals(&a_children[i], &b_children[i]);
            all = e && all;
        }
        all
    }
}

/// Whether two texts are the same, character for character.
pub fn same_text(a: &str, b: &str) -> (r: bool)
    ensures
        r == (a@ == b@),
{
    let n = a.unicode_len();
    if n != b.unicode_len() {
        return false;
    }
    let mut i: usize = 0;
    while i < n
        invariant
            n == a@.len(),
            n == b@.len(),
            i <= n,
            a@.take(i as int) == b@.take(i as int),
        decreases n - i,
    {
        if a.get_char(i) != b.get_char(i) {
            return false;
        }
        assert(a@.take(i + 1) =~= a@.take(i as int).push(a@[i as int]));
        assert(b@.take(i + 1) =~= b@.take(i as int).push(b@[i as int]));
        i = i + 1;
    }
    assert(a@.take(n as int) =~= a@);
    assert(b@.take(n as int) =~= b@);
    true
}

/// The diff of a first mount is a single replacement.
pub proof fn lemma_first_mount_replaces(next: View)
    ensures
        spec_diff(None, next) == seq![Patch::Replace],
{
}

/// Every tree has its own shape.
pub proof fn lemma_same_shape_refl(a: View)
    ensures
        same_shape(a, a),
    decreases a, 0int,
{
    a.lemma_children_smaller();
    lemma_children_same_shape_refl(a.spec_children(), 0);
}

proof fn lemma_children_same_shape_refl(s: Seq<View>, i: int)
    ensures
        children_same_shape(s, s, i),
    decreases s, s.len() - i,
{
    if 0 <= i < s.len() {
        lemma_same_shape_refl(s[i]);
        lemma_children_same_shape_refl(s, i + 1);
    }
}

/// Diffing a tree against itself yields no patch.
pub proof fn lemma_diff_self_is_empty(v: View)
    ensures
        spec_diff(Some(v), v) == Seq::<Patch>::empty(),
{
    lemma_same_shape_refl(v);
}

} // verus!
