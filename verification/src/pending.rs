//! Frames waiting to be flushed, and how removing nodes filters them.

use vstd::prelude::*;
use crate::layout::LayoutFrame;
use crate::mutation::UiNodeId;

verus! {

/// The frames of `s` whose node is in `ids`, in their order.
pub open spec fn frames_within(s: Seq<LayoutFrame>, ids: Set<UiNodeId>) -> Seq<LayoutFrame>
    decreases s.len(),
{
    if s.len() == 0 {
        Seq::empty()
    } else {
        let rest = frames_within(s.drop_last(), ids);
        if ids.contains(s.last().id) {
            rest.push(s.last())
        } else {
            rest
        }
    }
}

/// Every node id except `id`.
pub open spec fn all_but(id: UiNodeId) -> Set<UiNodeId> {
    Set::new(|x: UiNodeId| x != id)
}

pub proof fn lemma_frames_within_all(s: Seq<LayoutFrame>, ids: Set<UiNodeId>)
    requires
        forall|i: int| 0 <= i < s.len() ==> ids.contains(#[trigger] s[i].id),
    ensures
        frames_within(s, ids) == s,
    decreases s.len(),
{
    if s.len() > 0 {
        let dl = s.drop_last();
        assert forall|i: int| 0 <= i < dl.len() implies ids.contains(#[trigger] dl[i].id) by {
            assert(dl[i] == s[i]);
        }
        lemma_frames_within_all(dl, ids);
        assert(s.last() == s[s.len() - 1]);
        assert(dl.push(s.last()) =~= s);
    }
}

pub proof fn lemma_frames_within_ids(s: Seq<LayoutFrame>, ids: Set<UiNodeId>)
    ensures
        forall|i: int|
            0 <= i < frames_within(s, ids).len() ==> ids.contains(
                #[trigger] frames_within(s, ids)[i].id,
            ),
    decreases s.len(),
{
    if s.len() > 0 {
        let dl = s.drop_last();
        lemma_frames_within_ids(dl, ids);
        let rest = frames_within(dl, ids);
        let r = frames_within(s, ids);
        assert forall|i: int| 0 <= i < r.len() implies ids.contains(#[trigger] r[i].id) by {
            if i < rest.len() {
                assert(r[i] == rest[i]);
            }
        }
    }
}

pub proof fn lemma_frames_within_equiv(s: Seq<LayoutFrame>, a: Set<UiNodeId>, b: Set<UiNodeId>)
    requires
        forall|i: int| 0 <= i < s.len() ==> (a.contains(#[trigger] s[i].id) <==> b.contains(s[i].id)),
    ensures
        frames_within(s, a) == frames_within(s, b),
    decreases s.len(),
{
    if s.len() > 0 {
        let dl = s.drop_last();
        assert forall|i: int| 0 <= i < dl.len() implies (a.contains(#[trigger] dl[i].id)
            <==> b.contains(dl[i].id)) by {
            assert(dl[i] == s[i]);
        }
        lemma_frames_within_equiv(dl, a, b);
        assert(s.last() == s[s.len() - 1]);
    }
}

pub proof fn lemma_frames_within_twice(s: Seq<LayoutFrame>, a: Set<UiNodeId>, b: Set<UiNodeId>)
    requires
        b.subset_of(a),
    ensures
        frames_within(frames_within(s, a), b) == frames_within(s, b),
    decreases s.len(),
{
    if s.len() > 0 {
        let dl = s.drop_last();
        lemma_frames_within_twice(dl, a, b);
        let fa = frames_within(dl, a);
        if a.contains(s.last().id) {
            assert(fa.push(s.last()).drop_last() =~= fa);
        }
    }
}

/// The frames of `s` except those of node `id`.
pub fn frames_except(s: &Vec<LayoutFrame>, id: UiNodeId) -> (r: Vec<LayoutFrame>)
    ensures
        r@ == frames_within(s@, all_but(id)),
{
    let mut kept: Vec<LayoutFrame> = Vec::new();
    let mut i: usize = 0;
    while i < s.len()
        invariant
            i <= s@.len(),
            kept@ == frames_within(s@.take(i as int), all_but(id)),
        decreases s@.len() - i,
    {
        assert(s@.take(i + 1).drop_last() =~= s@.take(i as int));
        assert(s@.take(i + 1).last() == s@[i as int]);
        if s[i].id != id {
            kept.push(s[i]);
        }
        i = i + 1;
    }
    assert(s@.take(s@.len() as int) =~= s@);
    kept
}

} // verus!
