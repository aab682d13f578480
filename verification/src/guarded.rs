//! An executor state kept well formed between the calls of a renderer.

use vstd::prelude::*;
use crate::executor::ExecutorState;

verus! {

/// An executor state that is always well formed.
pub struct WfState<H: Copy> {
    state: ExecutorState<H>,
}

impl<H: Copy> WfState<H> {
    /// The state held.
    pub closed spec fn inner(&self) -> ExecutorState<H> {
        self.state
    }

    #[verifier::type_invariant]
    pub open spec fn state_wf(self) -> bool {
        self.inner().wf()
    }

    /// Takes the state out, leaving an empty one in its place.
    pub fn take(&mut self) -> (r: ExecutorState<H>)
        ensures
            r == old(self).inner(),
            r.wf(),
    {
        proof {
            use_type_invariant(&*self);
        }
        let mut state = ExecutorState::default();
        std::mem::swap(&mut state, &mut self.state);
        state
    }

    /// Puts `state` back.
    pub fn put(&mut self, state: ExecutorState<H>)
        requires
            state.wf(),
        ensures
            final(self).inner() == state,
    {
        let mut state = state;
        std::mem::swap(&mut state, &mut self.state);
    }
}


impl<H: Copy> WfState<H> {
    /// An empty state.
    pub fn new() -> (r: Self)
        ensures
            r.inner().root() is None,
            r.inner().nodes_map() == Map::<crate::mutation::UiNodeId, crate::tree::NodeRecord<H>>::empty(),
    {
        WfState { state: ExecutorState::default() }
    }
}

} // verus!
