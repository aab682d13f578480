//! The interface between the runtime and a renderer.

use vstd::prelude::*;
use crate::events::UiEvent;
use crate::layout::LayoutFrame;
use crate::mutation::Mutation;

verus! {

/// A renderer refused a batch; the text says why.
#[derive(Clone, Debug, PartialEq, Eq)]
pub enum BackendError {
    BatchRejected(String),
}

/// A renderer that receives mutation batches and layout frames and reports events.
pub trait Backend: Send {
    fn apply_mutations(&mut self, mutations: &[Mutation]) -> Result<(), BackendError>;

    fn apply_layout(&mut self, frames: &[LayoutFrame]) -> Result<(), BackendError>;

    fn flush(&mut self) -> Result<(), BackendError>;

    fn drain_events(&mut self) -> (r: Vec<UiEvent>)
        default_ensures
            r@ == Seq::<UiEvent>::empty(),
    {
        Vec::new()
    }
}

/// The text that std's pretty debug format (`{:#?}`) gives for a slice of mutations.
pub uninterp spec fn mutations_debug_text(mutations: Seq<Mutation>) -> Seq<char>;

/// The text that std's pretty debug format (`{:#?}`) gives for a slice of layout frames.
pub uninterp spec fn frames_debug_text(frames: Seq<LayoutFrame>) -> Seq<char>;

/// The mutations in the pretty debug format of std (`{:#?}`), through their derived
/// `Debug`. Claimed: the text is `mutations_debug_text` of the mutations, so the same
/// mutations always give the same text; what that text holds is left unsaid.
#[verifier::external_body]
pub fn debug_mutations(mutations: &[Mutation]) -> (r: String)
    ensures
        r@ == mutations_debug_text(mutations@),
{
    format!("{mutations:#?}")
}

/// The layout frames in the pretty debug format of std (`{:#?}`), through their derived
/// `Debug`. Claimed: the text is `frames_debug_text` of the frames; what that text holds is
/// left unsaid.
#[verifier::external_body]
pub fn debug_layout(frames: &[LayoutFrame]) -> (r: String)
    ensures
        r@ == frames_debug_text(frames@),
{
    format!("{frames:#?}")
}

} // verus!
