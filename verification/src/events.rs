//! Events reported by the native renderers.

use vstd::prelude::*;
use crate::float32::Fp32;
use crate::mutation::UiNodeId;

verus! {

/// An event that a native element reported for the node `id`.
#[derive(Clone, Debug, PartialEq)]
pub enum UiEvent {
    Tap { id: UiNodeId },
    TextInput { id: UiNodeId, value: String },
    FocusChanged { id: UiNodeId, focused: bool },
    Scroll { id: UiNodeId, dx: Fp32, dy: Fp32 },
    Appear { id: UiNodeId },
    Disappear { id: UiNodeId },
}

} // verus!
