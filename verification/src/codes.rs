//! The numeric codes that the Android bridge uses for element kinds, event kinds and font
//! weights.

use vstd::prelude::*;
use crate::mutation::{ElementKind, EventKind, FontWeight};

verus! {

/// The bridge code of each element kind.
pub open spec fn spec_element_kind_code(kind: ElementKind) -> u32 {
    match kind {
        ElementKind::Stack => 0,
        ElementKind::Text => 1,
        ElementKind::Button => 2,
        ElementKind::Image => 3,
        ElementKind::List => 4,
        ElementKind::Input => 5,
        ElementKind::Container => 6,
        ElementKind::SafeArea => 7,
    }
}

/// The bridge code of each event kind.
pub open spec fn spec_event_kind_code(kind: EventKind) -> u32 {
    match kind {
        EventKind::Tap => 0,
        EventKind::TextInput => 1,
        EventKind::Scroll => 2,
        EventKind::Appear => 3,
        EventKind::Disappear => 4,
        EventKind::FocusChanged => 5,
    }
}

/// The bridge code of each font weight.
pub open spec fn spec_font_weight_code(weight: FontWeight) -> u32 {
    match weight {
        FontWeight::Regular => 0,
        FontWeight::SemiBold => 1,
        FontWeight::Bold => 2,
    }
}

pub fn element_kind_code(kind: ElementKind) -> (r: u32)
    ensures
        r == spec_element_kind_code(kind),
{
    match kind {
        ElementKind::Stack => 0,
        ElementKind::Text => 1,
        ElementKind::Button => 2,
        ElementKind::Image => 3,
        ElementKind::List => 4,
        ElementKind::Input => 5,
        ElementKind::Container => 6,
        ElementKind::SafeArea => 7,
    }
}

pub fn event_kind_code(kind: EventKind) -> (r: u32)
    ensures
        r == spec_event_kind_code(kind),
{
    match kind {
        EventKind::Tap => 0,
        EventKind::TextInput => 1,
        EventKind::Scroll => 2,
        EventKind::Appear => 3,
        EventKind::Disappear => 4,
        EventKind::FocusChanged => 5,
    }
}

pub fn font_weight_code(weight: FontWeight) -> (r: u32)
    ensures
        r == spec_font_weight_code(weight),
{
    match weight {
        FontWeight::Regular => 0,
        FontWeight::SemiBold => 1,
        FontWeight::Bold => 2,
    }
}

/// Distinct element kinds have distinct codes, so the bridge can tell them apart.
pub proof fn lemma_element_codes_distinct(a: ElementKind, b: ElementKind)
    requires
        a != b,
    ensures
        spec_element_kind_code(a) != spec_element_kind_code(b),
{
}

/// Distinct event kinds have distinct codes.
pub proof fn lemma_event_codes_distinct(a: EventKind, b: EventKind)
    requires
        a != b,
    ensures
        spec_event_kind_code(a) != spec_event_kind_code(b),
{
}

} // verus!
