//! The layout decisions for one node of the canonical tree: the layout properties it
//! sets, the context it hands its children, its padding, and where each of its two
//! extents comes from. The flexbox computation itself, in `f32`, is left to the host.

use vstd::prelude::*;
use crate::float32::Fp32;
use std::collections::HashSet;
use crate::layout::{
    frame_validation, DimensionValue, EdgeInsets, LayoutFrame, LayoutFrameValidationError, SafeAreaEdges,
};
use crate::mutation::{Alignment, Axis, ElementKind, JustifyContent, PropKey, PropValue, UiNodeId};
use crate::props::{lookup, PropMap};
use crate::vdom::{node_count, tree_size, CanonicalNode, NodeDescriptor};

verus! {

broadcast use vstd::std_specs::hash::group_hash_axioms;

/// The layout properties of a node, with their defaults filled in.
#[derive(Clone, Copy, Debug, PartialEq)]
pub struct LayoutProps {
    pub axis: Axis,
    pub spacing: Fp32,
    pub padding: EdgeInsets,
    pub alignment: Alignment,
    pub justify_content: JustifyContent,
    pub safe_area_edges: Option<SafeAreaEdges>,
    pub width: Option<Fp32>,
    pub height: Option<Fp32>,
    pub min_width: Option<Fp32>,
    pub min_height: Option<Fp32>,
    pub max_width: Option<Fp32>,
    pub max_height: Option<Fp32>,
    pub flex_grow: Option<Fp32>,
    pub flex_shrink: Option<Fp32>,
}

/// The float stored under `key`, if the property holds one.
pub open spec fn float_of(props: Seq<(PropKey, PropValue)>, key: PropKey) -> Option<Fp32> {
    match lookup(props, key) {
        Some(PropValue::Float(v)) => Some(v),
        _ => None,
    }
}

/// The fixed length stored under `key`, if the property holds one in points.
pub open spec fn points_of(props: Seq<(PropKey, PropValue)>, key: PropKey) -> Option<Fp32> {
    match lookup(props, key) {
        Some(PropValue::Dimension(DimensionValue::Points(v))) => Some(v),
        _ => None,
    }
}

/// The layout properties that `props` sets: a vertical axis, no spacing or padding, leading
/// alignment and start justification unless a property of the right kind says otherwise.
pub open spec fn layout_props_of(props: Seq<(PropKey, PropValue)>) -> LayoutProps {
    LayoutProps {
        axis: match lookup(props, PropKey::Axis) {
            Some(PropValue::Axis(a)) => a,
            _ => Axis::Vertical,
        },
        spacing: match float_of(props, PropKey::Spacing) {
            Some(v) => v,
            None => Fp32 { bits: 0 },
        },
        padding: match lookup(props, PropKey::Padding) {
            Some(PropValue::Insets(p)) => p,
            _ => EdgeInsets {
                top: Fp32 { bits: 0 },
                right: Fp32 { bits: 0 },
                bottom: Fp32 { bits: 0 },
                left: Fp32 { bits: 0 },
            },
        },
        alignment: match lookup(props, PropKey::Alignment) {
            Some(PropValue::Alignment(a)) => a,
            _ => Alignment::Leading,
        },
        justify_content: match lookup(props, PropKey::JustifyContent) {
            Some(PropValue::JustifyContent(j)) => j,
            _ => JustifyContent::Start,
        },
        safe_area_edges: match lookup(props, PropKey::SafeAreaEdges) {
            Some(PropValue::SafeAreaEdges(e)) => Some(e),
            _ => None,
        },
        width: points_of(props, PropKey::Width),
        height: points_of(props, PropKey::Height),
        min_width: points_of(props, PropKey::MinWidth),
        min_height: points_of(props, PropKey::MinHeight),
        max_width: points_of(props, PropKey::MaxWidth),
        max_height: points_of(props, PropKey::MaxHeight),
        flex_grow: float_of(props, PropKey::FlexGrow),
        flex_shrink: float_of(props, PropKey::FlexShrink),
    }
}

/// The float stored under `key`, if the property holds one.
pub fn float_prop(props: &PropMap, key: PropKey) -> (r: Option<Fp32>)
    requires
        props.wf(),
    ensures
        r == float_of(props@, key),
{
    match props.get(key) {
        Some(PropValue::Float(v)) => Some(*v),
        _ => None,
    }
}

/// The fixed length stored under `key`, if the property holds one in points.
pub fn dimension_points(props: &PropMap, key: PropKey) -> (r: Option<Fp32>)
    requires
        props.wf(),
    ensures
        r == points_of(props@, key),
{
    match props.get(key) {
        Some(PropValue::Dimension(DimensionValue::Points(v))) => Some(*v),
        _ => None,
    }
}

impl LayoutProps {
    /// The layout properties of `node`.
    pub fn for_node(node: &CanonicalNode) -> (r: LayoutProps)
        requires
            node.props.wf(),
        ensures
            r == layout_props_of(node.props@),
    {
        let props = &node.props;
        let zero = Fp32::zero();
        let mut r = LayoutProps {
            axis: Axis::Vertical,
            spacing: zero,
            padding: EdgeInsets::all(zero),
            alignment: Alignment::Leading,
            justify_content: JustifyContent::Start,
            safe_area_edges: None,
            width: None,
            height: None,
            min_width: None,
            min_height: None,
            max_width: None,
            max_height: None,
            flex_grow: None,
            flex_shrink: None,
        };
        if let Some(PropValue::Axis(axis)) = props.get(PropKey::Axis) {
            r.axis = *axis;
        }
        if let Some(PropValue::Float(spacing)) = props.get(PropKey::Spacing) {
            r.spacing = *spacing;
        }
        if let Some(PropValue::Insets(padding)) = props.get(PropKey::Padding) {
            r.padding = *padding;
        }
        if let Some(PropValue::Alignment(alignment)) = props.get(PropKey::Alignment) {
            r.alignment = *alignment;
        }
        if let Some(PropValue::JustifyContent(justify)) = props.get(PropKey::JustifyContent) {
            r.justify_content = *justify;
        }
        if let Some(PropValue::SafeAreaEdges(edges)) = props.get(PropKey::SafeAreaEdges) {
            r.safe_area_edges = Some(*edges);
        }
        r.width = dimension_points(props, PropKey::Width);
        r.height = dimension_points(props, PropKey::Height);
        r.min_width = dimension_points(props, PropKey::MinWidth);
        r.min_height = dimension_points(props, PropKey::MinHeight);
        r.max_width = dimension_points(props, PropKey::MaxWidth);
        r.max_height = dimension_points(props, PropKey::MaxHeight);
        r.flex_grow = float_prop(props, PropKey::FlexGrow);
        r.flex_shrink = float_prop(props, PropKey::FlexShrink);
        r
    }
}

/// What a container tells the layout of its children: its axis, alignment and
/// justification.
#[derive(Clone, Copy, Debug, PartialEq, Eq, Structural)]
pub struct ParentLayoutContext {
    pub axis: Axis,
    pub alignment: Alignment,
    pub justify_content: JustifyContent,
}

/// Whether a node of `descriptor` lays out children: stacks, containers, safe areas and
/// lists.
pub open spec fn spec_is_container(descriptor: NodeDescriptor) -> bool {
    match descriptor {
        NodeDescriptor::Element(ElementKind::Stack) => true,
        NodeDescriptor::Element(ElementKind::Container) => true,
        NodeDescriptor::Element(ElementKind::SafeArea) => true,
        NodeDescriptor::Element(ElementKind::List) => true,
        _ => false,
    }
}

/// Whether a node of `descriptor` lays out children.
pub fn is_container(descriptor: NodeDescriptor) -> (r: bool)
    ensures
        r == spec_is_container(descriptor),
{
    match descriptor {
        NodeDescriptor::Element(ElementKind::Stack) => true,
        NodeDescriptor::Element(ElementKind::Container) => true,
        NodeDescriptor::Element(ElementKind::SafeArea) => true,
        NodeDescriptor::Element(ElementKind::List) => true,
        _ => false,
    }
}

/// The context a node of `descriptor` with layout properties `props` hands its children:
/// a container's axis, alignment and justification; none for any other node.
pub fn child_context(descriptor: NodeDescriptor, props: &LayoutProps) -> (r: Option<
    ParentLayoutContext,
>)
    ensures
        r == if spec_is_container(descriptor) {
            Some(
                ParentLayoutContext {
                    axis: props.axis,
                    alignment: props.alignment,
                    justify_content: props.justify_content,
                },
            )
        } else {
            None
        },
{
    if is_container(descriptor) {
        Some(
            ParentLayoutContext {
                axis: props.axis,
                alignment: props.alignment,
                justify_content: props.justify_content,
            },
        )
    } else {
        None
    }
}

/// Whether text fills the width of its parent: a vertical parent that stretches its
/// children across.
pub open spec fn spec_text_fills_parent_width(context: Option<ParentLayoutContext>) -> bool {
    match context {
        Some(c) => c.axis == Axis::Vertical && c.alignment == Alignment::Stretch,
        None => false,
    }
}

/// Whether text fills the width of its parent.
pub fn text_should_fill_parent_width(context: Option<ParentLayoutContext>) -> (r: bool)
    ensures
        r == spec_text_fills_parent_width(context),
{
    match context {
        Some(c) => c.axis == Axis::Vertical && c.alignment == Alignment::Stretch,
        None => false,
    }
}

/// The padding of a node: a safe area takes the sides of the host's safe-area insets that
/// its edges honour (top and bottom when unset); any other node takes its own padding.
pub fn resolved_padding(descriptor: NodeDescriptor, props: &LayoutProps, safe_area: EdgeInsets) -> (r:
    EdgeInsets)
    ensures
        r == if descriptor == NodeDescriptor::Element(ElementKind::SafeArea) {
            match props.safe_area_edges {
                Some(edges) => edges.spec_apply_to(safe_area),
                None => SafeAreaEdges::TopBottom.spec_apply_to(safe_area),
            }
        } else {
            props.padding
        },
{
    match descriptor {
        NodeDescriptor::Element(ElementKind::SafeArea) => {
            let edges = match props.safe_area_edges {
                Some(edges) => edges,
                None => SafeAreaEdges::TopBottom,
            };
            edges.apply_to(safe_area)
        },
        _ => props.padding,
    }
}

/// Where one extent (width or height) of a node comes from.
#[derive(Clone, Copy, Debug, PartialEq)]
pub enum Extent {
    /// Left to the flexbox layout.
    Unset,
    /// The host's extent.
    Host,
    /// A fixed length in points.
    Points(Fp32),
    /// The node's own measure: its text, its label, or the fallback image size.
    Intrinsic,
    /// The whole extent of the parent's content box.
    Fill,
}

/// Where the width and the height of a node come from.
#[derive(Clone, Copy, Debug, PartialEq)]
pub struct SizePlan {
    pub width: Extent,
    pub height: Extent,
}

/// A length fixed in points, or else the host's extent for the root and nothing for
/// another node.
pub open spec fn base_extent(fixed: Option<Fp32>, is_root: bool) -> Extent {
    match fixed {
        Some(v) => Extent::Points(v),
        None => if is_root {
            Extent::Host
        } else {
            Extent::Unset
        },
    }
}

/// A length fixed in points, or else `otherwise`.
pub open spec fn fixed_or(fixed: Option<Fp32>, otherwise: Extent) -> Extent {
    match fixed {
        Some(v) => Extent::Points(v),
        None => otherwise,
    }
}

/// Where the extents of a node come from. A container, or an element of another kind
/// than text, button, image or input, takes its fixed lengths (the host's for the root);
/// a container under a parent that stretches along its axis fills that axis unless it
/// fixes it. Text, buttons and images fill the host as the root and otherwise take their
/// fixed or their own measures, text leaving its width to a vertical stretching parent. An
/// input fills the host as the root, and otherwise its parent's width unless fixed, with
/// its fixed or own height.
pub open spec fn spec_size_plan(
    descriptor: NodeDescriptor,
    props: LayoutProps,
    is_root: bool,
    context: Option<ParentLayoutContext>,
) -> SizePlan {
    let base = SizePlan {
        width: base_extent(props.width, is_root),
        height: base_extent(props.height, is_root),
    };
    let host = SizePlan { width: Extent::Host, height: Extent::Host };
    match descriptor {
        NodeDescriptor::Text => if is_root {
            host
        } else {
            SizePlan {
                width: if props.width is None && spec_text_fills_parent_width(context) {
                    Extent::Unset
                } else {
                    fixed_or(props.width, Extent::Intrinsic)
                },
                height: fixed_or(props.height, Extent::Intrinsic),
            }
        },
        NodeDescriptor::Element(ElementKind::Button) | NodeDescriptor::Element(
            ElementKind::Image,
        ) => if is_root {
            host
        } else {
            SizePlan {
                width: fixed_or(props.width, Extent::Intrinsic),
                height: fixed_or(props.height, Extent::Intrinsic),
            }
        },
        NodeDescriptor::Element(ElementKind::Input) => if is_root {
            host
        } else {
            SizePlan {
                width: fixed_or(props.width, Extent::Fill),
                height: fixed_or(props.height, Extent::Intrinsic),
            }
        },
        _ => if spec_is_container(descriptor) {
            match context {
                Some(c) => if c.justify_content == JustifyContent::Stretch {
                    match c.axis {
                        Axis::Vertical => SizePlan {
                            height: fixed_or(props.height, Extent::Fill),
                            ..base
                        },
                        Axis::Horizontal => SizePlan {
                            width: fixed_or(props.width, Extent::Fill),
                            ..base
                        },
                    }
                } else {
                    base
                },
                None => base,
            }
        } else {
            base
        },
    }
}

/// Where the extents of a node come from.
pub fn size_plan(
    descriptor: NodeDescriptor,
    props: &LayoutProps,
    is_root: bool,
    context: Option<ParentLayoutContext>,
) -> (r: SizePlan)
    ensures
        r == spec_size_plan(descriptor, *props, is_root, context),
{
    let width = match props.width {
        Some(v) => Extent::Points(v),
        None => if is_root {
            Extent::Host
        } else {
            Extent::Unset
        },
    };
    let height = match props.height {
        Some(v) => Extent::Points(v),
        None => if is_root {
            Extent::Host
        } else {
            Extent::Unset
        },
    };
    let mut plan = SizePlan { width, height };
    match descriptor {
        NodeDescriptor::Text => {
            if is_root {
                plan = SizePlan { width: Extent::Host, height: Extent::Host };
            } else {
                if props.width.is_none() && !text_should_fill_parent_width(context) {
                    plan.width = Extent::Intrinsic;
                }
                if props.height.is_none() {
                    plan.height = Extent::Intrinsic;
                }
            }
        },
        NodeDescriptor::Element(ElementKind::Button) | NodeDescriptor::Element(
            ElementKind::Image,
        ) => {
            if is_root {
                plan = SizePlan { width: Extent::Host, height: Extent::Host };
            } else {
                if props.width.is_none() {
                    plan.width = Extent::Intrinsic;
                }
                if props.height.is_none() {
                    plan.height = Extent::Intrinsic;
                }
            }
        },
        NodeDescriptor::Element(ElementKind::Input) => {
            if is_root {
                plan = SizePlan { width: Extent::Host, height: Extent::Host };
            } else {
                if props.width.is_none() {
                    plan.width = Extent::Fill;
                }
                if props.height.is_none() {
                    plan.height = Extent::Intrinsic;
                }
            }
        },
        _ => {
            if is_container(descriptor) {
                if let Some(c) = context {
                    if c.justify_content == JustifyContent::Stretch {
                        match c.axis {
                            Axis::Vertical => {
                                if props.height.is_none() {
                                    plan.height = Extent::Fill;
                                }
                            },
                            Axis::Horizontal => {
                                if props.width.is_none() {
                                    plan.width = Extent::Fill;
                                }
                            },
                        }
                    }
                }
            }
        },
    }
    plan
}

/// Why a set of computed frames does not cover a tree.
#[derive(Clone, Copy, Debug, PartialEq, Eq, Structural)]
pub enum FrameSetError {
    /// There are not as many frames as nodes.
    CountMismatch,
    /// A second frame for this node.
    DuplicateId(UiNodeId),
    /// A frame that cannot be applied.
    Invalid(LayoutFrameValidationError),
}

/// The first problem among the first `n` frames, in order: a frame for a node that an
/// earlier frame already covers, or an invalid frame.
pub open spec fn frames_problem(frames: Seq<LayoutFrame>, n: int) -> Option<FrameSetError>
    decreases n,
{
    if n <= 0 || n > frames.len() {
        None
    } else {
        match frames_problem(frames, n - 1) {
            Some(e) => Some(e),
            None => if exists|j: int| 0 <= j < n - 1 && #[trigger] frames[j].id == frames[n - 1].id {
                Some(FrameSetError::DuplicateId(frames[n - 1].id))
            } else {
                match frame_validation(frames[n - 1]) {
                    Err(e) => Some(FrameSetError::Invalid(e)),
                    Ok(()) => None,
                }
            },
        }
    }
}

/// Checks that `frames` holds one valid frame for each node of `root`: first the count,
/// then each frame in order.
pub fn check_layout_frames(root: &CanonicalNode, frames: &[LayoutFrame]) -> (r: Result<
    (),
    FrameSetError,
>)
    requires
        tree_size(*root) < u64::MAX,
    ensures
        r == if frames@.len() != tree_size(*root) {
            Err(FrameSetError::CountMismatch)
        } else {
            match frames_problem(frames@, frames@.len() as int) {
                Some(e) => Err(e),
                None => Ok(()),
            }
        },
{
    let count = node_count(root);
    if frames.len() as u64 != count {
        return Err(FrameSetError::CountMismatch);
    }
    let mut seen: HashSet<UiNodeId> = HashSet::new();
    let mut i: usize = 0;
    while i < frames.len()
        invariant
            i <= frames@.len(),
            frames_problem(frames@, i as int) is None,
            forall|x: UiNodeId| #[trigger]
                seen@.contains(x) <==> exists|j: int| 0 <= j < i && frames@[j].id == x,
            frames@.len() == tree_size(*root),
        decreases frames@.len() - i,
    {
        let frame = &frames[i];
        proof {
            lemma_problem_persists(frames@, i as int + 1, frames@.len() as int);
        }
        if seen.contains(&frame.id) {
            proof {
                let j = choose|j: int| 0 <= j < i && frames@[j].id == frame.id;
                assert(frames@[j].id == frames@[i as int].id);
                assert(frames_problem(frames@, i as int + 1) == Some(
                    FrameSetError::DuplicateId(frame.id),
                ));
            }
            return Err(FrameSetError::DuplicateId(frame.id));
        }
        match frame.validate() {
            Err(e) => {
                proof {
                    assert(!exists|j: int| 0 <= j < i && #[trigger] frames@[j].id == frames@[i as int].id);
                    assert(frames_problem(frames@, i as int + 1) == Some(FrameSetError::Invalid(e)));
                }
                return Err(FrameSetError::Invalid(e));
            },
            Ok(()) => {},
        }
        seen.insert(frame.id);
        i = i + 1;
    }
    Ok(())
}

/// Once the first `n` frames hold a problem, the first `m >= n` hold the same one.
pub proof fn lemma_problem_persists(frames: Seq<LayoutFrame>, n: int, m: int)
    requires
        0 <= n <= m <= frames.len(),
    ensures
        frames_problem(frames, n) is Some ==> frames_problem(frames, m) == frames_problem(frames, n),
    decreases m - n,
{
    if n < m {
        lemma_problem_persists(frames, n, m - 1);
    }
}

} // verus!
