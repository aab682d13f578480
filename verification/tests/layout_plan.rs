use mf_ui::float32::Fp32;
use mf_ui::layout::{DimensionValue, EdgeInsets, LayoutFrame, LayoutFrameValidationError, SafeAreaEdges};
use mf_ui::layout_plan::{
    check_layout_frames, child_context, is_container, resolved_padding, size_plan,
    text_should_fill_parent_width, Extent, FrameSetError, LayoutProps, ParentLayoutContext, SizePlan,
};
use mf_ui::mutation::{Alignment, Axis, ElementKind, JustifyContent, PropKey, PropValue};
use mf_ui::props::PropMap;
use mf_ui::vdom::{CanonicalNode, NodeDescriptor};

fn f(x: f32) -> Fp32 {
    Fp32::from_bits(x.to_bits())
}

fn node(id: u32, descriptor: NodeDescriptor, children: Vec<CanonicalNode>) -> CanonicalNode {
    CanonicalNode {
        id,
        descriptor,
        props: PropMap::new(),
        text: if descriptor == NodeDescriptor::Text { Some("hi".to_string()) } else { None },
        tap_handler: false,
        input_handler: false,
        focus_change_handler: false,
        children,
    }
}

fn frame(id: u32) -> LayoutFrame {
    LayoutFrame { id, x: f(0.0), y: f(0.0), width: f(10.0), height: f(10.0) }
}

fn stack() -> NodeDescriptor {
    NodeDescriptor::Element(ElementKind::Stack)
}

fn defaults() -> LayoutProps {
    LayoutProps::for_node(&node(1, stack(), Vec::new()))
}

#[test]
fn layout_props_default_to_a_vertical_leading_start_layout() {
    let p = defaults();
    assert_eq!(p.axis, Axis::Vertical);
    assert_eq!(p.spacing, f(0.0));
    assert_eq!(p.padding, EdgeInsets::all(f(0.0)));
    assert_eq!(p.alignment, Alignment::Leading);
    assert_eq!(p.justify_content, JustifyContent::Start);
    assert_eq!(p.safe_area_edges, None);
    assert_eq!(p.width, None);
    assert_eq!(p.flex_grow, None);
}

#[test]
fn layout_props_read_values_of_their_own_kind_only() {
    let mut n = node(1, stack(), Vec::new());
    n.props.insert(PropKey::Axis, PropValue::Axis(Axis::Horizontal));
    n.props.insert(PropKey::Spacing, PropValue::Float(f(8.0)));
    n.props.insert(PropKey::Padding, PropValue::Insets(EdgeInsets::all(f(4.0))));
    n.props.insert(PropKey::Alignment, PropValue::Alignment(Alignment::Center));
    n.props.insert(PropKey::JustifyContent, PropValue::JustifyContent(JustifyContent::Stretch));
    n.props.insert(PropKey::SafeAreaEdges, PropValue::SafeAreaEdges(SafeAreaEdges::All));
    n.props.insert(PropKey::Width, PropValue::Dimension(DimensionValue::Points(f(120.0))));
    n.props.insert(PropKey::Height, PropValue::Dimension(DimensionValue::Auto));
    n.props.insert(PropKey::MinWidth, PropValue::Float(f(3.0)));
    n.props.insert(PropKey::FlexGrow, PropValue::Float(f(1.0)));
    n.props.insert(PropKey::FlexShrink, PropValue::Bool(true));
    let p = LayoutProps::for_node(&n);
    assert_eq!(p.axis, Axis::Horizontal);
    assert_eq!(p.spacing, f(8.0));
    assert_eq!(p.padding, EdgeInsets::all(f(4.0)));
    assert_eq!(p.alignment, Alignment::Center);
    assert_eq!(p.justify_content, JustifyContent::Stretch);
    assert_eq!(p.safe_area_edges, Some(SafeAreaEdges::All));
    assert_eq!(p.width, Some(f(120.0)));
    assert_eq!(p.height, None);
    assert_eq!(p.min_width, None);
    assert_eq!(p.flex_grow, Some(f(1.0)));
    assert_eq!(p.flex_shrink, None);
}

#[test]
fn containers_hand_their_layout_to_children() {
    assert!(is_container(stack()));
    assert!(is_container(NodeDescriptor::Element(ElementKind::List)));
    assert!(!is_container(NodeDescriptor::Text));
    assert!(!is_container(NodeDescriptor::Element(ElementKind::Button)));
    let p = defaults();
    assert_eq!(
        child_context(stack(), &p),
        Some(ParentLayoutContext {
            axis: Axis::Vertical,
            alignment: Alignment::Leading,
            justify_content: JustifyContent::Start,
        })
    );
    assert_eq!(child_context(NodeDescriptor::Text, &p), None);
}

#[test]
fn text_fills_only_a_vertical_stretching_parent() {
    let ctx = |axis, alignment| {
        Some(ParentLayoutContext { axis, alignment, justify_content: JustifyContent::Start })
    };
    assert!(text_should_fill_parent_width(ctx(Axis::Vertical, Alignment::Stretch)));
    assert!(!text_should_fill_parent_width(ctx(Axis::Horizontal, Alignment::Stretch)));
    assert!(!text_should_fill_parent_width(ctx(Axis::Vertical, Alignment::Leading)));
    assert!(!text_should_fill_parent_width(None));
}

#[test]
fn safe_area_padding_comes_from_the_host_insets() {
    let host = EdgeInsets::new(f(44.0), f(5.0), f(34.0), f(6.0));
    let mut p = defaults();
    p.padding = EdgeInsets::all(f(9.0));
    let safe = NodeDescriptor::Element(ElementKind::SafeArea);
    assert_eq!(resolved_padding(safe, &p, host), EdgeInsets::new(f(44.0), f(0.0), f(34.0), f(0.0)));
    p.safe_area_edges = Some(SafeAreaEdges::Top);
    assert_eq!(resolved_padding(safe, &p, host), EdgeInsets::new(f(44.0), f(0.0), f(0.0), f(0.0)));
    assert_eq!(resolved_padding(stack(), &p, host), EdgeInsets::all(f(9.0)));
}

#[test]
fn root_nodes_fill_the_host() {
    let p = defaults();
    let host = SizePlan { width: Extent::Host, height: Extent::Host };
    for descriptor in [
        stack(),
        NodeDescriptor::Text,
        NodeDescriptor::Element(ElementKind::Button),
        NodeDescriptor::Element(ElementKind::Image),
        NodeDescriptor::Element(ElementKind::Input),
    ] {
        assert_eq!(size_plan(descriptor, &p, true, None), host);
    }
    let mut fixed = defaults();
    fixed.width = Some(f(100.0));
    assert_eq!(
        size_plan(stack(), &fixed, true, None),
        SizePlan { width: Extent::Points(f(100.0)), height: Extent::Host }
    );
    assert_eq!(size_plan(NodeDescriptor::Text, &fixed, true, None), host);
}

#[test]
fn leaves_use_fixed_or_intrinsic_sizes() {
    let mut p = defaults();
    let intrinsic = SizePlan { width: Extent::Intrinsic, height: Extent::Intrinsic };
    assert_eq!(size_plan(NodeDescriptor::Text, &p, false, None), intrinsic);
    assert_eq!(size_plan(NodeDescriptor::Element(ElementKind::Button), &p, false, None), intrinsic);
    assert_eq!(size_plan(NodeDescriptor::Element(ElementKind::Image), &p, false, None), intrinsic);
    assert_eq!(
        size_plan(NodeDescriptor::Element(ElementKind::Input), &p, false, None),
        SizePlan { width: Extent::Fill, height: Extent::Intrinsic }
    );
    p.height = Some(f(20.0));
    assert_eq!(
        size_plan(NodeDescriptor::Element(ElementKind::Button), &p, false, None),
        SizePlan { width: Extent::Intrinsic, height: Extent::Points(f(20.0)) }
    );
}

#[test]
fn text_under_a_vertical_stretching_parent_leaves_its_width_to_layout() {
    let p = defaults();
    let ctx = Some(ParentLayoutContext {
        axis: Axis::Vertical,
        alignment: Alignment::Stretch,
        justify_content: JustifyContent::Start,
    });
    assert_eq!(
        size_plan(NodeDescriptor::Text, &p, false, ctx),
        SizePlan { width: Extent::Unset, height: Extent::Intrinsic }
    );
}

#[test]
fn containers_stretch_along_a_stretching_parent_axis() {
    let p = defaults();
    let ctx = |axis| {
        Some(ParentLayoutContext { axis, alignment: Alignment::Leading, justify_content: JustifyContent::Stretch })
    };
    assert_eq!(
        size_plan(stack(), &p, false, ctx(Axis::Vertical)),
        SizePlan { width: Extent::Unset, height: Extent::Fill }
    );
    assert_eq!(
        size_plan(stack(), &p, false, ctx(Axis::Horizontal)),
        SizePlan { width: Extent::Fill, height: Extent::Unset }
    );
    assert_eq!(
        size_plan(stack(), &p, false, None),
        SizePlan { width: Extent::Unset, height: Extent::Unset }
    );
}

#[test]
fn frame_sets_must_cover_each_node_once_with_valid_frames() {
    let root = node(1, stack(), vec![node(2, NodeDescriptor::Text, Vec::new())]);
    assert_eq!(check_layout_frames(&root, &[frame(1), frame(2)]), Ok(()));
    assert_eq!(check_layout_frames(&root, &[frame(1)]), Err(FrameSetError::CountMismatch));
    assert_eq!(check_layout_frames(&root, &[frame(1), frame(1)]), Err(FrameSetError::DuplicateId(1)));
    let mut bad = frame(2);
    bad.width = f(-1.0);
    assert_eq!(
        check_layout_frames(&root, &[frame(1), bad]),
        Err(FrameSetError::Invalid(LayoutFrameValidationError::NegativeSize))
    );
}

fn duplicate_frames_case() -> Result<(), FrameSetError> {
    let node = node(1, stack(), Vec::new());
    let frames = vec![
        LayoutFrame { id: 1, x: f(0.0), y: f(0.0), width: f(10.0), height: f(10.0) },
        LayoutFrame { id: 1, x: f(0.0), y: f(0.0), width: f(10.0), height: f(10.0) },
    ];
    check_layout_frames(&node, &frames)
}

#[test]
fn layout_layout_frame_validation_rejects_duplicates() {
    assert!(duplicate_frames_case().is_err());
}

#[test]
fn lib_layout_frame_validation_rejects_duplicates() {
    assert!(duplicate_frames_case().is_err());
}
