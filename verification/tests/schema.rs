use mf_ui::events::UiEvent;
use mf_ui::float32::Fp32;
use mf_ui::layout::{
    CornerRadii, EdgeInsets, LayoutFrame, LayoutFrameValidationError, PointValue, SafeAreaEdges,
};
use mf_ui::mutation::{Mutation, PropKey, PropValue, ProtocolVersion};

fn f(x: f32) -> Fp32 {
    Fp32::from_bits(x.to_bits())
}

#[test]
fn exports_protocol_version_v1() {
    assert_eq!(ProtocolVersion::V1, ProtocolVersion::default());
}

#[test]
fn prop_keys_cover_layout_and_visual_vocabulary() {
    let keys = [
        PropKey::Axis,
        PropKey::Spacing,
        PropKey::Padding,
        PropKey::Alignment,
        PropKey::JustifyContent,
        PropKey::SafeAreaEdges,
        PropKey::Color,
        PropKey::BackgroundColor,
        PropKey::Opacity,
        PropKey::FontSize,
        PropKey::FontWeight,
        PropKey::CornerRadius,
        PropKey::CornerRadii,
        PropKey::FullRound,
        PropKey::Border,
        PropKey::Stroke,
        PropKey::Shadow,
        PropKey::Offset,
        PropKey::Source,
        PropKey::Enabled,
        PropKey::Focused,
        PropKey::Width,
        PropKey::Height,
        PropKey::MinWidth,
        PropKey::MinHeight,
        PropKey::MaxWidth,
        PropKey::MaxHeight,
        PropKey::FlexGrow,
        PropKey::FlexShrink,
    ];

    assert_eq!(keys.len(), 29);
}

#[test]
fn create_text_node_preserves_payload() {
    let mutation = Mutation::CreateTextNode {
        id: 7,
        text: "Count: 1".to_string(),
    };

    match mutation {
        Mutation::CreateTextNode { id, text } => {
            assert_eq!(id, 7);
            assert_eq!(text, "Count: 1");
        }
        other => panic!("unexpected mutation: {other:?}"),
    }
}

#[test]
fn set_prop_preserves_typed_value() {
    let mutation = Mutation::SetProp {
        id: 3,
        key: PropKey::Padding,
        value: PropValue::Insets(EdgeInsets::all(f(16.0))),
    };

    match mutation {
        Mutation::SetProp { id, key, value } => {
            assert_eq!(id, 3);
            assert_eq!(key, PropKey::Padding);
            assert_eq!(value, PropValue::Insets(EdgeInsets::all(f(16.0))));
        }
        other => panic!("unexpected mutation: {other:?}"),
    }
}

#[test]
fn unset_prop_preserves_target_key() {
    let mutation = Mutation::UnsetProp {
        id: 9,
        key: PropKey::Shadow,
    };

    match mutation {
        Mutation::UnsetProp { id, key } => {
            assert_eq!(id, 9);
            assert_eq!(key, PropKey::Shadow);
        }
        other => panic!("unexpected mutation: {other:?}"),
    }
}

#[test]
fn text_input_preserves_value() {
    let event = UiEvent::TextInput {
        id: 9,
        value: "hello".to_string(),
    };

    match event {
        UiEvent::TextInput { id, value } => {
            assert_eq!(id, 9);
            assert_eq!(value, "hello");
        }
        other => panic!("unexpected event: {other:?}"),
    }
}

#[test]
fn scroll_preserves_offsets() {
    let event = UiEvent::Scroll {
        id: 5,
        dx: f(4.5),
        dy: f(-8.0),
    };

    match event {
        UiEvent::Scroll { id, dx, dy } => {
            assert_eq!(id, 5);
            assert_eq!(dx, f(4.5));
            assert_eq!(dy, f(-8.0));
        }
        other => panic!("unexpected event: {other:?}"),
    }
}

#[test]
fn edge_insets_all_sets_each_side() {
    let insets = EdgeInsets::all(f(12.0));

    assert_eq!(insets.top, f(12.0));
    assert_eq!(insets.right, f(12.0));
    assert_eq!(insets.bottom, f(12.0));
    assert_eq!(insets.left, f(12.0));
}

#[test]
fn point_value_preserves_components() {
    let point = PointValue::new(f(4.0), f(-8.0));

    assert_eq!(point.x, f(4.0));
    assert_eq!(point.y, f(-8.0));
}

#[test]
fn corner_radii_preserve_each_corner() {
    let radii = CornerRadii::new(f(4.0), f(8.0), f(12.0), f(16.0));

    assert_eq!(radii.top_left, f(4.0));
    assert_eq!(radii.top_right, f(8.0));
    assert_eq!(radii.bottom_right, f(12.0));
    assert_eq!(radii.bottom_left, f(16.0));
}

#[test]
fn safe_area_edges_top_bottom_only_keeps_vertical_insets() {
    let insets = EdgeInsets::new(f(59.0), f(12.0), f(34.0), f(8.0));

    assert_eq!(
        SafeAreaEdges::TopBottom.apply_to(insets),
        EdgeInsets::new(f(59.0), f(0.0), f(34.0), f(0.0))
    );
}

#[test]
fn layout_frame_accepts_valid_values() {
    let frame = LayoutFrame {
        id: 1,
        x: f(0.0),
        y: f(4.0),
        width: f(100.0),
        height: f(20.0),
    };

    assert_eq!(frame.validate(), Ok(()));
}

#[test]
fn layout_frame_rejects_negative_size() {
    let frame = LayoutFrame {
        id: 1,
        x: f(0.0),
        y: f(0.0),
        width: f(-1.0),
        height: f(20.0),
    };

    assert_eq!(
        frame.validate(),
        Err(LayoutFrameValidationError::NegativeSize)
    );
}

#[test]
fn layout_frame_rejects_non_finite_values() {
    let frame = LayoutFrame {
        id: 1,
        x: f(f32::NAN),
        y: f(0.0),
        width: f(10.0),
        height: f(10.0),
    };

    assert_eq!(
        frame.validate(),
        Err(LayoutFrameValidationError::NonFinitePosition)
    );
}

#[test]
fn layout_frame_rejects_infinite_size_before_negative_size() {
    let frame = LayoutFrame {
        id: 1,
        x: f(0.0),
        y: f(0.0),
        width: f(f32::INFINITY),
        height: f(-3.0),
    };

    assert_eq!(frame.validate(), Err(LayoutFrameValidationError::NonFiniteSize));
}

#[test]
fn safe_area_edges_keep_what_they_name() {
    let insets = EdgeInsets::new(f(59.0), f(12.0), f(34.0), f(8.0));

    assert_eq!(
        SafeAreaEdges::Top.apply_to(insets),
        EdgeInsets::new(f(59.0), f(0.0), f(0.0), f(0.0))
    );
    assert_eq!(SafeAreaEdges::All.apply_to(insets), insets);
}

#[test]
fn negative_zero_is_not_below_zero() {
    let frame = LayoutFrame {
        id: 1,
        x: f(0.0),
        y: f(0.0),
        width: f(-0.0),
        height: f(0.0),
    };
    assert_eq!(frame.validate(), Ok(()));
    assert_eq!(f(-0.0), f(0.0));
    assert_ne!(f(f32::NAN), f(f32::NAN));
}
