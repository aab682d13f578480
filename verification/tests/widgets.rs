use mf_ui::float32::Fp32;
use mf_ui::layout::{CornerRadii, DimensionValue, EdgeInsets, PointValue, SafeAreaEdges};
use mf_ui::mutation::{
    Alignment, Axis, ColorValue, ElementKind, FontWeight, JustifyContent, LineStyle, PropKey,
    PropValue, ShadowStyle,
};
use mf_ui::vdom::NodeDescriptor;
use mf_ui::view::{canonicalize_view, View, WidgetElement};
use mf_ui::widgets::{
    button_props, canonicalize, copy_widget, container_props, descriptor_of, image_props, input_props, list_props,
    safe_area_props, stack_props, text_props, ButtonWidget, ContainerWidget, FontSpec, ImageWidget,
    InputWidget, SafeAreaWidget, StackWidget, TextWidget, Widget,
};

fn f(x: f32) -> Fp32 {
    Fp32::from_bits(x.to_bits())
}

fn rgba(r: f32, g: f32, b: f32, a: f32) -> ColorValue {
    ColorValue::new(f(r), f(g), f(b), f(a))
}

fn plain_button(label: &str) -> ButtonWidget {
    ButtonWidget {
        label: label.to_string(),
        color: None,
        background: None,
        corner_radius: None,
        enabled: true,
        has_action: false,
    }
}

fn plain_input(value: &str) -> InputWidget {
    InputWidget {
        value: value.to_string(),
        color: None,
        background: None,
        font: None,
        corner_radius: None,
        enabled: true,
        focused: false,
        has_input_action: false,
        has_focus_change_action: false,
    }
}

fn plain_container() -> ContainerWidget {
    ContainerWidget {
        padding: EdgeInsets::all(f(0.0)),
        width: None,
        height: None,
        min_width: None,
        min_height: None,
        max_width: None,
        max_height: None,
        background: None,
        opacity: None,
        border: None,
        stroke: None,
        corner_radius: None,
        corner_radii: None,
        full_round: false,
        shadow: None,
        offset: None,
    }
}

fn stack(axis: Axis) -> StackWidget {
    StackWidget {
        axis,
        spacing: f(0.0),
        padding: EdgeInsets::all(f(0.0)),
        alignment: Alignment::Stretch,
        justify_content: JustifyContent::Start,
        background: None,
    }
}

#[test]
fn button_props_include_visual_style_and_enabled_state() {
    let mut button = plain_button("Save");
    button.background = Some(rgba(0.1, 0.2, 0.3, 1.0));
    button.color = Some(rgba(0.9, 0.8, 0.7, 0.6));
    button.corner_radius = Some(f(10.0));
    button.enabled = false;

    let props = button_props(&button);

    assert_eq!(props.get(PropKey::BackgroundColor), Some(&PropValue::Color(rgba(0.1, 0.2, 0.3, 1.0))));
    assert_eq!(props.get(PropKey::Color), Some(&PropValue::Color(rgba(0.9, 0.8, 0.7, 0.6))));
    assert_eq!(props.get(PropKey::CornerRadius), Some(&PropValue::Float(f(10.0))));
    assert_eq!(props.get(PropKey::Enabled), Some(&PropValue::Bool(false)));
}

#[test]
fn input_props_include_visual_state_focus_and_enabled() {
    let mut input = plain_input("alex");
    input.color = Some(rgba(0.2, 0.3, 0.4, 1.0));
    input.background = Some(rgba(0.9, 0.8, 0.7, 1.0));
    input.corner_radius = Some(f(12.0));
    input.focused = true;
    input.enabled = false;

    let props = input_props(&input);

    assert_eq!(props.get(PropKey::Focused), Some(&PropValue::Bool(true)));
    assert_eq!(props.get(PropKey::Enabled), Some(&PropValue::Bool(false)));
    assert_eq!(props.get(PropKey::CornerRadius), Some(&PropValue::Float(f(12.0))));
}

#[test]
fn stack_props_include_background_color() {
    let mut st = stack(Axis::Horizontal);
    st.background = Some(rgba(0.3, 0.4, 0.5, 0.7));

    let props = stack_props(&st);

    assert_eq!(props.get(PropKey::BackgroundColor), Some(&PropValue::Color(rgba(0.3, 0.4, 0.5, 0.7))));
}

#[test]
fn container_props_include_visual_and_layout_values() {
    let mut c = plain_container();
    c.padding = EdgeInsets::new(f(1.0), f(2.0), f(3.0), f(4.0));
    c.width = Some(f(120.0));
    c.height = Some(f(44.0));
    c.background = Some(rgba(0.2, 0.3, 0.4, 0.7));
    c.opacity = Some(f(0.8));
    c.border = Some(LineStyle::new(f(2.0), rgba(0.9, 0.8, 0.7, 1.0)));
    c.stroke = Some(LineStyle::new(f(1.0), rgba(0.5, 0.6, 0.7, 1.0)));
    c.corner_radius = Some(f(12.0));
    c.corner_radii = Some(CornerRadii::new(f(4.0), f(6.0), f(8.0), f(10.0)));
    c.full_round = true;
    c.shadow = Some(ShadowStyle::new(rgba(0.0, 0.0, 0.0, 0.3), f(10.0), PointValue::new(f(2.0), f(4.0))));
    c.offset = Some(PointValue::new(f(3.0), f(-1.0)));

    let props = container_props(&c);

    assert_eq!(
        props.get(PropKey::Padding),
        Some(&PropValue::Insets(EdgeInsets::new(f(1.0), f(2.0), f(3.0), f(4.0))))
    );
    assert_eq!(
        props.get(PropKey::CornerRadii),
        Some(&PropValue::CornerRadii(CornerRadii::new(f(4.0), f(6.0), f(8.0), f(10.0))))
    );
    assert_eq!(props.get(PropKey::FullRound), Some(&PropValue::Bool(true)));
    assert!(matches!(props.get(PropKey::Border), Some(PropValue::LineStyle(_))));
    assert!(matches!(props.get(PropKey::Shadow), Some(PropValue::Shadow(_))));
    assert!(matches!(props.get(PropKey::Offset), Some(PropValue::Point(_))));
}

#[test]
fn stack_props_include_justify_content() {
    let mut st = stack(Axis::Vertical);
    st.justify_content = JustifyContent::Center;

    let props = stack_props(&st);

    assert_eq!(props.get(PropKey::JustifyContent), Some(&PropValue::JustifyContent(JustifyContent::Center)));
}

#[test]
fn safe_area_props_include_layout_and_background_values() {
    let area = SafeAreaWidget {
        edges: SafeAreaEdges::TopBottom,
        alignment: Alignment::Center,
        justify_content: JustifyContent::Center,
        padding: EdgeInsets::all(f(0.0)),
        background: Some(rgba(0.3, 0.4, 0.5, 0.7)),
    };

    let props = safe_area_props(&area);

    assert_eq!(props.get(PropKey::Alignment), Some(&PropValue::Alignment(Alignment::Center)));
    assert_eq!(props.get(PropKey::JustifyContent), Some(&PropValue::JustifyContent(JustifyContent::Center)));
    assert_eq!(props.get(PropKey::BackgroundColor), Some(&PropValue::Color(rgba(0.3, 0.4, 0.5, 0.7))));
}

#[test]
fn property_order_follows_the_order_they_are_set() {
    let st = stack(Axis::Horizontal);
    let props = stack_props(&st);
    let keys: Vec<PropKey> = (0..props.len()).map(|i| *props.entry(i).0).collect();
    assert_eq!(
        keys,
        vec![PropKey::Axis, PropKey::Spacing, PropKey::Padding, PropKey::Alignment, PropKey::JustifyContent]
    );

    let list = list_props();
    let keys: Vec<PropKey> = (0..list.len()).map(|i| *list.entry(i).0).collect();
    assert_eq!(keys, vec![PropKey::Axis, PropKey::Spacing, PropKey::Padding, PropKey::Alignment]);
    assert_eq!(list.get(PropKey::Axis), Some(&PropValue::Axis(Axis::Vertical)));
}

#[test]
fn unset_styles_add_no_properties() {
    assert_eq!(button_props(&plain_button("a")).len(), 0);
    assert_eq!(input_props(&plain_input("a")).len(), 0);
    assert_eq!(container_props(&plain_container()).len(), 1);
    let text = TextWidget { content: "x".to_string(), color: None, font: None };
    assert_eq!(text_props(&text).len(), 0);
}

#[test]
fn text_and_input_fonts_set_size_and_weight() {
    let text = TextWidget {
        content: "x".to_string(),
        color: Some(rgba(1.0, 0.0, 0.0, 1.0)),
        font: Some(FontSpec { size: f(18.0), weight: FontWeight::Bold }),
    };
    let props = text_props(&text);
    assert_eq!(props.len(), 3);
    assert_eq!(props.get(PropKey::FontSize), Some(&PropValue::Float(f(18.0))));
    assert_eq!(props.get(PropKey::FontWeight), Some(&PropValue::FontWeight(FontWeight::Bold)));
}

#[test]
fn images_carry_source_and_fixed_size() {
    let image = ImageWidget {
        source: "cover.png".to_string(),
        width: Some(f(40.0)),
        height: None,
        corner_radius: Some(f(3.0)),
    };
    let props = image_props(&image);
    assert_eq!(props.get(PropKey::Source), Some(&PropValue::String("cover.png".to_string())));
    assert_eq!(props.get(PropKey::Width), Some(&PropValue::Dimension(DimensionValue::Points(f(40.0)))));
    assert_eq!(props.get(PropKey::Height), None);
    assert_eq!(props.get(PropKey::CornerRadius), Some(&PropValue::Float(f(3.0))));
}

#[test]
fn canonicalize_keeps_text_handlers_and_children() {
    let mut button = plain_button("Go");
    button.has_action = true;
    let child = canonicalize(2, Widget::Text(TextWidget { content: "hi".to_string(), color: None, font: None }), Vec::new());
    assert_eq!(child.descriptor, NodeDescriptor::Text);
    assert_eq!(child.text.as_deref(), Some("hi"));

    let node = canonicalize(1, Widget::Button(button), vec![child]);
    assert_eq!(node.id, 1);
    assert_eq!(node.descriptor, NodeDescriptor::Element(ElementKind::Button));
    assert_eq!(node.text.as_deref(), Some("Go"));
    assert!(node.tap_handler);
    assert!(!node.input_handler);
    assert_eq!(node.children.len(), 1);

    let mut input = plain_input("v");
    input.has_focus_change_action = true;
    let node = canonicalize(3, Widget::Input(input), Vec::new());
    assert!(!node.input_handler);
    assert!(node.focus_change_handler);
    assert_eq!(node.text.as_deref(), Some("v"));
}

#[test]
fn unknown_elements_become_plain_stacks_and_lists_get_list_layout() {
    let other = canonicalize(4, Widget::Other, Vec::new());
    assert_eq!(other.descriptor, NodeDescriptor::Element(ElementKind::Stack));
    assert_eq!(other.props.len(), 0);
    assert_eq!(other.text, None);
    let list = canonicalize(5, Widget::List, Vec::new());
    assert_eq!(list.descriptor, NodeDescriptor::Element(ElementKind::List));
    assert_eq!(list.props.len(), 4);
    assert_eq!(descriptor_of(&Widget::Container(plain_container())), NodeDescriptor::Element(ElementKind::Container));
}

#[test]
fn views_of_widgets_canonicalize_by_their_widget() {
    let label = View::new(Widget::Text(TextWidget { content: "hi".to_string(), color: None, font: None }), Vec::new());
    assert_eq!(label.element().name(), "Text");
    let child = canonicalize_view(2, &label, Vec::new());
    assert_eq!(child.id, 2);
    assert_eq!(child.descriptor, NodeDescriptor::Text);
    assert_eq!(child.text.as_deref(), Some("hi"));

    let boxed = View::new(Widget::Container(plain_container()), vec![label]);
    let node = canonicalize_view(1, &boxed, vec![child]);
    assert_eq!(node.descriptor, NodeDescriptor::Element(ElementKind::Container));
    assert_eq!(node.children.len(), 1);

    let fragment = View::fragment(Vec::new());
    let plain = canonicalize_view(3, &fragment, Vec::new());
    assert_eq!(plain.descriptor, NodeDescriptor::Element(ElementKind::Stack));
    assert_eq!(plain.props.len(), 0);
}

#[test]
fn copies_of_widgets_are_equal() {
    let widget = Widget::Button(plain_button("Go"));
    assert_eq!(copy_widget(&widget), widget);
}

struct NamedElement(&'static str);

impl WidgetElement for NamedElement {
    fn name(&self) -> &'static str {
        self.0
    }
}

#[test]
fn an_element_named_list_shows_a_list() {
    let list = View::new(NamedElement("List"), Vec::new());
    let node = canonicalize_view(7, &list, Vec::new());
    assert_eq!(node.descriptor, NodeDescriptor::Element(ElementKind::List));
    let other = View::new(NamedElement("Panel"), Vec::new());
    let node = canonicalize_view(8, &other, Vec::new());
    assert_eq!(node.descriptor, NodeDescriptor::Element(ElementKind::Stack));
}
