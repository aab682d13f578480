//! What the widgets of a view tell the renderer, as plain values, and how each widget
//! becomes a node of the canonical tree: its kind, its text, its properties in the order
//! they are set, and which handlers it carries.

use vstd::prelude::*;
use crate::float32::Fp32;
use crate::layout::{CornerRadii, DimensionValue, EdgeInsets, PointValue, SafeAreaEdges};
use crate::mutation::{
    Alignment, Axis, ColorValue, ElementKind, FontWeight, JustifyContent, LineStyle, PropKey,
    PropValue, ShadowStyle, UiNodeId,
};
use crate::props::{entries_insert, has_key, key_index, keys_distinct, lookup, PropMap};
use crate::vdom::{kids_wf, CanonicalNode, NodeDescriptor};
use crate::view::WidgetElement;

verus! {

/// A font: its size in points and its weight.
#[derive(Clone, Copy, Debug, PartialEq)]
pub struct FontSpec {
    pub size: Fp32,
    pub weight: FontWeight,
}

/// A text label.
#[derive(Clone, Debug, PartialEq)]
pub struct TextWidget {
    pub content: String,
    pub color: Option<ColorValue>,
    pub font: Option<FontSpec>,
}

/// A button.
#[derive(Clone, Debug, PartialEq)]
pub struct ButtonWidget {
    pub label: String,
    pub color: Option<ColorValue>,
    pub background: Option<ColorValue>,
    pub corner_radius: Option<Fp32>,
    pub enabled: bool,
    pub has_action: bool,
}

/// A text input.
#[derive(Clone, Debug, PartialEq)]
pub struct InputWidget {
    pub value: String,
    pub color: Option<ColorValue>,
    pub background: Option<ColorValue>,
    pub font: Option<FontSpec>,
    pub corner_radius: Option<Fp32>,
    pub enabled: bool,
    pub focused: bool,
    pub has_input_action: bool,
    pub has_focus_change_action: bool,
}

/// An image.
#[derive(Clone, Debug, PartialEq)]
pub struct ImageWidget {
    pub source: String,
    pub width: Option<Fp32>,
    pub height: Option<Fp32>,
    pub corner_radius: Option<Fp32>,
}

/// A box around its children.
#[derive(Clone, Copy, Debug, PartialEq)]
pub struct ContainerWidget {
    pub padding: EdgeInsets,
    pub width: Option<Fp32>,
    pub height: Option<Fp32>,
    pub min_width: Option<Fp32>,
    pub min_height: Option<Fp32>,
    pub max_width: Option<Fp32>,
    pub max_height: Option<Fp32>,
    pub background: Option<ColorValue>,
    pub opacity: Option<Fp32>,
    pub border: Option<LineStyle>,
    pub stroke: Option<LineStyle>,
    pub corner_radius: Option<Fp32>,
    pub corner_radii: Option<CornerRadii>,
    pub full_round: bool,
    pub shadow: Option<ShadowStyle>,
    pub offset: Option<PointValue>,
}

/// A horizontal or vertical stack.
#[derive(Clone, Copy, Debug, PartialEq)]
pub struct StackWidget {
    pub axis: Axis,
    pub spacing: Fp32,
    pub padding: EdgeInsets,
    pub alignment: Alignment,
    pub justify_content: JustifyContent,
    pub background: Option<ColorValue>,
}

/// A region inset by the host's safe area.
#[derive(Clone, Copy, Debug, PartialEq)]
pub struct SafeAreaWidget {
    pub edges: SafeAreaEdges,
    pub alignment: Alignment,
    pub justify_content: JustifyContent,
    pub padding: EdgeInsets,
    pub background: Option<ColorValue>,
}

/// The widget a view shows.
#[derive(Clone, Debug, PartialEq)]
pub enum Widget {
    Text(TextWidget),
    Button(ButtonWidget),
    Input(InputWidget),
    Container(ContainerWidget),
    Image(ImageWidget),
    SafeArea(SafeAreaWidget),
    Stack(StackWidget),
    List,
    /// Any other element: laid out as a plain stack.
    Other,
}

/// A copy of `widget`.
pub fn copy_widget(widget: &Widget) -> (r: Widget)
    ensures
        r == *widget,
{
    match widget {
        Widget::Text(t) => Widget::Text(TextWidget { content: t.content.clone(), color: t.color, font: t.font }),
        Widget::Button(b) => Widget::Button(
            ButtonWidget {
                label: b.label.clone(),
                color: b.color,
                background: b.background,
                corner_radius: b.corner_radius,
                enabled: b.enabled,
                has_action: b.has_action,
            },
        ),
        Widget::Input(i) => Widget::Input(
            InputWidget {
                value: i.value.clone(),
                color: i.color,
                background: i.background,
                font: i.font,
                corner_radius: i.corner_radius,
                enabled: i.enabled,
                focused: i.focused,
                has_input_action: i.has_input_action,
                has_focus_change_action: i.has_focus_change_action,
            },
        ),
        Widget::Container(c) => Widget::Container(*c),
        Widget::Image(i) => Widget::Image(
            ImageWidget {
                source: i.source.clone(),
                width: i.width,
                height: i.height,
                corner_radius: i.corner_radius,
            },
        ),
        Widget::SafeArea(a) => Widget::SafeArea(*a),
        Widget::Stack(st) => Widget::Stack(*st),
        Widget::List => Widget::List,
        Widget::Other => Widget::Other,
    }
}

impl WidgetElement for Widget {
    /// The name of the widget's kind; `Element` for any other element.
    fn name(&self) -> (r: &'static str) {
        match self {
            Widget::Text(_) => "Text",
            Widget::Button(_) => "Button",
            Widget::Input(_) => "Input",
            Widget::Container(_) => "Container",
            Widget::Image(_) => "Image",
            Widget::SafeArea(_) => "SafeArea",
            Widget::Stack(_) => "Stack",
            Widget::List => "List",
            Widget::Other => "Element",
        }
    }

    fn widget(self) -> (r: Widget)
        ensures
            r == self,
    {
        self
    }
}

/// `entries` with `key` set to `value` when `value` is present.
pub open spec fn insert_some(
    entries: Seq<(PropKey, PropValue)>,
    key: PropKey,
    value: Option<PropValue>,
) -> Seq<(PropKey, PropValue)> {
    match value {
        Some(v) => entries_insert(entries, key, v),
        None => entries,
    }
}

/// A color as a property value.
pub open spec fn color_prop(c: Option<ColorValue>) -> Option<PropValue> {
    match c {
        Some(c) => Some(PropValue::Color(c)),
        None => None,
    }
}

/// A float as a property value.
pub open spec fn float_prop_value(v: Option<Fp32>) -> Option<PropValue> {
    match v {
        Some(v) => Some(PropValue::Float(v)),
        None => None,
    }
}

/// A length in points as a property value.
pub open spec fn points_prop(v: Option<Fp32>) -> Option<PropValue> {
    match v {
        Some(v) => Some(PropValue::Dimension(DimensionValue::Points(v))),
        None => None,
    }
}

/// `entries` with the font's size and weight set, when there is a font.
pub open spec fn insert_font(entries: Seq<(PropKey, PropValue)>, font: Option<FontSpec>) -> Seq<
    (PropKey, PropValue),
> {
    match font {
        Some(f) => entries_insert(
            entries_insert(entries, PropKey::FontSize, PropValue::Float(f.size)),
            PropKey::FontWeight,
            PropValue::FontWeight(f.weight),
        ),
        None => entries,
    }
}

/// The properties of a text label: its color, then its font.
pub open spec fn text_entries(t: TextWidget) -> Seq<(PropKey, PropValue)> {
    insert_font(insert_some(Seq::empty(), PropKey::Color, color_prop(t.color)), t.font)
}

/// The properties of a button: its color, background and corner radius, then
/// `Enabled = false` when it is disabled.
pub open spec fn button_entries(b: ButtonWidget) -> Seq<(PropKey, PropValue)> {
    let s = insert_some(Seq::empty(), PropKey::Color, color_prop(b.color));
    let s = insert_some(s, PropKey::BackgroundColor, color_prop(b.background));
    let s = insert_some(s, PropKey::CornerRadius, float_prop_value(b.corner_radius));
    if !b.enabled {
        entries_insert(s, PropKey::Enabled, PropValue::Bool(false))
    } else {
        s
    }
}

/// The properties of an image: its source, its fixed width and height, its corner radius.
pub open spec fn image_entries(i: ImageWidget) -> Seq<(PropKey, PropValue)> {
    let s = entries_insert(Seq::empty(), PropKey::Source, PropValue::String(i.source));
    let s = insert_some(s, PropKey::Width, points_prop(i.width));
    let s = insert_some(s, PropKey::Height, points_prop(i.height));
    insert_some(s, PropKey::CornerRadius, float_prop_value(i.corner_radius))
}

/// The properties of a container: its padding, its fixed, least and greatest sizes, then
/// its background, opacity, border, stroke, corner radius and radii, `FullRound` when set,
/// its shadow and its offset.
pub open spec fn container_entries(c: ContainerWidget) -> Seq<(PropKey, PropValue)> {
    let s = entries_insert(Seq::empty(), PropKey::Padding, PropValue::Insets(c.padding));
    let s = insert_some(s, PropKey::Width, points_prop(c.width));
    let s = insert_some(s, PropKey::Height, points_prop(c.height));
    let s = insert_some(s, PropKey::MinWidth, points_prop(c.min_width));
    let s = insert_some(s, PropKey::MinHeight, points_prop(c.min_height));
    let s = insert_some(s, PropKey::MaxWidth, points_prop(c.max_width));
    let s = insert_some(s, PropKey::MaxHeight, points_prop(c.max_height));
    let s = insert_some(s, PropKey::BackgroundColor, color_prop(c.background));
    let s = insert_some(s, PropKey::Opacity, float_prop_value(c.opacity));
    let s = insert_some(
        s,
        PropKey::Border,
        match c.border {
            Some(l) => Some(PropValue::LineStyle(l)),
            None => None,
        },
    );
    let s = insert_some(
        s,
        PropKey::Stroke,
        match c.stroke {
            Some(l) => Some(PropValue::LineStyle(l)),
            None => None,
        },
    );
    let s = insert_some(s, PropKey::CornerRadius, float_prop_value(c.corner_radius));
    let s = insert_some(
        s,
        PropKey::CornerRadii,
        match c.corner_radii {
            Some(r) => Some(PropValue::CornerRadii(r)),
            None => None,
        },
    );
    let s = if c.full_round {
        entries_insert(s, PropKey::FullRound, PropValue::Bool(true))
    } else {
        s
    };
    let s = insert_some(
        s,
        PropKey::Shadow,
        match c.shadow {
            Some(v) => Some(PropValue::Shadow(v)),
            None => None,
        },
    );
    insert_some(
        s,
        PropKey::Offset,
        match c.offset {
            Some(p) => Some(PropValue::Point(p)),
            None => None,
        },
    )
}

/// The properties of a text input: its color, background, font and corner radius, then
/// `Enabled = false` when disabled and `Focused = true` when focused.
pub open spec fn input_entries(i: InputWidget) -> Seq<(PropKey, PropValue)> {
    let s = insert_some(Seq::empty(), PropKey::Color, color_prop(i.color));
    let s = insert_some(s, PropKey::BackgroundColor, color_prop(i.background));
    let s = insert_font(s, i.font);
    let s = insert_some(s, PropKey::CornerRadius, float_prop_value(i.corner_radius));
    let s = if !i.enabled {
        entries_insert(s, PropKey::Enabled, PropValue::Bool(false))
    } else {
        s
    };
    if i.focused {
        entries_insert(s, PropKey::Focused, PropValue::Bool(true))
    } else {
        s
    }
}

/// The properties of a stack: its axis, spacing, padding, alignment and justification,
/// then its background.
pub open spec fn stack_entries(st: StackWidget) -> Seq<(PropKey, PropValue)> {
    let s = entries_insert(Seq::empty(), PropKey::Axis, PropValue::Axis(st.axis));
    let s = entries_insert(s, PropKey::Spacing, PropValue::Float(st.spacing));
    let s = entries_insert(s, PropKey::Padding, PropValue::Insets(st.padding));
    let s = entries_insert(s, PropKey::Alignment, PropValue::Alignment(st.alignment));
    let s = entries_insert(s, PropKey::JustifyContent, PropValue::JustifyContent(st.justify_content));
    insert_some(s, PropKey::BackgroundColor, color_prop(st.background))
}

/// The properties of a safe area: its edges, alignment, justification and padding, then
/// its background.
pub open spec fn safe_area_entries(a: SafeAreaWidget) -> Seq<(PropKey, PropValue)> {
    let s = entries_insert(Seq::empty(), PropKey::SafeAreaEdges, PropValue::SafeAreaEdges(a.edges));
    let s = entries_insert(s, PropKey::Alignment, PropValue::Alignment(a.alignment));
    let s = entries_insert(s, PropKey::JustifyContent, PropValue::JustifyContent(a.justify_content));
    let s = entries_insert(s, PropKey::Padding, PropValue::Insets(a.padding));
    insert_some(s, PropKey::BackgroundColor, color_prop(a.background))
}

/// The properties of a list: a vertical, unspaced, unpadded, leading layout.
pub open spec fn list_entries() -> Seq<(PropKey, PropValue)> {
    let zero = Fp32 { bits: 0 };
    let s = entries_insert(Seq::empty(), PropKey::Axis, PropValue::Axis(Axis::Vertical));
    let s = entries_insert(s, PropKey::Spacing, PropValue::Float(zero));
    let s = entries_insert(
        s,
        PropKey::Padding,
        PropValue::Insets(EdgeInsets { top: zero, right: zero, bottom: zero, left: zero }),
    );
    entries_insert(s, PropKey::Alignment, PropValue::Alignment(Alignment::Leading))
}

/// Sets `key` to `value` in `props` when `value` is present.
fn set_some(props: &mut PropMap, key: PropKey, value: Option<PropValue>)
    requires
        old(props).wf(),
    ensures
        final(props).wf(),
        final(props)@ == insert_some(old(props)@, key, value),
{
    match value {
        Some(v) => props.insert(key, v),
        None => {},
    }
}

/// Sets the font's size and weight in `props`, when there is a font.
fn set_font(props: &mut PropMap, font: Option<FontSpec>)
    requires
        old(props).wf(),
    ensures
        final(props).wf(),
        final(props)@ == insert_font(old(props)@, font),
{
    match font {
        Some(f) => {
            props.insert(PropKey::FontSize, PropValue::Float(f.size));
            props.insert(PropKey::FontWeight, PropValue::FontWeight(f.weight));
        },
        None => {},
    }
}

fn color_value(c: Option<ColorValue>) -> (r: Option<PropValue>)
    ensures
        r == color_prop(c),
{
    match c {
        Some(c) => Some(PropValue::Color(c)),
        None => None,
    }
}

fn float_value(v: Option<Fp32>) -> (r: Option<PropValue>)
    ensures
        r == float_prop_value(v),
{
    match v {
        Some(v) => Some(PropValue::Float(v)),
        None => None,
    }
}

fn points_value(v: Option<Fp32>) -> (r: Option<PropValue>)
    ensures
        r == points_prop(v),
{
    match v {
        Some(v) => Some(PropValue::Dimension(DimensionValue::Points(v))),
        None => None,
    }
}

/// The properties of a text label.
pub fn text_props(text: &TextWidget) -> (r: PropMap)
    ensures
        r.wf(),
        r@ == text_entries(*text),
{
    let mut props = PropMap::new();
    set_some(&mut props, PropKey::Color, color_value(text.color));
    set_font(&mut props, text.font);
    props
}

/// The properties of a button.
pub fn button_props(button: &ButtonWidget) -> (r: PropMap)
    ensures
        r.wf(),
        r@ == button_entries(*button),
{
    let mut props = PropMap::new();
    set_some(&mut props, PropKey::Color, color_value(button.color));
    set_some(&mut props, PropKey::BackgroundColor, color_value(button.background));
    set_some(&mut props, PropKey::CornerRadius, float_value(button.corner_radius));
    if !button.enabled {
        props.insert(PropKey::Enabled, PropValue::Bool(false));
    }
    props
}

/// The properties of an image.
pub fn image_props(image: &ImageWidget) -> (r: PropMap)
    ensures
        r.wf(),
        r@ == image_entries(*image),
{
    let mut props = PropMap::new();
    props.insert(PropKey::Source, PropValue::String(image.source.clone()));
    set_some(&mut props, PropKey::Width, points_value(image.width));
    set_some(&mut props, PropKey::Height, points_value(image.height));
    set_some(&mut props, PropKey::CornerRadius, float_value(image.corner_radius));
    props
}

/// The properties of a container.
pub fn container_props(container: &ContainerWidget) -> (r: PropMap)
    ensures
        r.wf(),
        r@ == container_entries(*container),
{
    let mut props = PropMap::new();
    props.insert(PropKey::Padding, PropValue::Insets(container.padding));
    set_some(&mut props, PropKey::Width, points_value(container.width));
    set_some(&mut props, PropKey::Height, points_value(container.height));
    set_some(&mut props, PropKey::MinWidth, points_value(container.min_width));
    set_some(&mut props, PropKey::MinHeight, points_value(container.min_height));
    set_some(&mut props, PropKey::MaxWidth, points_value(container.max_width));
    set_some(&mut props, PropKey::MaxHeight, points_value(container.max_height));
    set_some(&mut props, PropKey::BackgroundColor, color_value(container.background));
    set_some(&mut props, PropKey::Opacity, float_value(container.opacity));
    let border = match container.border {
        Some(l) => Some(PropValue::LineStyle(l)),
        None => None,
    };
    set_some(&mut props, PropKey::Border, border);
    let stroke = match container.stroke {
        Some(l) => Some(PropValue::LineStyle(l)),
        None => None,
    };
    set_some(&mut props, PropKey::Stroke, stroke);
    set_some(&mut props, PropKey::CornerRadius, float_value(container.corner_radius));
    let radii = match container.corner_radii {
        Some(r) => Some(PropValue::CornerRadii(r)),
        None => None,
    };
    set_some(&mut props, PropKey::CornerRadii, radii);
    if container.full_round {
        props.insert(PropKey::FullRound, PropValue::Bool(true));
    }
    let shadow = match container.shadow {
        Some(v) => Some(PropValue::Shadow(v)),
        None => None,
    };
    set_some(&mut props, PropKey::Shadow, shadow);
    let offset = match container.offset {
        Some(p) => Some(PropValue::Point(p)),
        None => None,
    };
    set_some(&mut props, PropKey::Offset, offset);
    props
}

/// The properties of a text input.
pub fn input_props(input: &InputWidget) -> (r: PropMap)
    ensures
        r.wf(),
        r@ == input_entries(*input),
{
    let mut props = PropMap::new();
    set_some(&mut props, PropKey::Color, color_value(input.color));
    set_some(&mut props, PropKey::BackgroundColor, color_value(input.background));
    set_font(&mut props, input.font);
    set_some(&mut props, PropKey::CornerRadius, float_value(input.corner_radius));
    if !input.enabled {
        props.insert(PropKey::Enabled, PropValue::Bool(false));
    }
    if input.focused {
        props.insert(PropKey::Focused, PropValue::Bool(true));
    }
    props
}

/// The properties of a stack.
pub fn stack_props(stack: &StackWidget) -> (r: PropMap)
    ensures
        r.wf(),
        r@ == stack_entries(*stack),
{
    let mut props = PropMap::new();
    props.insert(PropKey::Axis, PropValue::Axis(stack.axis));
    props.insert(PropKey::Spacing, PropValue::Float(stack.spacing));
    props.insert(PropKey::Padding, PropValue::Insets(stack.padding));
    props.insert(PropKey::Alignment, PropValue::Alignment(stack.alignment));
    props.insert(PropKey::JustifyContent, PropValue::JustifyContent(stack.justify_content));
    set_some(&mut props, PropKey::BackgroundColor, color_value(stack.background));
    props
}

/// The properties of a safe area.
pub fn safe_area_props(safe_area: &SafeAreaWidget) -> (r: PropMap)
    ensures
        r.wf(),
        r@ == safe_area_entries(*safe_area),
{
    let mut props = PropMap::new();
    props.insert(PropKey::SafeAreaEdges, PropValue::SafeAreaEdges(safe_area.edges));
    props.insert(PropKey::Alignment, PropValue::Alignment(safe_area.alignment));
    props.insert(PropKey::JustifyContent, PropValue::JustifyContent(safe_area.justify_content));
    props.insert(PropKey::Padding, PropValue::Insets(safe_area.padding));
    set_some(&mut props, PropKey::BackgroundColor, color_value(safe_area.background));
    props
}

/// The properties of a list.
pub fn list_props() -> (r: PropMap)
    ensures
        r.wf(),
        r@ == list_entries(),
{
    let zero = Fp32::zero();
    let mut props = PropMap::new();
    props.insert(PropKey::Axis, PropValue::Axis(Axis::Vertical));
    props.insert(PropKey::Spacing, PropValue::Float(zero));
    props.insert(PropKey::Padding, PropValue::Insets(EdgeInsets::all(zero)));
    props.insert(PropKey::Alignment, PropValue::Alignment(Alignment::Leading));
    props
}

/// The kind of node a widget becomes; any other element is laid out as a stack.
pub open spec fn spec_descriptor_of(widget: Widget) -> NodeDescriptor {
    match widget {
        Widget::Text(_) => NodeDescriptor::Text,
        Widget::Button(_) => NodeDescriptor::Element(ElementKind::Button),
        Widget::Input(_) => NodeDescriptor::Element(ElementKind::Input),
        Widget::Container(_) => NodeDescriptor::Element(ElementKind::Container),
        Widget::Image(_) => NodeDescriptor::Element(ElementKind::Image),
        Widget::SafeArea(_) => NodeDescriptor::Element(ElementKind::SafeArea),
        Widget::Stack(_) => NodeDescriptor::Element(ElementKind::Stack),
        Widget::List => NodeDescriptor::Element(ElementKind::List),
        Widget::Other => NodeDescriptor::Element(ElementKind::Stack),
    }
}

/// The kind of node `widget` becomes.
pub fn descriptor_of(widget: &Widget) -> (r: NodeDescriptor)
    ensures
        r == spec_descriptor_of(*widget),
{
    match widget {
        Widget::Text(_) => NodeDescriptor::Text,
        Widget::Button(_) => NodeDescriptor::Element(ElementKind::Button),
        Widget::Input(_) => NodeDescriptor::Element(ElementKind::Input),
        Widget::Container(_) => NodeDescriptor::Element(ElementKind::Container),
        Widget::Image(_) => NodeDescriptor::Element(ElementKind::Image),
        Widget::SafeArea(_) => NodeDescriptor::Element(ElementKind::SafeArea),
        Widget::Stack(_) => NodeDescriptor::Element(ElementKind::Stack),
        Widget::List => NodeDescriptor::Element(ElementKind::List),
        Widget::Other => NodeDescriptor::Element(ElementKind::Stack),
    }
}

/// The properties of the node a widget becomes; none for an unknown element.
pub open spec fn widget_entries(widget: Widget) -> Seq<(PropKey, PropValue)> {
    match widget {
        Widget::Text(t) => text_entries(t),
        Widget::Button(b) => button_entries(b),
        Widget::Input(i) => input_entries(i),
        Widget::Container(c) => container_entries(c),
        Widget::Image(i) => image_entries(i),
        Widget::SafeArea(a) => safe_area_entries(a),
        Widget::Stack(st) => stack_entries(st),
        Widget::List => list_entries(),
        Widget::Other => Seq::empty(),
    }
}

/// The node of the canonical tree that shows `widget` under the id `id`, above
/// `children`: a label keeps its content, a button its label and an input its value as
/// text; a button with an action carries a tap handler, and an input its input and focus
/// handlers when it has those actions.
pub fn canonicalize(id: UiNodeId, widget: Widget, children: Vec<CanonicalNode>) -> (r: CanonicalNode)
    ensures
        r.id == id,
        r.descriptor == spec_descriptor_of(widget),
        r.props.wf(),
        r.props@ == widget_entries(widget),
        r.text == match widget {
            Widget::Text(t) => Some(t.content),
            Widget::Button(b) => Some(b.label),
            Widget::Input(i) => Some(i.value),
            _ => None::<String>,
        },
        r.tap_handler == (widget matches Widget::Button(b) && b.has_action),
        r.input_handler == (widget matches Widget::Input(i) && i.has_input_action),
        r.focus_change_handler == (widget matches Widget::Input(i) && i.has_focus_change_action),
        r.children == children,
        kids_wf(children@, children@.len() as int) ==> r.wf(),
{
    let descriptor = descriptor_of(&widget);
    match widget {
        Widget::Text(t) => {
            let props = text_props(&t);
            CanonicalNode {
                id,
                descriptor,
                props,
                text: Some(t.content),
                tap_handler: false,
                input_handler: false,
                focus_change_handler: false,
                children,
            }
        },
        Widget::Button(b) => {
            let props = button_props(&b);
            CanonicalNode {
                id,
                descriptor,
                props,
                text: Some(b.label),
                tap_handler: b.has_action,
                input_handler: false,
                focus_change_handler: false,
                children,
            }
        },
        Widget::Input(i) => {
            let props = input_props(&i);
            CanonicalNode {
                id,
                descriptor,
                props,
                text: Some(i.value),
                tap_handler: false,
                input_handler: i.has_input_action,
                focus_change_handler: i.has_focus_change_action,
                children,
            }
        },
        Widget::Container(c) => CanonicalNode {
            id,
            descriptor,
            props: container_props(&c),
            text: None,
            tap_handler: false,
            input_handler: false,
            focus_change_handler: false,
            children,
        },
        Widget::Image(i) => CanonicalNode {
            id,
            descriptor,
            props: image_props(&i),
            text: None,
            tap_handler: false,
            input_handler: false,
            focus_change_handler: false,
            children,
        },
        Widget::SafeArea(a) => CanonicalNode {
            id,
            descriptor,
            props: safe_area_props(&a),
            text: None,
            tap_handler: false,
            input_handler: false,
            focus_change_handler: false,
            children,
        },
        Widget::Stack(st) => CanonicalNode {
            id,
            descriptor,
            props: stack_props(&st),
            text: None,
            tap_handler: false,
            input_handler: false,
            focus_change_handler: false,
            children,
        },
        Widget::List => CanonicalNode {
            id,
            descriptor,
            props: list_props(),
            text: None,
            tap_handler: false,
            input_handler: false,
            focus_change_handler: false,
            children,
        },
        Widget::Other => CanonicalNode {
            id,
            descriptor,
            props: PropMap::new(),
            text: None,
            tap_handler: false,
            input_handler: false,
            focus_change_handler: false,
            children,
        },
    }
}

/// In entries where `k` occurs only at `i`, looking `k` up gives the value at `i`.
pub proof fn lemma_lookup_at(e: Seq<(PropKey, PropValue)>, k: PropKey, i: int)
    requires
        0 <= i < e.len(),
        e[i].0 == k,
        forall|j: int| 0 <= j < e.len() && j != i ==> e[j].0 != k,
    ensures
        lookup(e, k) == Some(e[i].1),
{
    assert(has_key(e, k));
    let j = key_index(e, k);
    assert(0 <= j < e.len() && e[j].0 == k);
}

/// A stack's properties carry its own axis, spacing, padding, alignment and
/// justification, each under its key, and its background color when it has one.
pub proof fn lemma_stack_props_follow_the_widget(st: StackWidget)
    ensures
        lookup(stack_entries(st), PropKey::Axis) == Some(PropValue::Axis(st.axis)),
        lookup(stack_entries(st), PropKey::Spacing) == Some(PropValue::Float(st.spacing)),
        lookup(stack_entries(st), PropKey::Padding) == Some(PropValue::Insets(st.padding)),
        lookup(stack_entries(st), PropKey::Alignment) == Some(PropValue::Alignment(st.alignment)),
        lookup(stack_entries(st), PropKey::JustifyContent) == Some(
            PropValue::JustifyContent(st.justify_content),
        ),
        lookup(stack_entries(st), PropKey::BackgroundColor) == color_prop(st.background),
        stack_entries(st).len() == if st.background is Some {
            6int
        } else {
            5int
        },
{
    let v0 = (PropKey::Axis, PropValue::Axis(st.axis));
    let v1 = (PropKey::Spacing, PropValue::Float(st.spacing));
    let v2 = (PropKey::Padding, PropValue::Insets(st.padding));
    let v3 = (PropKey::Alignment, PropValue::Alignment(st.alignment));
    let v4 = (PropKey::JustifyContent, PropValue::JustifyContent(st.justify_content));
    let e0 = Seq::<(PropKey, PropValue)>::empty();
    assert(!has_key(e0, PropKey::Axis));
    let s1 = entries_insert(e0, PropKey::Axis, v0.1);
    assert(s1 =~= seq![v0]);
    assert(!has_key(s1, PropKey::Spacing));
    let s2 = entries_insert(s1, PropKey::Spacing, v1.1);
    assert(s2 =~= seq![v0, v1]);
    assert(!has_key(s2, PropKey::Padding));
    let s3 = entries_insert(s2, PropKey::Padding, v2.1);
    assert(s3 =~= seq![v0, v1, v2]);
    assert(!has_key(s3, PropKey::Alignment));
    let s4 = entries_insert(s3, PropKey::Alignment, v3.1);
    assert(s4 =~= seq![v0, v1, v2, v3]);
    assert(!has_key(s4, PropKey::JustifyContent));
    let s5 = entries_insert(s4, PropKey::JustifyContent, v4.1);
    assert(s5 =~= seq![v0, v1, v2, v3, v4]);
    assert(!has_key(s5, PropKey::BackgroundColor));
    let e = stack_entries(st);
    match st.background {
        Some(c) => {
            let v5 = (PropKey::BackgroundColor, PropValue::Color(c));
            assert(e =~= seq![v0, v1, v2, v3, v4, v5]);
            lemma_lookup_at(e, PropKey::BackgroundColor, 5);
        },
        None => {
            assert(e =~= s5);
        },
    }
    lemma_lookup_at(e, PropKey::Axis, 0);
    lemma_lookup_at(e, PropKey::Spacing, 1);
    lemma_lookup_at(e, PropKey::Padding, 2);
    lemma_lookup_at(e, PropKey::Alignment, 3);
    lemma_lookup_at(e, PropKey::JustifyContent, 4);
}

/// Setting `k` to `v` in entries with distinct keys keeps the keys distinct, makes `k`
/// give `v`, and leaves what every other key gives.
pub proof fn lemma_insert_then_lookup(e: Seq<(PropKey, PropValue)>, k: PropKey, v: PropValue)
    requires
        keys_distinct(e),
    ensures
        keys_distinct(entries_insert(e, k, v)),
        lookup(entries_insert(e, k, v), k) == Some(v),
        forall|k2: PropKey| k2 != k ==> #[trigger] lookup(entries_insert(e, k, v), k2) == lookup(e, k2),
{
    let n = entries_insert(e, k, v);
    if has_key(e, k) {
        let i = key_index(e, k);
        assert(0 <= i < e.len() && e[i].0 == k);
        assert(n == e.update(i, (k, v)));
        assert forall|a: int, b: int| 0 <= a < n.len() && 0 <= b < n.len() && a != b implies n[a].0
            != n[b].0 by {}
        lemma_lookup_at(n, k, i);
    } else {
        assert(n == e.push((k, v)));
        assert forall|a: int, b: int| 0 <= a < n.len() && 0 <= b < n.len() && a != b implies n[a].0
            != n[b].0 by {
            if a == e.len() as int {
                assert(!(0 <= b < e.len() && e[b].0 == k));
            } else if b == e.len() as int {
                assert(!(0 <= a < e.len() && e[a].0 == k));
            }
        }
        lemma_lookup_at(n, k, e.len() as int);
    }
    assert forall|k2: PropKey| k2 != k implies #[trigger] lookup(n, k2) == lookup(e, k2) by {
        if has_key(e, k2) {
            let j = key_index(e, k2);
            assert(0 <= j < e.len() && e[j].0 == k2);
            lemma_lookup_at(e, k2, j);
            assert(n[j] == e[j]);
            lemma_lookup_at(n, k2, j);
        } else {
            if has_key(n, k2) {
                let j = choose|j: int| 0 <= j < n.len() && n[j].0 == k2;
                if j < e.len() {
                    assert(n[j] == e[j] || n[j].0 == k);
                }
            }
        }
    }
}

/// `insert_some` sets `k` when a value is given and leaves every other key.
pub proof fn lemma_insert_some_then_lookup(e: Seq<(PropKey, PropValue)>, k: PropKey, o: Option<PropValue>)
    requires
        keys_distinct(e),
    ensures
        keys_distinct(insert_some(e, k, o)),
        lookup(insert_some(e, k, o), k) == match o {
            Some(v) => Some(v),
            None => lookup(e, k),
        },
        forall|k2: PropKey| k2 != k ==> #[trigger] lookup(insert_some(e, k, o), k2) == lookup(e, k2),
{
    match o {
        Some(v) => lemma_insert_then_lookup(e, k, v),
        None => {},
    }
}

/// No key gives anything in empty entries.
pub proof fn lemma_lookup_empty(k: PropKey)
    ensures
        keys_distinct(Seq::<(PropKey, PropValue)>::empty()),
        lookup(Seq::<(PropKey, PropValue)>::empty(), k) is None,
{
}

/// A label's properties carry its own color and font, and nothing else.
pub proof fn lemma_text_props_follow_the_widget(t: TextWidget)
    ensures
        lookup(text_entries(t), PropKey::Color) == color_prop(t.color),
        lookup(text_entries(t), PropKey::FontSize) == match t.font {
            Some(f) => Some(PropValue::Float(f.size)),
            None => None::<PropValue>,
        },
        lookup(text_entries(t), PropKey::FontWeight) == match t.font {
            Some(f) => Some(PropValue::FontWeight(f.weight)),
            None => None::<PropValue>,
        },
{
    let e0 = Seq::<(PropKey, PropValue)>::empty();
    lemma_lookup_empty(PropKey::Color);
    lemma_lookup_empty(PropKey::FontSize);
    lemma_lookup_empty(PropKey::FontWeight);
    let s1 = insert_some(e0, PropKey::Color, color_prop(t.color));
    lemma_insert_some_then_lookup(e0, PropKey::Color, color_prop(t.color));
    match t.font {
        Some(f) => {
            let s2 = entries_insert(s1, PropKey::FontSize, PropValue::Float(f.size));
            lemma_insert_then_lookup(s1, PropKey::FontSize, PropValue::Float(f.size));
            lemma_insert_then_lookup(s2, PropKey::FontWeight, PropValue::FontWeight(f.weight));
        },
        None => {},
    }
}

/// A button's properties carry its own color, background and corner radius, and
/// `Enabled = false` exactly when it is disabled.
pub proof fn lemma_button_props_follow_the_widget(b: ButtonWidget)
    ensures
        lookup(button_entries(b), PropKey::Color) == color_prop(b.color),
        lookup(button_entries(b), PropKey::BackgroundColor) == color_prop(b.background),
        lookup(button_entries(b), PropKey::CornerRadius) == float_prop_value(b.corner_radius),
        lookup(button_entries(b), PropKey::Enabled) == if b.enabled {
            None::<PropValue>
        } else {
            Some(PropValue::Bool(false))
        },
{
    let e0 = Seq::<(PropKey, PropValue)>::empty();
    lemma_lookup_empty(PropKey::Color);
    lemma_lookup_empty(PropKey::BackgroundColor);
    lemma_lookup_empty(PropKey::CornerRadius);
    lemma_lookup_empty(PropKey::Enabled);
    let s1 = insert_some(e0, PropKey::Color, color_prop(b.color));
    lemma_insert_some_then_lookup(e0, PropKey::Color, color_prop(b.color));
    let s2 = insert_some(s1, PropKey::BackgroundColor, color_prop(b.background));
    lemma_insert_some_then_lookup(s1, PropKey::BackgroundColor, color_prop(b.background));
    let s3 = insert_some(s2, PropKey::CornerRadius, float_prop_value(b.corner_radius));
    lemma_insert_some_then_lookup(s2, PropKey::CornerRadius, float_prop_value(b.corner_radius));
    if !b.enabled {
        lemma_insert_then_lookup(s3, PropKey::Enabled, PropValue::Bool(false));
    }
}

/// An image's properties carry its own source, width, height and corner radius.
pub proof fn lemma_image_props_follow_the_widget(i: ImageWidget)
    ensures
        lookup(image_entries(i), PropKey::Source) == Some(PropValue::String(i.source)),
        lookup(image_entries(i), PropKey::Width) == points_prop(i.width),
        lookup(image_entries(i), PropKey::Height) == points_prop(i.height),
        lookup(image_entries(i), PropKey::CornerRadius) == float_prop_value(i.corner_radius),
{
    let e0 = Seq::<(PropKey, PropValue)>::empty();
    lemma_lookup_empty(PropKey::Width);
    lemma_lookup_empty(PropKey::Height);
    lemma_lookup_empty(PropKey::CornerRadius);
    let s1 = entries_insert(e0, PropKey::Source, PropValue::String(i.source));
    lemma_insert_then_lookup(e0, PropKey::Source, PropValue::String(i.source));
    let s2 = insert_some(s1, PropKey::Width, points_prop(i.width));
    lemma_insert_some_then_lookup(s1, PropKey::Width, points_prop(i.width));
    let s3 = insert_some(s2, PropKey::Height, points_prop(i.height));
    lemma_insert_some_then_lookup(s2, PropKey::Height, points_prop(i.height));
    lemma_insert_some_then_lookup(s3, PropKey::CornerRadius, float_prop_value(i.corner_radius));
}

/// A safe area's properties carry its own edges, alignment, justification, padding and
/// background.
pub proof fn lemma_safe_area_props_follow_the_widget(a: SafeAreaWidget)
    ensures
        lookup(safe_area_entries(a), PropKey::SafeAreaEdges) == Some(PropValue::SafeAreaEdges(a.edges)),
        lookup(safe_area_entries(a), PropKey::Alignment) == Some(PropValue::Alignment(a.alignment)),
        lookup(safe_area_entries(a), PropKey::JustifyContent) == Some(
            PropValue::JustifyContent(a.justify_content),
        ),
        lookup(safe_area_entries(a), PropKey::Padding) == Some(PropValue::Insets(a.padding)),
        lookup(safe_area_entries(a), PropKey::BackgroundColor) == color_prop(a.background),
{
    let e0 = Seq::<(PropKey, PropValue)>::empty();
    lemma_lookup_empty(PropKey::BackgroundColor);
    let s1 = entries_insert(e0, PropKey::SafeAreaEdges, PropValue::SafeAreaEdges(a.edges));
    lemma_insert_then_lookup(e0, PropKey::SafeAreaEdges, PropValue::SafeAreaEdges(a.edges));
    let s2 = entries_insert(s1, PropKey::Alignment, PropValue::Alignment(a.alignment));
    lemma_insert_then_lookup(s1, PropKey::Alignment, PropValue::Alignment(a.alignment));
    let s3 = entries_insert(s2, PropKey::JustifyContent, PropValue::JustifyContent(a.justify_content));
    lemma_insert_then_lookup(s2, PropKey::JustifyContent, PropValue::JustifyContent(a.justify_content));
    let s4 = entries_insert(s3, PropKey::Padding, PropValue::Insets(a.padding));
    lemma_insert_then_lookup(s3, PropKey::Padding, PropValue::Insets(a.padding));
    lemma_insert_some_then_lookup(s4, PropKey::BackgroundColor, color_prop(a.background));
}

/// `insert_font` sets the font's size and weight when there is a font, and leaves every
/// other key.
pub proof fn lemma_insert_font_then_lookup(e: Seq<(PropKey, PropValue)>, font: Option<FontSpec>)
    requires
        keys_distinct(e),
    ensures
        keys_distinct(insert_font(e, font)),
        lookup(insert_font(e, font), PropKey::FontSize) == match font {
            Some(f) => Some(PropValue::Float(f.size)),
            None => lookup(e, PropKey::FontSize),
        },
        lookup(insert_font(e, font), PropKey::FontWeight) == match font {
            Some(f) => Some(PropValue::FontWeight(f.weight)),
            None => lookup(e, PropKey::FontWeight),
        },
        forall|k2: PropKey|
            k2 != PropKey::FontSize && k2 != PropKey::FontWeight ==> #[trigger] lookup(
                insert_font(e, font),
                k2,
            ) == lookup(e, k2),
{
    match font {
        Some(f) => {
            let s1 = entries_insert(e, PropKey::FontSize, PropValue::Float(f.size));
            lemma_insert_then_lookup(e, PropKey::FontSize, PropValue::Float(f.size));
            lemma_insert_then_lookup(s1, PropKey::FontWeight, PropValue::FontWeight(f.weight));
        },
        None => {},
    }
}

/// An input's properties carry its own color, background, font and corner radius,
/// `Enabled = false` exactly when it is disabled and `Focused = true` exactly when it is
/// focused.
pub proof fn lemma_input_props_follow_the_widget(i: InputWidget)
    ensures
        lookup(input_entries(i), PropKey::Color) == color_prop(i.color),
        lookup(input_entries(i), PropKey::BackgroundColor) == color_prop(i.background),
        lookup(input_entries(i), PropKey::FontSize) == match i.font {
            Some(f) => Some(PropValue::Float(f.size)),
            None => None::<PropValue>,
        },
        lookup(input_entries(i), PropKey::FontWeight) == match i.font {
            Some(f) => Some(PropValue::FontWeight(f.weight)),
            None => None::<PropValue>,
        },
        lookup(input_entries(i), PropKey::CornerRadius) == float_prop_value(i.corner_radius),
        lookup(input_entries(i), PropKey::Enabled) == if i.enabled {
            None::<PropValue>
        } else {
            Some(PropValue::Bool(false))
        },
        lookup(input_entries(i), PropKey::Focused) == if i.focused {
            Some(PropValue::Bool(true))
        } else {
            None::<PropValue>
        },
{
    let e0 = Seq::<(PropKey, PropValue)>::empty();
    lemma_lookup_empty(PropKey::Color);
    lemma_lookup_empty(PropKey::BackgroundColor);
    lemma_lookup_empty(PropKey::FontSize);
    lemma_lookup_empty(PropKey::FontWeight);
    lemma_lookup_empty(PropKey::CornerRadius);
    lemma_lookup_empty(PropKey::Enabled);
    lemma_lookup_empty(PropKey::Focused);
    let s1 = insert_some(e0, PropKey::Color, color_prop(i.color));
    lemma_insert_some_then_lookup(e0, PropKey::Color, color_prop(i.color));
    let s2 = insert_some(s1, PropKey::BackgroundColor, color_prop(i.background));
    lemma_insert_some_then_lookup(s1, PropKey::BackgroundColor, color_prop(i.background));
    let s3 = insert_font(s2, i.font);
    lemma_insert_font_then_lookup(s2, i.font);
    let s4 = insert_some(s3, PropKey::CornerRadius, float_prop_value(i.corner_radius));
    lemma_insert_some_then_lookup(s3, PropKey::CornerRadius, float_prop_value(i.corner_radius));
    let s5 = if !i.enabled {
        entries_insert(s4, PropKey::Enabled, PropValue::Bool(false))
    } else {
        s4
    };
    if !i.enabled {
        lemma_insert_then_lookup(s4, PropKey::Enabled, PropValue::Bool(false));
    }
    if i.focused {
        lemma_insert_then_lookup(s5, PropKey::Focused, PropValue::Bool(true));
    }
}

/// A line style as a property value.
pub open spec fn line_prop(l: Option<LineStyle>) -> Option<PropValue> {
    match l {
        Some(l) => Some(PropValue::LineStyle(l)),
        None => None,
    }
}

/// Corner radii as a property value.
pub open spec fn radii_prop(r: Option<CornerRadii>) -> Option<PropValue> {
    match r {
        Some(r) => Some(PropValue::CornerRadii(r)),
        None => None,
    }
}

/// A shadow as a property value.
pub open spec fn shadow_prop(v: Option<ShadowStyle>) -> Option<PropValue> {
    match v {
        Some(v) => Some(PropValue::Shadow(v)),
        None => None,
    }
}

/// An offset as a property value.
pub open spec fn offset_prop(p: Option<PointValue>) -> Option<PropValue> {
    match p {
        Some(p) => Some(PropValue::Point(p)),
        None => None,
    }
}

/// A container's properties carry its own padding, sizes, background, opacity, border,
/// stroke, corners, shadow and offset, and `FullRound = true` exactly when it is fully
/// rounded.
#[verifier::rlimit(40)]
pub proof fn lemma_container_props_follow_the_widget(c: ContainerWidget)
    ensures
        lookup(container_entries(c), PropKey::Padding) == Some(PropValue::Insets(c.padding)),
        lookup(container_entries(c), PropKey::Width) == points_prop(c.width),
        lookup(container_entries(c), PropKey::Height) == points_prop(c.height),
        lookup(container_entries(c), PropKey::MinWidth) == points_prop(c.min_width),
        lookup(container_entries(c), PropKey::MinHeight) == points_prop(c.min_height),
        lookup(container_entries(c), PropKey::MaxWidth) == points_prop(c.max_width),
        lookup(container_entries(c), PropKey::MaxHeight) == points_prop(c.max_height),
        lookup(container_entries(c), PropKey::BackgroundColor) == color_prop(c.background),
        lookup(container_entries(c), PropKey::Opacity) == float_prop_value(c.opacity),
        lookup(container_entries(c), PropKey::Border) == line_prop(c.border),
        lookup(container_entries(c), PropKey::Stroke) == line_prop(c.stroke),
        lookup(container_entries(c), PropKey::CornerRadius) == float_prop_value(c.corner_radius),
        lookup(container_entries(c), PropKey::CornerRadii) == radii_prop(c.corner_radii),
        lookup(container_entries(c), PropKey::Shadow) == shadow_prop(c.shadow),
        lookup(container_entries(c), PropKey::Offset) == offset_prop(c.offset),
        lookup(container_entries(c), PropKey::FullRound) == if c.full_round {
            Some(PropValue::Bool(true))
        } else {
            None::<PropValue>
        },
{
    let e0 = Seq::<(PropKey, PropValue)>::empty();
    lemma_lookup_empty(PropKey::Width);
    lemma_lookup_empty(PropKey::Height);
    lemma_lookup_empty(PropKey::MinWidth);
    lemma_lookup_empty(PropKey::MinHeight);
    lemma_lookup_empty(PropKey::MaxWidth);
    lemma_lookup_empty(PropKey::MaxHeight);
    lemma_lookup_empty(PropKey::BackgroundColor);
    lemma_lookup_empty(PropKey::Opacity);
    lemma_lookup_empty(PropKey::Border);
    lemma_lookup_empty(PropKey::Stroke);
    lemma_lookup_empty(PropKey::CornerRadius);
    lemma_lookup_empty(PropKey::CornerRadii);
    lemma_lookup_empty(PropKey::Shadow);
    lemma_lookup_empty(PropKey::Offset);
    lemma_lookup_empty(PropKey::FullRound);
    let s0 = entries_insert(e0, PropKey::Padding, PropValue::Insets(c.padding));
    lemma_insert_then_lookup(e0, PropKey::Padding, PropValue::Insets(c.padding));
    let s1 = insert_some(s0, PropKey::Width, points_prop(c.width));
    lemma_insert_some_then_lookup(s0, PropKey::Width, points_prop(c.width));
    let s2 = insert_some(s1, PropKey::Height, points_prop(c.height));
    lemma_insert_some_then_lookup(s1, PropKey::Height, points_prop(c.height));
    let s3 = insert_some(s2, PropKey::MinWidth, points_prop(c.min_width));
    lemma_insert_some_then_lookup(s2, PropKey::MinWidth, points_prop(c.min_width));
    let s4 = insert_some(s3, PropKey::MinHeight, points_prop(c.min_height));
    lemma_insert_some_then_lookup(s3, PropKey::MinHeight, points_prop(c.min_height));
    let s5 = insert_some(s4, PropKey::MaxWidth, points_prop(c.max_width));
    lemma_insert_some_then_lookup(s4, PropKey::MaxWidth, points_prop(c.max_width));
    let s6 = insert_some(s5, PropKey::MaxHeight, points_prop(c.max_height));
    lemma_insert_some_then_lookup(s5, PropKey::MaxHeight, points_prop(c.max_height));
    let s7 = insert_some(s6, PropKey::BackgroundColor, color_prop(c.background));
    lemma_insert_some_then_lookup(s6, PropKey::BackgroundColor, color_prop(c.background));
    let s8 = insert_some(s7, PropKey::Opacity, float_prop_value(c.opacity));
    lemma_insert_some_then_lookup(s7, PropKey::Opacity, float_prop_value(c.opacity));
    let s9 = insert_some(s8, PropKey::Border, line_prop(c.border));
    lemma_insert_some_then_lookup(s8, PropKey::Border, line_prop(c.border));
    let s10 = insert_some(s9, PropKey::Stroke, line_prop(c.stroke));
    lemma_insert_some_then_lookup(s9, PropKey::Stroke, line_prop(c.stroke));
    let s11 = insert_some(s10, PropKey::CornerRadius, float_prop_value(c.corner_radius));
    lemma_insert_some_then_lookup(s10, PropKey::CornerRadius, float_prop_value(c.corner_radius));
    let s12 = insert_some(s11, PropKey::CornerRadii, radii_prop(c.corner_radii));
    lemma_insert_some_then_lookup(s11, PropKey::CornerRadii, radii_prop(c.corner_radii));
    let sf = if c.full_round {
        entries_insert(s12, PropKey::FullRound, PropValue::Bool(true))
    } else {
        s12
    };
    if c.full_round {
        lemma_insert_then_lookup(s12, PropKey::FullRound, PropValue::Bool(true));
    }
    let sh = insert_some(sf, PropKey::Shadow, shadow_prop(c.shadow));
    lemma_insert_some_then_lookup(sf, PropKey::Shadow, shadow_prop(c.shadow));
    lemma_insert_some_then_lookup(sh, PropKey::Offset, offset_prop(c.offset));
    assert(container_entries(c) == insert_some(sh, PropKey::Offset, offset_prop(c.offset)));
}

/// Each widget becomes a node of its own kind: a label a text node, a button, input,
/// container, image, safe area or list an element of that kind, and a stack, like any
/// unknown element, a stack; no widget becomes an element of the text kind.
pub proof fn lemma_widgets_become_their_own_kind(w: Widget)
    ensures
        (spec_descriptor_of(w) == NodeDescriptor::Text) <==> w is Text,
        (spec_descriptor_of(w) == NodeDescriptor::Element(ElementKind::Button)) <==> w is Button,
        (spec_descriptor_of(w) == NodeDescriptor::Element(ElementKind::Input)) <==> w is Input,
        (spec_descriptor_of(w) == NodeDescriptor::Element(ElementKind::Container)) <==> w is Container,
        (spec_descriptor_of(w) == NodeDescriptor::Element(ElementKind::Image)) <==> w is Image,
        (spec_descriptor_of(w) == NodeDescriptor::Element(ElementKind::SafeArea)) <==> w is SafeArea,
        (spec_descriptor_of(w) == NodeDescriptor::Element(ElementKind::List)) <==> w is List,
        (spec_descriptor_of(w) == NodeDescriptor::Element(ElementKind::Stack)) <==> (w is Stack
            || w is Other),
        (spec_descriptor_of(w) != NodeDescriptor::Element(ElementKind::Text)),
{
}

} // verus!
