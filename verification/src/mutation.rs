//! The mutation vocabulary shared by the virtual tree and the native renderers.

use vstd::prelude::*;
use crate::float32::{ieee_eq_bits, Fp32};
use crate::layout::{
    dimension_same, insets_same, point_same, radii_same, CornerRadii, DimensionValue,
    EdgeInsets, PointValue, SafeAreaEdges,
};

verus! {

/// Identifier of a node in the native tree.
pub type UiNodeId = u32;

/// Version of the mutation protocol.
#[derive(Clone, Copy, Debug, PartialEq, Eq, Structural)]
pub enum ProtocolVersion {
    V1,
}

impl Default for ProtocolVersion {
    fn default() -> (r: ProtocolVersion)
        ensures
            r == ProtocolVersion::V1,
    {
        ProtocolVersion::V1
    }
}

/// The kinds of native element the protocol can create.
#[derive(Clone, Copy, Debug, PartialEq, Eq, Structural)]
pub enum ElementKind {
    Stack,
    Container,
    SafeArea,
    Text,
    Button,
    Image,
    List,
    Input,
}

#[derive(Clone, Copy, Debug, PartialEq, Eq, Structural)]
pub enum Axis {
    Horizontal,
    Vertical,
}

#[derive(Clone, Copy, Debug, PartialEq, Eq, Structural)]
pub enum Alignment {
    Leading,
    Center,
    Trailing,
    Stretch,
}

#[derive(Clone, Copy, Debug, PartialEq, Eq, Structural)]
pub enum JustifyContent {
    Start,
    Center,
    End,
    Stretch,
}

#[derive(Clone, Copy, Debug, PartialEq, Eq, Structural)]
pub enum FontWeight {
    Regular,
    SemiBold,
    Bold,
}

/// An RGBA color, each channel in `0.0..=1.0`.
#[derive(Clone, Copy, Debug, PartialEq)]
pub struct ColorValue {
    pub r: Fp32,
    pub g: Fp32,
    pub b: Fp32,
    pub a: Fp32,
}

pub open spec fn color_same(x: ColorValue, y: ColorValue) -> bool {
    &&& ieee_eq_bits(x.r.bits, y.r.bits)
    &&& ieee_eq_bits(x.g.bits, y.g.bits)
    &&& ieee_eq_bits(x.b.bits, y.b.bits)
    &&& ieee_eq_bits(x.a.bits, y.a.bits)
}

impl ColorValue {
    pub fn new(r: Fp32, g: Fp32, b: Fp32, a: Fp32) -> (res: ColorValue)
        ensures
            res == (ColorValue { r, g, b, a }),
    {
        ColorValue { r, g, b, a }
    }

    pub fn same_value(&self, other: &ColorValue) -> (res: bool)
        ensures
            res == color_same(*self, *other),
    {
        self.r.same_value(other.r) && self.g.same_value(other.g) && self.b.same_value(other.b)
            && self.a.same_value(other.a)
    }
}

/// A border or stroke.
#[derive(Clone, Copy, Debug, PartialEq)]
pub struct LineStyle {
    pub width: Fp32,
    pub color: ColorValue,
}

pub open spec fn line_same(x: LineStyle, y: LineStyle) -> bool {
    ieee_eq_bits(x.width.bits, y.width.bits) && color_same(x.color, y.color)
}

impl LineStyle {
    pub fn new(width: Fp32, color: ColorValue) -> (res: LineStyle)
        ensures
            res == (LineStyle { width, color }),
    {
        LineStyle { width, color }
    }
}

/// A drop shadow.
#[derive(Clone, Copy, Debug, PartialEq)]
pub struct ShadowStyle {
    pub color: ColorValue,
    pub radius: Fp32,
    pub offset: PointValue,
}

pub open spec fn shadow_same(x: ShadowStyle, y: ShadowStyle) -> bool {
    color_same(x.color, y.color) && ieee_eq_bits(x.radius.bits, y.radius.bits) && point_same(
        x.offset,
        y.offset,
    )
}

impl ShadowStyle {
    pub fn new(color: ColorValue, radius: Fp32, offset: PointValue) -> (res: ShadowStyle)
        ensures
            res == (ShadowStyle { color, radius, offset }),
    {
        ShadowStyle { color, radius, offset }
    }
}

/// The events a native element can report.
#[derive(Clone, Copy, Debug, PartialEq, Eq, Structural)]
pub enum EventKind {
    Tap,
    TextInput,
    FocusChanged,
    Scroll,
    Appear,
    Disappear,
}

/// The property vocabulary of the protocol.
#[derive(Clone, Copy, Debug, PartialEq, Eq, PartialOrd, Ord, Hash, Structural)]
pub enum PropKey {
    Axis,
    Spacing,
    Padding,
    Alignment,
    JustifyContent,
    SafeAreaEdges,
    Color,
    BackgroundColor,
    Opacity,
    FontSize,
    FontWeight,
    CornerRadius,
    CornerRadii,
    FullRound,
    Border,
    Stroke,
    Shadow,
    Offset,
    Source,
    Enabled,
    Focused,
    Width,
    Height,
    MinWidth,
    MinHeight,
    MaxWidth,
    MaxHeight,
    FlexGrow,
    FlexShrink,
}

/// A typed property value.
#[derive(Clone, Debug, PartialEq)]
pub enum PropValue {
    String(String),
    Bool(bool),
    Float(Fp32),
    Color(ColorValue),
    Axis(Axis),
    Alignment(Alignment),
    JustifyContent(JustifyContent),
    SafeAreaEdges(SafeAreaEdges),
    FontWeight(FontWeight),
    Insets(EdgeInsets),
    Dimension(DimensionValue),
    CornerRadii(CornerRadii),
    LineStyle(LineStyle),
    Shadow(ShadowStyle),
    Point(PointValue),
}

/// Equality of two property values: the same variant with equal payloads, floats compared
/// under IEEE-754.
pub open spec fn prop_value_same(x: PropValue, y: PropValue) -> bool {
    match (x, y) {
        (PropValue::String(a), PropValue::String(b)) => a@ == b@,
        (PropValue::Bool(a), PropValue::Bool(b)) => a == b,
        (PropValue::Float(a), PropValue::Float(b)) => ieee_eq_bits(a.bits, b.bits),
        (PropValue::Color(a), PropValue::Color(b)) => color_same(a, b),
        (PropValue::Axis(a), PropValue::Axis(b)) => a == b,
        (PropValue::Alignment(a), PropValue::Alignment(b)) => a == b,
        (PropValue::JustifyContent(a), PropValue::JustifyContent(b)) => a == b,
        (PropValue::SafeAreaEdges(a), PropValue::SafeAreaEdges(b)) => a == b,
        (PropValue::FontWeight(a), PropValue::FontWeight(b)) => a == b,
        (PropValue::Insets(a), PropValue::Insets(b)) => insets_same(a, b),
        (PropValue::Dimension(a), PropValue::Dimension(b)) => dimension_same(a, b),
        (PropValue::CornerRadii(a), PropValue::CornerRadii(b)) => radii_same(a, b),
        (PropValue::LineStyle(a), PropValue::LineStyle(b)) => line_same(a, b),
        (PropValue::Shadow(a), PropValue::Shadow(b)) => shadow_same(a, b),
        (PropValue::Point(a), PropValue::Point(b)) => point_same(a, b),
        _ => false,
    }
}

fn dimension_same_exec(a: &DimensionValue, b: &DimensionValue) -> (r: bool)
    ensures
        r == dimension_same(*a, *b),
{
    match (a, b) {
        (DimensionValue::Auto, DimensionValue::Auto) => true,
        (DimensionValue::Points(x), DimensionValue::Points(y)) => x.same_value(*y),
        _ => false,
    }
}

fn radii_same_exec(a: &CornerRadii, b: &CornerRadii) -> (r: bool)
    ensures
        r == radii_same(*a, *b),
{
    a.top_left.same_value(b.top_left) && a.top_right.same_value(b.top_right)
        && a.bottom_right.same_value(b.bottom_right) && a.bottom_left.same_value(
        b.bottom_left,
    )
}

fn point_same_exec(a: &PointValue, b: &PointValue) -> (r: bool)
    ensures
        r == point_same(*a, *b),
{
    a.x.same_value(b.x) && a.y.same_value(b.y)
}

impl PropValue {
    /// Equality of property values, floats compared under IEEE-754.
    pub fn same_value(&self, other: &PropValue) -> (r: bool)
        ensures
            r == prop_value_same(*self, *other),
    {
        match (self, other) {
            (PropValue::String(a), PropValue::String(b)) => a.eq(b),
            (PropValue::Bool(a), PropValue::Bool(b)) => *a == *b,
            (PropValue::Float(a), PropValue::Float(b)) => a.same_value(*b),
            (PropValue::Color(a), PropValue::Color(b)) => a.same_value(b),
            (PropValue::Axis(a), PropValue::Axis(b)) => *a == *b,
            (PropValue::Alignment(a), PropValue::Alignment(b)) => *a == *b,
            (PropValue::JustifyContent(a), PropValue::JustifyContent(b)) => *a == *b,
            (PropValue::SafeAreaEdges(a), PropValue::SafeAreaEdges(b)) => *a == *b,
            (PropValue::FontWeight(a), PropValue::FontWeight(b)) => *a == *b,
            (PropValue::Insets(a), PropValue::Insets(b)) => a.same_value(b),
            (PropValue::Dimension(a), PropValue::Dimension(b)) => dimension_same_exec(a, b),
            (PropValue::CornerRadii(a), PropValue::CornerRadii(b)) => radii_same_exec(a, b),
            (PropValue::LineStyle(a), PropValue::LineStyle(b)) => a.width.same_value(b.width)
                && a.color.same_value(&b.color),
            (PropValue::Shadow(a), PropValue::Shadow(b)) => a.color.same_value(&b.color)
                && a.radius.same_value(b.radius) && point_same_exec(&a.offset, &b.offset),
            (PropValue::Point(a), PropValue::Point(b)) => point_same_exec(a, b),
            _ => false,
        }
    }

    /// An exact copy of the value.
    pub fn clone_value(&self) -> (r: PropValue)
        ensures
            r == *self,
    {
        match self {
            PropValue::String(s) => PropValue::String(s.clone()),
            PropValue::Bool(b) => PropValue::Bool(*b),
            PropValue::Float(v) => PropValue::Float(*v),
            PropValue::Color(v) => PropValue::Color(*v),
            PropValue::Axis(v) => PropValue::Axis(*v),
            PropValue::Alignment(v) => PropValue::Alignment(*v),
            PropValue::JustifyContent(v) => PropValue::JustifyContent(*v),
            PropValue::SafeAreaEdges(v) => PropValue::SafeAreaEdges(*v),
            PropValue::FontWeight(v) => PropValue::FontWeight(*v),
            PropValue::Insets(v) => PropValue::Insets(*v),
            PropValue::Dimension(v) => PropValue::Dimension(*v),
            PropValue::CornerRadii(v) => PropValue::CornerRadii(*v),
            PropValue::LineStyle(v) => PropValue::LineStyle(*v),
            PropValue::Shadow(v) => PropValue::Shadow(*v),
            PropValue::Point(v) => PropValue::Point(*v),
        }
    }
}

/// One instruction to the native renderer.
#[derive(Clone, Debug, PartialEq)]
pub enum Mutation {
    CreateNode { id: UiNodeId, kind: ElementKind },
    CreateTextNode { id: UiNodeId, text: String },
    SetText { id: UiNodeId, text: String },
    SetProp { id: UiNodeId, key: PropKey, value: PropValue },
    UnsetProp { id: UiNodeId, key: PropKey },
    InsertChild { parent: UiNodeId, child: UiNodeId, index: u32 },
    MoveNode { id: UiNodeId, new_parent: UiNodeId, index: u32 },
    ReplaceNode { old: UiNodeId, new_id: UiNodeId, kind: ElementKind },
    RemoveNode { id: UiNodeId },
    AttachEventListener { id: UiNodeId, event: EventKind },
}

} // verus!
