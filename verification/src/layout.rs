//! Geometry values of the protocol: insets, safe-area edges, dimensions and frames.

use vstd::prelude::*;
use crate::float32::{ieee_eq_bits, is_below_zero_bits, is_finite_bits, Fp32};
use crate::mutation::UiNodeId;

verus! {

/// Distances from the four edges of a rectangle.
#[derive(Clone, Copy, Debug, PartialEq)]
pub struct EdgeInsets {
    pub top: Fp32,
    pub right: Fp32,
    pub bottom: Fp32,
    pub left: Fp32,
}

/// Two insets are equal side by side under IEEE-754 comparison.
pub open spec fn insets_same(a: EdgeInsets, b: EdgeInsets) -> bool {
    &&& ieee_eq_bits(a.top.bits, b.top.bits)
    &&& ieee_eq_bits(a.right.bits, b.right.bits)
    &&& ieee_eq_bits(a.bottom.bits, b.bottom.bits)
    &&& ieee_eq_bits(a.left.bits, b.left.bits)
}

impl EdgeInsets {
    pub fn new(top: Fp32, right: Fp32, bottom: Fp32, left: Fp32) -> (r: EdgeInsets)
        ensures
            r == (EdgeInsets { top, right, bottom, left }),
    {
        EdgeInsets { top, right, bottom, left }
    }

    /// The same inset on every side.
    pub fn all(value: Fp32) -> (r: EdgeInsets)
        ensures
            r == (EdgeInsets { top: value, right: value, bottom: value, left: value }),
    {
        EdgeInsets::new(value, value, value, value)
    }

    /// Side-by-side IEEE-754 equality.
    pub fn same_value(&self, other: &EdgeInsets) -> (r: bool)
        ensures
            r == insets_same(*self, *other),
    {
        self.top.same_value(other.top) && self.right.same_value(other.right)
            && self.bottom.same_value(other.bottom) && self.left.same_value(other.left)
    }
}

/// Which edges of the host's safe area a safe-area container honours.
#[derive(Clone, Copy, Debug, PartialEq, Eq, Structural)]
pub enum SafeAreaEdges {
    Top,
    TopBottom,
    All,
}

impl SafeAreaEdges {
    /// `insets` with the sides these edges honour kept and the others zeroed.
    pub open spec fn spec_apply_to(self, insets: EdgeInsets) -> EdgeInsets {
        match self {
            SafeAreaEdges::Top => EdgeInsets {
                top: insets.top,
                right: Fp32 { bits: 0 },
                bottom: Fp32 { bits: 0 },
                left: Fp32 { bits: 0 },
            },
            SafeAreaEdges::TopBottom => EdgeInsets {
                top: insets.top,
                right: Fp32 { bits: 0 },
                bottom: insets.bottom,
                left: Fp32 { bits: 0 },
            },
            SafeAreaEdges::All => insets,
        }
    }

    /// Keeps the honoured sides of `insets` and zeroes the others.
    pub fn apply_to(self, insets: EdgeInsets) -> (r: EdgeInsets)
        ensures
            r == self.spec_apply_to(insets),
    {
        match self {
            SafeAreaEdges::Top => EdgeInsets::new(
                insets.top,
                Fp32::zero(),
                Fp32::zero(),
                Fp32::zero(),
            ),
            SafeAreaEdges::TopBottom => EdgeInsets::new(
                insets.top,
                Fp32::zero(),
                insets.bottom,
                Fp32::zero(),
            ),
            SafeAreaEdges::All => insets,
        }
    }
}

/// A length that is either left to layout or fixed in points.
#[derive(Clone, Copy, Debug, PartialEq)]
pub enum DimensionValue {
    Auto,
    Points(Fp32),
}

pub open spec fn dimension_same(a: DimensionValue, b: DimensionValue) -> bool {
    match (a, b) {
        (DimensionValue::Auto, DimensionValue::Auto) => true,
        (DimensionValue::Points(x), DimensionValue::Points(y)) => ieee_eq_bits(x.bits, y.bits),
        _ => false,
    }
}

/// A point or an offset.
#[derive(Clone, Copy, Debug, PartialEq)]
pub struct PointValue {
    pub x: Fp32,
    pub y: Fp32,
}

pub open spec fn point_same(a: PointValue, b: PointValue) -> bool {
    ieee_eq_bits(a.x.bits, b.x.bits) && ieee_eq_bits(a.y.bits, b.y.bits)
}

impl PointValue {
    pub fn new(x: Fp32, y: Fp32) -> (r: PointValue)
        ensures
            r == (PointValue { x, y }),
    {
        PointValue { x, y }
    }
}

/// One radius per corner.
#[derive(Clone, Copy, Debug, PartialEq)]
pub struct CornerRadii {
    pub top_left: Fp32,
    pub top_right: Fp32,
    pub bottom_right: Fp32,
    pub bottom_left: Fp32,
}

pub open spec fn radii_same(a: CornerRadii, b: CornerRadii) -> bool {
    &&& ieee_eq_bits(a.top_left.bits, b.top_left.bits)
    &&& ieee_eq_bits(a.top_right.bits, b.top_right.bits)
    &&& ieee_eq_bits(a.bottom_right.bits, b.bottom_right.bits)
    &&& ieee_eq_bits(a.bottom_left.bits, b.bottom_left.bits)
}

impl CornerRadii {
    pub fn new(top_left: Fp32, top_right: Fp32, bottom_right: Fp32, bottom_left: Fp32) -> (r:
        CornerRadii)
        ensures
            r == (CornerRadii { top_left, top_right, bottom_right, bottom_left }),
    {
        CornerRadii { top_left, top_right, bottom_right, bottom_left }
    }
}

/// The frame that layout assigned to one node, in its parent's coordinates.
#[derive(Clone, Copy, Debug, PartialEq)]
pub struct LayoutFrame {
    pub id: UiNodeId,
    pub x: Fp32,
    pub y: Fp32,
    pub width: Fp32,
    pub height: Fp32,
}

/// Two frames are equal field by field, coordinates under IEEE-754 comparison.
pub open spec fn frame_same(a: LayoutFrame, b: LayoutFrame) -> bool {
    &&& a.id == b.id
    &&& ieee_eq_bits(a.x.bits, b.x.bits)
    &&& ieee_eq_bits(a.y.bits, b.y.bits)
    &&& ieee_eq_bits(a.width.bits, b.width.bits)
    &&& ieee_eq_bits(a.height.bits, b.height.bits)
}

/// Why a frame cannot be applied.
#[derive(Clone, Copy, Debug, PartialEq, Eq, Structural)]
pub enum LayoutFrameValidationError {
    NonFinitePosition,
    NonFiniteSize,
    NegativeSize,
}

/// The outcome of validating a frame with the given coordinates.
pub open spec fn frame_validation(frame: LayoutFrame) -> Result<(), LayoutFrameValidationError> {
    if !is_finite_bits(frame.x.bits) || !is_finite_bits(frame.y.bits) {
        Err(LayoutFrameValidationError::NonFinitePosition)
    } else if !is_finite_bits(frame.width.bits) || !is_finite_bits(frame.height.bits) {
        Err(LayoutFrameValidationError::NonFiniteSize)
    } else if is_below_zero_bits(frame.width.bits) || is_below_zero_bits(frame.height.bits) {
        Err(LayoutFrameValidationError::NegativeSize)
    } else {
        Ok(())
    }
}

impl LayoutFrame {
    /// A frame is valid when its position and size are finite and its size is not negative.
    pub fn validate(&self) -> (r: Result<(), LayoutFrameValidationError>)
        ensures
            r == frame_validation(*self),
    {
        if !self.x.is_finite() || !self.y.is_finite() {
            return Err(LayoutFrameValidationError::NonFinitePosition);
        }
        if !self.width.is_finite() || !self.height.is_finite() {
            return Err(LayoutFrameValidationError::NonFiniteSize);
        }
        if self.width.is_below_zero() || self.height.is_below_zero() {
            return Err(LayoutFrameValidationError::NegativeSize);
        }
        Ok(())
    }

    /// Field-by-field equality, coordinates under IEEE-754 comparison.
    pub fn same_value(&self, other: &LayoutFrame) -> (r: bool)
        ensures
            r == frame_same(*self, *other),
    {
        self.id == other.id && self.x.same_value(other.x) && self.y.same_value(other.y)
            && self.width.same_value(other.width) && self.height.same_value(other.height)
    }
}

} // verus!
