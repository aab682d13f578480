//! Typed reads of a node's properties for the platform adapters: each read finds the
//! property, if set, and checks that it holds the expected kind of value.

use vstd::prelude::*;
use crate::float32::Fp32;
use crate::layout::{CornerRadii, PointValue};
use crate::mutation::{ColorValue, FontWeight, LineStyle, PropKey, PropValue, ShadowStyle};
use crate::props::{lookup, PropMap};

verus! {

/// The color under `key`: absent, a color, or the error for another kind of value.
pub fn color(props: &PropMap, key: PropKey) -> (r: Option<Result<ColorValue, &'static str>>)
    requires
        props.wf(),
    ensures
        r == match lookup(props@, key) {
            None => None,
            Some(PropValue::Color(c)) => Some(Ok(c)),
            Some(_) => Some(Err("invalid color prop")),
        },
{
    match props.get(key) {
        None => None,
        Some(PropValue::Color(c)) => Some(Ok(*c)),
        Some(_) => Some(Err("invalid color prop")),
    }
}

/// The float under `key`: absent, a float, or the error for another kind of value.
pub fn float(props: &PropMap, key: PropKey) -> (r: Option<Result<Fp32, &'static str>>)
    requires
        props.wf(),
    ensures
        r == match lookup(props@, key) {
            None => None,
            Some(PropValue::Float(v)) => Some(Ok(v)),
            Some(_) => Some(Err("invalid float prop")),
        },
{
    match props.get(key) {
        None => None,
        Some(PropValue::Float(v)) => Some(Ok(*v)),
        Some(_) => Some(Err("invalid float prop")),
    }
}

/// The flag under `key`: absent, a flag, or the error for another kind of value.
pub fn bool_value(props: &PropMap, key: PropKey) -> (r: Option<Result<bool, &'static str>>)
    requires
        props.wf(),
    ensures
        r == match lookup(props@, key) {
            None => None,
            Some(PropValue::Bool(v)) => Some(Ok(v)),
            Some(_) => Some(Err("invalid bool prop")),
        },
{
    match props.get(key) {
        None => None,
        Some(PropValue::Bool(v)) => Some(Ok(*v)),
        Some(_) => Some(Err("invalid bool prop")),
    }
}

/// The text under `key`: absent, a text, or the error for another kind of value.
pub fn string(props: &PropMap, key: PropKey) -> (r: Option<Result<&str, &'static str>>)
    requires
        props.wf(),
    ensures
        match lookup(props@, key) {
            None => r is None,
            Some(PropValue::String(s)) => r matches Some(Ok(t)) && t@ == s@,
            Some(_) => r == Some(Err::<&str, &'static str>("invalid string prop")),
        },
{
    match props.get(key) {
        None => None,
        Some(PropValue::String(s)) => Some(Ok(s.as_str())),
        Some(_) => Some(Err("invalid string prop")),
    }
}

/// The line style under `key`: absent, a line style, or the error for another kind of value.
pub fn line_style(props: &PropMap, key: PropKey) -> (r: Option<Result<LineStyle, &'static str>>)
    requires
        props.wf(),
    ensures
        r == match lookup(props@, key) {
            None => None,
            Some(PropValue::LineStyle(v)) => Some(Ok(v)),
            Some(_) => Some(Err("invalid line style prop")),
        },
{
    match props.get(key) {
        None => None,
        Some(PropValue::LineStyle(v)) => Some(Ok(*v)),
        Some(_) => Some(Err("invalid line style prop")),
    }
}

/// The shadow under `key`: absent, a shadow, or the error for another kind of value.
pub fn shadow(props: &PropMap, key: PropKey) -> (r: Option<Result<ShadowStyle, &'static str>>)
    requires
        props.wf(),
    ensures
        r == match lookup(props@, key) {
            None => None,
            Some(PropValue::Shadow(v)) => Some(Ok(v)),
            Some(_) => Some(Err("invalid shadow prop")),
        },
{
    match props.get(key) {
        None => None,
        Some(PropValue::Shadow(v)) => Some(Ok(*v)),
        Some(_) => Some(Err("invalid shadow prop")),
    }
}

/// The point under `key`: absent, a point, or the error for another kind of value.
pub fn point(props: &PropMap, key: PropKey) -> (r: Option<Result<PointValue, &'static str>>)
    requires
        props.wf(),
    ensures
        r == match lookup(props@, key) {
            None => None,
            Some(PropValue::Point(v)) => Some(Ok(v)),
            Some(_) => Some(Err("invalid point prop")),
        },
{
    match props.get(key) {
        None => None,
        Some(PropValue::Point(v)) => Some(Ok(*v)),
        Some(_) => Some(Err("invalid point prop")),
    }
}

/// The corner radii under `key`: absent, radii, or the error for another kind of value.
pub fn corner_radii(props: &PropMap, key: PropKey) -> (r: Option<Result<CornerRadii, &'static str>>)
    requires
        props.wf(),
    ensures
        r == match lookup(props@, key) {
            None => None,
            Some(PropValue::CornerRadii(v)) => Some(Ok(v)),
            Some(_) => Some(Err("invalid corner radii prop")),
        },
{
    match props.get(key) {
        None => None,
        Some(PropValue::CornerRadii(v)) => Some(Ok(*v)),
        Some(_) => Some(Err("invalid corner radii prop")),
    }
}

/// The font of a node: its size (`default_size` when unset) and weight (regular when
/// unset), or the error for a value of another kind.
pub fn font(props: &PropMap, default_size: Fp32) -> (r: Result<(Fp32, FontWeight), &'static str>)
    requires
        props.wf(),
    ensures
        r == match lookup(props@, PropKey::FontSize) {
            Some(PropValue::Float(size)) => match lookup(props@, PropKey::FontWeight) {
                Some(PropValue::FontWeight(w)) => Ok((size, w)),
                None => Ok((size, FontWeight::Regular)),
                Some(_) => Err("invalid FontWeight prop"),
            },
            None => match lookup(props@, PropKey::FontWeight) {
                Some(PropValue::FontWeight(w)) => Ok((default_size, w)),
                None => Ok((default_size, FontWeight::Regular)),
                Some(_) => Err("invalid FontWeight prop"),
            },
            Some(_) => Err("invalid FontSize prop"),
        },
{
    let size = match props.get(PropKey::FontSize) {
        Some(PropValue::Float(size)) => *size,
        Some(_) => {
            return Err("invalid FontSize prop");
        },
        None => default_size,
    };
    let weight = match props.get(PropKey::FontWeight) {
        Some(PropValue::FontWeight(w)) => *w,
        Some(_) => {
            return Err("invalid FontWeight prop");
        },
        None => FontWeight::Regular,
    };
    Ok((size, weight))
}

} // verus!
