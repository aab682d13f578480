use mf_ui::float32::Fp32;
use mf_ui::layout::{CornerRadii, PointValue};
use mf_ui::mutation::{ColorValue, FontWeight, LineStyle, PropKey, PropValue, ShadowStyle};
use mf_ui::prop_access::{bool_value, color, corner_radii, float, font, line_style, point, shadow, string};
use mf_ui::props::PropMap;

fn f(x: f32) -> Fp32 {
    Fp32::from_bits(x.to_bits())
}

fn red() -> ColorValue {
    ColorValue::new(f(1.0), f(0.0), f(0.0), f(1.0))
}

#[test]
fn typed_reads_return_the_stored_value() {
    let mut props = PropMap::new();
    props.insert(PropKey::Color, PropValue::Color(red()));
    props.insert(PropKey::CornerRadius, PropValue::Float(f(4.5)));
    props.insert(PropKey::Enabled, PropValue::Bool(true));
    props.insert(PropKey::Source, PropValue::String("a.png".to_string()));
    assert_eq!(color(&props, PropKey::Color), Some(Ok(red())));
    assert_eq!(float(&props, PropKey::CornerRadius), Some(Ok(f(4.5))));
    assert_eq!(bool_value(&props, PropKey::Enabled), Some(Ok(true)));
    assert_eq!(string(&props, PropKey::Source), Some(Ok("a.png")));
}

#[test]
fn typed_reads_of_absent_keys_are_none() {
    let props = PropMap::new();
    assert_eq!(color(&props, PropKey::Color), None);
    assert_eq!(float(&props, PropKey::Width), None);
    assert_eq!(bool_value(&props, PropKey::Enabled), None);
    assert_eq!(string(&props, PropKey::Source), None);
    assert_eq!(line_style(&props, PropKey::Color), None);
    assert_eq!(shadow(&props, PropKey::Color), None);
    assert_eq!(point(&props, PropKey::Color), None);
    assert_eq!(corner_radii(&props, PropKey::CornerRadius), None);
}

#[test]
fn typed_reads_of_another_kind_name_the_expected_kind() {
    let mut props = PropMap::new();
    props.insert(PropKey::Color, PropValue::Bool(false));
    props.insert(PropKey::Enabled, PropValue::Float(f(1.0)));
    assert_eq!(color(&props, PropKey::Color), Some(Err("invalid color prop")));
    assert_eq!(float(&props, PropKey::Color), Some(Err("invalid float prop")));
    assert_eq!(bool_value(&props, PropKey::Enabled), Some(Err("invalid bool prop")));
    assert_eq!(string(&props, PropKey::Color), Some(Err("invalid string prop")));
    assert_eq!(line_style(&props, PropKey::Color), Some(Err("invalid line style prop")));
    assert_eq!(shadow(&props, PropKey::Color), Some(Err("invalid shadow prop")));
    assert_eq!(point(&props, PropKey::Color), Some(Err("invalid point prop")));
    assert_eq!(corner_radii(&props, PropKey::Color), Some(Err("invalid corner radii prop")));
}

#[test]
fn structured_values_read_back_whole() {
    let mut props = PropMap::new();
    let line = LineStyle::new(f(2.0), red());
    let offset = PointValue::new(f(1.0), f(-2.0));
    let drop = ShadowStyle::new(red(), f(3.0), offset);
    let radii = CornerRadii::new(f(1.0), f(2.0), f(3.0), f(4.0));
    props.insert(PropKey::Color, PropValue::LineStyle(line));
    props.insert(PropKey::BackgroundColor, PropValue::Shadow(drop));
    props.insert(PropKey::Width, PropValue::Point(offset));
    props.insert(PropKey::CornerRadius, PropValue::CornerRadii(radii));
    assert_eq!(line_style(&props, PropKey::Color), Some(Ok(line)));
    assert_eq!(shadow(&props, PropKey::BackgroundColor), Some(Ok(drop)));
    assert_eq!(point(&props, PropKey::Width), Some(Ok(offset)));
    assert_eq!(corner_radii(&props, PropKey::CornerRadius), Some(Ok(radii)));
}

#[test]
fn font_uses_defaults_and_rejects_other_kinds() {
    let mut props = PropMap::new();
    assert_eq!(font(&props, f(17.0)), Ok((f(17.0), FontWeight::Regular)));
    props.insert(PropKey::FontSize, PropValue::Float(f(12.0)));
    assert_eq!(font(&props, f(17.0)), Ok((f(12.0), FontWeight::Regular)));
    props.insert(PropKey::FontWeight, PropValue::FontWeight(FontWeight::Bold));
    assert_eq!(font(&props, f(17.0)), Ok((f(12.0), FontWeight::Bold)));
    props.insert(PropKey::FontWeight, PropValue::Float(f(1.0)));
    assert_eq!(font(&props, f(17.0)), Err("invalid FontWeight prop"));
    props.insert(PropKey::FontSize, PropValue::Bool(true));
    assert_eq!(font(&props, f(17.0)), Err("invalid FontSize prop"));
}
