use mf_ui::codes::{element_kind_code, event_kind_code, font_weight_code};
use mf_ui::mutation::{ElementKind, EventKind, FontWeight};

#[test]
fn codes_cover_protocol_v1_surface() {
    let kinds = [
        element_kind_code(ElementKind::Stack),
        element_kind_code(ElementKind::Text),
        element_kind_code(ElementKind::Button),
        element_kind_code(ElementKind::Image),
        element_kind_code(ElementKind::List),
        element_kind_code(ElementKind::Input),
    ];

    assert_eq!(kinds.len(), 6);
    assert_eq!(kinds, [0, 1, 2, 3, 4, 5]);
    assert_eq!(event_kind_code(EventKind::Tap), 0);
    assert_eq!(event_kind_code(EventKind::TextInput), 1);
    assert_eq!(font_weight_code(FontWeight::Bold), 2);
}

#[test]
fn codes_of_the_remaining_kinds_are_distinct() {
    assert_eq!(element_kind_code(ElementKind::Container), 6);
    assert_eq!(element_kind_code(ElementKind::SafeArea), 7);
    assert_eq!(event_kind_code(EventKind::Scroll), 2);
    assert_eq!(event_kind_code(EventKind::Appear), 3);
    assert_eq!(event_kind_code(EventKind::Disappear), 4);
    assert_eq!(event_kind_code(EventKind::FocusChanged), 5);
    assert_eq!(font_weight_code(FontWeight::Regular), 0);
    assert_eq!(font_weight_code(FontWeight::SemiBold), 1);
}
