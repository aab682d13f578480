//! The iOS platform adapter: it decides which UIKit view each element becomes, which
//! UIKit update each property change asks for, and which control events each listener is
//! wired to, and leaves the UIKit calls to a bridge.

use vstd::prelude::*;
use crate::backend::{Backend, BackendError};
use crate::bindings::{rebound, wired, with_event, BindingStore, ControlBinding};
use crate::events::UiEvent;
use crate::executor::{ExecutorState, PlatformAdapter};
use crate::float32::Fp32;
use crate::guarded::WfState;
use crate::layout::LayoutFrame;
use crate::messages::{kind_str, kind_text, reject_texts, rejected_with};
use crate::mutation::{ColorValue, ElementKind, EventKind, FontWeight, Mutation, PropKey, PropValue, UiNodeId};
use crate::props::{lookup, PropMap};
use crate::tree::NodeRecord;

verus! {

/// The UIKit views an element can become.
#[derive(Clone, Copy, Debug, PartialEq, Eq, Structural)]
pub enum ViewClass {
    PlainView,
    Label,
    Button,
    ImageView,
    TextField,
}

/// The UIKit control events a listener is wired to.
#[derive(Clone, Copy, Debug, PartialEq, Eq, Structural)]
pub enum ControlEvent {
    TouchUpInside,
    EditingChanged,
    EditingDidBegin,
    EditingDidEnd,
}

/// The UIKit calls the adapter makes; views are known by their handles.
pub trait IosBridge {
    fn is_main_thread(&self) -> bool;

    /// Sets up the window and its host view; returns the host view.
    fn bootstrap_host(&mut self) -> Result<usize, BackendError>;

    fn create(&mut self, class: ViewClass) -> usize;

    fn set_text_on_view(&mut self, kind: ElementKind, handle: usize, text: &str) -> Result<(), BackendError>;

    fn add_subview(&mut self, parent: usize, child: usize);

    fn insert_subview(&mut self, parent: usize, child: usize, index: usize);

    fn remove_from_superview(&mut self, handle: usize);

    fn release_object(&mut self, handle: usize);

    fn apply_color(&mut self, kind: ElementKind, handle: usize, color: ColorValue) -> Result<(), BackendError>;

    /// Background, opacity, corners, border, stroke and shadow, from the node's properties.
    fn reapply_visual_style(&mut self, handle: usize, props: &PropMap) -> Result<(), BackendError>;

    fn apply_font(&mut self, kind: ElementKind, handle: usize, size: Fp32, weight: FontWeight) -> Result<
        (),
        BackendError,
    >;

    fn apply_enabled(&mut self, handle: usize, enabled: bool);

    fn apply_focus(&mut self, handle: usize, focused: bool) -> Result<(), BackendError>;

    fn apply_image_source(&mut self, handle: usize, source: &str) -> Result<(), BackendError>;

    /// Moves the view by the node's offset from where its frame puts it.
    fn reapply_frame(&mut self, handle: usize, props: &PropMap) -> Result<(), BackendError>;

    fn set_frame(&mut self, handle: usize, frame: LayoutFrame) -> Result<(), BackendError>;

    fn add_target(&mut self, handle: usize, event: ControlEvent);

    /// Events the views reported since the last call.
    fn drain_events(&mut self) -> (r: Vec<UiEvent>)
        default_ensures
            r@ == Seq::<UiEvent>::empty(),
    {
        Vec::new()
    }
}

/// `view` is a view that the bridge's `create` can give for `class`.
pub open spec fn created_by<B: IosBridge>(class: ViewClass, view: usize) -> bool {
    exists|b: &mut B| #[trigger] call_ensures(B::create, (b, class), view)
}

/// The UIKit view an element of `kind` becomes.
pub open spec fn spec_view_class(kind: ElementKind) -> ViewClass {
    match kind {
        ElementKind::Text => ViewClass::Label,
        ElementKind::Button => ViewClass::Button,
        ElementKind::Image => ViewClass::ImageView,
        ElementKind::Input => ViewClass::TextField,
        _ => ViewClass::PlainView,
    }
}

/// The UIKit view an element of `kind` becomes: labels for text, buttons, image views,
/// text fields for inputs, and plain views for stacks, containers, safe areas and lists.
pub fn view_class(kind: ElementKind) -> (r: ViewClass)
    ensures
        r == spec_view_class(kind),
{
    match kind {
        ElementKind::Text => ViewClass::Label,
        ElementKind::Button => ViewClass::Button,
        ElementKind::Image => ViewClass::ImageView,
        ElementKind::Input => ViewClass::TextField,
        _ => ViewClass::PlainView,
    }
}

/// Whether a view of `kind` shows a text given at creation.
pub open spec fn takes_text(kind: ElementKind) -> bool {
    kind == ElementKind::Text || kind == ElementKind::Button || kind == ElementKind::Input
}

/// The font size used when a node sets none (17 points).
pub open spec fn ios_default_font_size() -> Fp32 {
    Fp32 { bits: 0x4188_0000 }
}

/// The font a text, button or input sets: its size (17 points when unset) and weight
/// (regular when unset); none when either holds a value of another kind.
pub open spec fn ios_font(props: Seq<(PropKey, PropValue)>) -> Option<(Fp32, FontWeight)> {
    match lookup(props, PropKey::FontSize) {
        Some(PropValue::Float(size)) => match lookup(props, PropKey::FontWeight) {
            Some(PropValue::FontWeight(w)) => Some((size, w)),
            None => Some((size, FontWeight::Regular)),
            Some(_) => None,
        },
        None => match lookup(props, PropKey::FontWeight) {
            Some(PropValue::FontWeight(w)) => Some((ios_default_font_size(), w)),
            None => Some((ios_default_font_size(), FontWeight::Regular)),
            Some(_) => None,
        },
        Some(_) => None,
    }
}

/// The UIKit update that a change of `key` asks for on a view of `kind`.
#[derive(Clone, Debug, PartialEq)]
pub enum PropUpdate {
    /// Nothing to do: a layout property, or a value of the wrong kind.
    Nothing,
    Color(ColorValue),
    VisualStyle,
    Font(Fp32, FontWeight),
    Enabled(bool),
    Focus(bool),
    Source(String),
    Frame,
    /// Focus on an element that is not an input.
    UnsupportedFocus,
}

/// The update that a change of `key` asks for, given the node's properties after the
/// change: a color of its own kind; the whole visual style for background, opacity,
/// corners, border, stroke and shadow; the font on texts, buttons and inputs when it is
/// valid; the enabled flag or the image source when they hold their own kind; focus, on
/// inputs only; the frame for an offset; nothing for the layout properties.
pub open spec fn spec_prop_update(kind: ElementKind, props: Seq<(PropKey, PropValue)>, key: PropKey) -> PropUpdate {
    match key {
        PropKey::Color => match lookup(props, key) {
            Some(PropValue::Color(c)) => PropUpdate::Color(c),
            _ => PropUpdate::Nothing,
        },
        PropKey::BackgroundColor | PropKey::Opacity | PropKey::CornerRadius | PropKey::CornerRadii
        | PropKey::FullRound | PropKey::Border | PropKey::Stroke | PropKey::Shadow => PropUpdate::VisualStyle,
        PropKey::FontSize | PropKey::FontWeight => if takes_text(kind) {
            match ios_font(props) {
                Some((size, weight)) => PropUpdate::Font(size, weight),
                None => PropUpdate::Nothing,
            }
        } else {
            PropUpdate::Nothing
        },
        PropKey::Enabled => match lookup(props, key) {
            Some(PropValue::Bool(b)) => PropUpdate::Enabled(b),
            _ => PropUpdate::Nothing,
        },
        PropKey::Focused => if kind != ElementKind::Input {
            PropUpdate::UnsupportedFocus
        } else {
            match lookup(props, key) {
                Some(PropValue::Bool(b)) => PropUpdate::Focus(b),
                _ => PropUpdate::Nothing,
            }
        },
        PropKey::Source => match lookup(props, key) {
            Some(PropValue::String(s)) => PropUpdate::Source(s),
            _ => PropUpdate::Nothing,
        },
        PropKey::Offset => PropUpdate::Frame,
        _ => PropUpdate::Nothing,
    }
}

/// The update that a change of `key` asks for on a view of `kind` whose node now has
/// `props`.
pub fn prop_update(kind: ElementKind, props: &PropMap, key: PropKey) -> (r: PropUpdate)
    requires
        props.wf(),
    ensures
        r == spec_prop_update(kind, props@, key),
{
    match key {
        PropKey::Color => match props.get(PropKey::Color) {
            Some(PropValue::Color(c)) => PropUpdate::Color(*c),
            _ => PropUpdate::Nothing,
        },
        PropKey::BackgroundColor | PropKey::Opacity | PropKey::CornerRadius | PropKey::CornerRadii
        | PropKey::FullRound | PropKey::Border | PropKey::Stroke | PropKey::Shadow => PropUpdate::VisualStyle,
        PropKey::FontSize | PropKey::FontWeight => {
            if kind == ElementKind::Text || kind == ElementKind::Button || kind == ElementKind::Input {
                match crate::prop_access::font(props, Fp32::from_bits(0x4188_0000)) {
                    Ok((size, weight)) => PropUpdate::Font(size, weight),
                    Err(_) => PropUpdate::Nothing,
                }
            } else {
                PropUpdate::Nothing
            }
        },
        PropKey::Enabled => match props.get(PropKey::Enabled) {
            Some(PropValue::Bool(b)) => PropUpdate::Enabled(*b),
            _ => PropUpdate::Nothing,
        },
        PropKey::Focused => {
            if kind != ElementKind::Input {
                PropUpdate::UnsupportedFocus
            } else {
                match props.get(PropKey::Focused) {
                    Some(PropValue::Bool(b)) => PropUpdate::Focus(*b),
                    _ => PropUpdate::Nothing,
                }
            }
        },
        PropKey::Source => match props.get(PropKey::Source) {
            Some(PropValue::String(s)) => PropUpdate::Source(s.clone()),
            _ => PropUpdate::Nothing,
        },
        PropKey::Offset => PropUpdate::Frame,
        _ => PropUpdate::Nothing,
    }
}

/// The text of the refusal of focus on an element of `kind`.
pub open spec fn unsupported_focus_message(kind: ElementKind) -> Seq<char> {
    "Focused is unsupported for "@ + kind_text(kind)
}

/// Whether the adapter records a listener for `event` on a control of `kind`: taps on
/// buttons, text input and focus on inputs, appear and disappear on any control.
pub open spec fn ios_records_listener(kind: ElementKind, event: EventKind) -> bool {
    match event {
        EventKind::Tap => kind == ElementKind::Button,
        EventKind::TextInput => kind == ElementKind::Input,
        EventKind::FocusChanged => kind == ElementKind::Input,
        EventKind::Scroll => false,
        _ => true,
    }
}

/// The control events that attaching `event` to a control whose binding was `previous`
/// wires: none unless the listener is recorded and was not wired yet; a tap wires
/// touch-up-inside, text input wires editing-changed, and focus wires the beginning and
/// the end of editing.
pub open spec fn ios_targets(
    kind: ElementKind,
    event: EventKind,
    previous: Option<ControlBinding>,
    node_id: UiNodeId,
) -> Seq<ControlEvent> {
    if !ios_records_listener(kind, event) || wired(rebound(previous, node_id), event) {
        Seq::empty()
    } else {
        match event {
            EventKind::Tap => seq![ControlEvent::TouchUpInside],
            EventKind::TextInput => seq![ControlEvent::EditingChanged],
            EventKind::FocusChanged => seq![ControlEvent::EditingDidBegin, ControlEvent::EditingDidEnd],
            _ => Seq::empty(),
        }
    }
}

/// Whether a control whose binding is `binding` appears as `node_id` when it is attached.
pub open spec fn ios_appears(binding: Option<ControlBinding>, node_id: UiNodeId) -> bool {
    match binding {
        Some(b) => b.appear && b.node_id == node_id,
        None => false,
    }
}

/// The iOS adapter over `bridge`: the host view once it is set up, and the wiring of
/// its controls.
pub struct IosAdapter<B> {
    pub bridge: B,
    host: Option<usize>,
    bindings: BindingStore,
}

impl<B> IosAdapter<B> {
    /// The bridge that the adapter drives.
    pub closed spec fn spec_bridge(&self) -> B {
        self.bridge
    }

    /// The host view, once set up.
    pub closed spec fn host(&self) -> Option<usize> {
        self.host
    }

    /// The wiring recorded for the adapter's controls, by handle.
    pub closed spec fn wiring(&self) -> Map<usize, ControlBinding> {
        self.bindings.spec_bindings()
    }

    /// The events the adapter queued itself, oldest first.
    pub closed spec fn queued(&self) -> Seq<UiEvent> {
        self.bindings.spec_events()
    }

    /// The binding recorded for the control `handle`, if any.
    pub open spec fn binding_of(&self, handle: usize) -> Option<ControlBinding> {
        if self.wiring().contains_key(handle) {
            Some(self.wiring()[handle])
        } else {
            None
        }
    }

    /// An adapter over `bridge`, with no host view yet and no control wired.
    pub fn new(bridge: B) -> (r: Self)
        ensures
            r.spec_bridge() == bridge,
            r.host() is None,
            r.wiring() == Map::<usize, ControlBinding>::empty(),
            r.queued() == Seq::<UiEvent>::empty(),
    {
        IosAdapter { bridge, host: None, bindings: BindingStore::new() }
    }
}

impl<B: IosBridge> IosAdapter<B> {
    /// The host view, set up on first use; the host is kept once it is set up.
    pub fn ensure_host(&mut self) -> (r: Result<usize, BackendError>)
        ensures
            old(self).host() matches Some(h) ==> r == Ok::<usize, BackendError>(h) && final(self).host()
                == old(self).host(),
            r matches Ok(h) ==> final(self).host() == Some(h),
            r is Err ==> final(self).host() is None,
            final(self).wiring() == old(self).wiring(),
            final(self).queued() == old(self).queued(),
    {
        match self.host {
            Some(h) => Ok(h),
            None => match self.bridge.bootstrap_host() {
                Ok(h) => {
                    self.host = Some(h);
                    Ok(h)
                },
                Err(e) => Err(e),
            },
        }
    }

    /// Applies the update that a change of `key` asks for.
    fn apply_update(&mut self, kind: ElementKind, handle: usize, props: &PropMap, key: PropKey) -> (r:
        Result<(), BackendError>)
        requires
            props.wf(),
        ensures
            final(self).wiring() == old(self).wiring(),
            final(self).queued() == old(self).queued(),
            final(self).host() == old(self).host(),
            match spec_prop_update(kind, props@, key) {
                PropUpdate::Nothing => r is Ok && final(self).spec_bridge() == old(self).spec_bridge(),
                PropUpdate::UnsupportedFocus => rejected_with(r, unsupported_focus_message(kind))
                    && final(self).spec_bridge() == old(self).spec_bridge(),
                PropUpdate::Color(c) => exists|b: &mut B|
                    mut_ref_current(b) == old(self).spec_bridge()
                        && mut_ref_future(b) == final(self).spec_bridge()
                        && #[trigger] call_ensures(B::apply_color, (b, kind, handle, c), r),
                PropUpdate::VisualStyle => exists|b: &mut B|
                    mut_ref_current(b) == old(self).spec_bridge()
                        && mut_ref_future(b) == final(self).spec_bridge()
                        && #[trigger] call_ensures(B::reapply_visual_style, (b, handle, props), r),
                PropUpdate::Font(size, weight) => exists|b: &mut B|
                    mut_ref_current(b) == old(self).spec_bridge()
                        && mut_ref_future(b) == final(self).spec_bridge()
                        && #[trigger] call_ensures(B::apply_font, (b, kind, handle, size, weight), r),
                PropUpdate::Enabled(v) => r is Ok && exists|b: &mut B|
                    mut_ref_current(b) == old(self).spec_bridge()
                        && mut_ref_future(b) == final(self).spec_bridge()
                        && #[trigger] call_ensures(B::apply_enabled, (b, handle, v), ()),
                PropUpdate::Focus(v) => exists|b: &mut B|
                    mut_ref_current(b) == old(self).spec_bridge()
                        && mut_ref_future(b) == final(self).spec_bridge()
                        && #[trigger] call_ensures(B::apply_focus, (b, handle, v), r),
                PropUpdate::Source(src) => exists|b: &mut B, text: &str|
                    text@ == src@ && mut_ref_current(b) == old(self).spec_bridge()
                        && mut_ref_future(b) == final(self).spec_bridge()
                        && #[trigger] call_ensures(B::apply_image_source, (b, handle, text), r),
                PropUpdate::Frame => exists|b: &mut B|
                    mut_ref_current(b) == old(self).spec_bridge()
                        && mut_ref_future(b) == final(self).spec_bridge()
                        && #[trigger] call_ensures(B::reapply_frame, (b, handle, props), r),
            },
    {
        match prop_update(kind, props, key) {
            PropUpdate::Nothing => Ok(()),
            PropUpdate::Color(c) => self.bridge.apply_color(kind, handle, c),
            PropUpdate::VisualStyle => self.bridge.reapply_visual_style(handle, props),
            PropUpdate::Font(size, weight) => self.bridge.apply_font(kind, handle, size, weight),
            PropUpdate::Enabled(b) => {
                self.bridge.apply_enabled(handle, b);
                Ok(())
            },
            PropUpdate::Focus(b) => self.bridge.apply_focus(handle, b),
            PropUpdate::Source(s) => self.bridge.apply_image_source(handle, s.as_str()),
            PropUpdate::Frame => self.bridge.reapply_frame(handle, props),
            PropUpdate::UnsupportedFocus => Err(reject_texts("Focused is unsupported for ", kind_str(kind))),
        }
    }
}

impl<B: IosBridge> PlatformAdapter for IosAdapter<B> {
    type Handle = usize;

    fn create_view(&mut self, kind: ElementKind, text: Option<&str>) -> (r: Result<usize, BackendError>)
        ensures
            final(self).wiring() == old(self).wiring(),
            final(self).queued() == old(self).queued(),
            r is Ok ==> final(self).host() is Some,
            old(self).host() is Some ==> final(self).host() == old(self).host(),
            old(self).host() is Some && !(takes_text(kind) && text is Some) ==> r is Ok,
            r is Ok ==> created_by::<B>(spec_view_class(kind), r->Ok_0),
    {
        match self.ensure_host() {
            Ok(_) => {},
            Err(e) => {
                return Err(e);
            },
        }
        let view = self.bridge.create(view_class(kind));
        proof {
            assert(exists|b: &mut B| #[trigger] call_ensures(B::create, (b, spec_view_class(kind)), view));
            assert(created_by::<B>(spec_view_class(kind), view));
        }
        match kind {
            ElementKind::Text | ElementKind::Button | ElementKind::Input => match text {
                Some(t) => match self.bridge.set_text_on_view(kind, view, t) {
                    Ok(()) => {},
                    Err(e) => {
                        return Err(e);
                    },
                },
                None => {},
            },
            _ => {},
        }
        proof {
            assert(created_by::<B>(spec_view_class(kind), view));
        }
        Ok(view)
    }

    fn attach_root(&mut self, node_id: UiNodeId, handle: usize) -> (r: Result<(), BackendError>)
        ensures
            final(self).wiring() == old(self).wiring(),
            final(self).queued() == if r is Ok && ios_appears(old(self).binding_of(handle), node_id) {
                old(self).queued().push(UiEvent::Appear { id: node_id })
            } else {
                old(self).queued()
            },
            r is Ok ==> final(self).host() is Some,
            old(self).host() is Some ==> r is Ok && final(self).host() == old(self).host(),
            r is Ok ==> exists|b: &mut B|
                mut_ref_future(b) == final(self).spec_bridge()
                    && #[trigger] call_ensures(B::add_subview, (b, final(self).host()->0, handle), ()),
    {
        let host = match self.ensure_host() {
            Ok(h) => h,
            Err(e) => {
                return Err(e);
            },
        };
        self.bridge.add_subview(host, handle);
        proof {
            assert(exists|b: &mut B|
                mut_ref_future(b) == self.spec_bridge()
                    && #[trigger] call_ensures(B::add_subview, (b, host, handle), ()));
        }
        let ghost after = self.spec_bridge();
        self.bindings.emit_appear_if_needed(node_id, handle);
        proof {
            assert(self.spec_bridge() == after);
            assert(self.host() == Some(host));
            assert(exists|b: &mut B|
                mut_ref_future(b) == self.spec_bridge()
                    && #[trigger] call_ensures(B::add_subview, (b, self.host()->0, handle), ()));
        }
        Ok(())
    }

    fn detach_root(&mut self, node_id: UiNodeId, handle: usize) -> (r: Result<(), BackendError>)
        ensures
            r is Ok,
            final(self).wiring() == old(self).wiring(),
            final(self).queued() == old(self).queued(),
            exists|b: &mut B|
                mut_ref_current(b) == old(self).spec_bridge()
                    && mut_ref_future(b) == final(self).spec_bridge()
                    && #[trigger] call_ensures(B::remove_from_superview, (b, handle), ()),
    {
        self.bridge.remove_from_superview(handle);
        Ok(())
    }

    fn insert_child(&mut self, parent: usize, child_id: UiNodeId, child: usize, index: usize) -> (r:
        Result<(), BackendError>)
        ensures
            r is Ok,
            final(self).wiring() == old(self).wiring(),
            final(self).queued() == if ios_appears(old(self).binding_of(child), child_id) {
                old(self).queued().push(UiEvent::Appear { id: child_id })
            } else {
                old(self).queued()
            },
    {
        self.bridge.insert_subview(parent, child, index);
        self.bindings.emit_appear_if_needed(child_id, child);
        Ok(())
    }

    fn remove_child(&mut self, parent: usize, child: usize) -> (r: Result<(), BackendError>)
        ensures
            r is Ok,
            final(self).wiring() == old(self).wiring(),
            final(self).queued() == old(self).queued(),
            exists|b: &mut B|
                mut_ref_current(b) == old(self).spec_bridge()
                    && mut_ref_future(b) == final(self).spec_bridge()
                    && #[trigger] call_ensures(B::remove_from_superview, (b, child), ()),
    {
        self.bridge.remove_from_superview(child);
        Ok(())
    }

    fn remove_view(&mut self, node_id: UiNodeId, handle: usize, listeners: &[EventKind]) -> (r:
        Result<(), BackendError>)
        ensures
            r is Ok,
            final(self).wiring() == old(self).wiring().remove(handle),
            final(self).queued() == if listeners@.contains(EventKind::Disappear) {
                old(self).queued().push(UiEvent::Disappear { id: node_id })
            } else {
                old(self).queued()
            },
    {
        if crate::android::lists_event(listeners, EventKind::Disappear) {
            self.bindings.queue_event(UiEvent::Disappear { id: node_id });
        }
        self.bindings.unregister_binding(handle);
        self.bridge.remove_from_superview(handle);
        self.bridge.release_object(handle);
        Ok(())
    }

    fn set_text(&mut self, kind: ElementKind, handle: usize, text: &str) -> (r: Result<(), BackendError>)
        ensures
            final(self).wiring() == old(self).wiring(),
            final(self).queued() == old(self).queued(),
            exists|b: &mut B|
                mut_ref_current(b) == old(self).spec_bridge()
                    && mut_ref_future(b) == final(self).spec_bridge()
                    && #[trigger] call_ensures(B::set_text_on_view, (b, kind, handle, text), r),
    {
        self.bridge.set_text_on_view(kind, handle, text)
    }

    fn set_prop(&mut self, kind: ElementKind, handle: usize, props: &PropMap, key: PropKey) -> (r:
        Result<(), BackendError>)
        ensures
            final(self).wiring() == old(self).wiring(),
            final(self).queued() == old(self).queued(),
            match spec_prop_update(kind, props@, key) {
                PropUpdate::Nothing => r is Ok && final(self).spec_bridge() == old(self).spec_bridge(),
                PropUpdate::UnsupportedFocus => rejected_with(r, unsupported_focus_message(kind))
                    && final(self).spec_bridge() == old(self).spec_bridge(),
                PropUpdate::Color(c) => exists|b: &mut B|
                    mut_ref_current(b) == old(self).spec_bridge()
                        && mut_ref_future(b) == final(self).spec_bridge()
                        && #[trigger] call_ensures(B::apply_color, (b, kind, handle, c), r),
                PropUpdate::VisualStyle => exists|b: &mut B|
                    mut_ref_current(b) == old(self).spec_bridge()
                        && mut_ref_future(b) == final(self).spec_bridge()
                        && #[trigger] call_ensures(B::reapply_visual_style, (b, handle, props), r),
                PropUpdate::Font(size, weight) => exists|b: &mut B|
                    mut_ref_current(b) == old(self).spec_bridge()
                        && mut_ref_future(b) == final(self).spec_bridge()
                        && #[trigger] call_ensures(B::apply_font, (b, kind, handle, size, weight), r),
                PropUpdate::Enabled(v) => r is Ok && exists|b: &mut B|
                    mut_ref_current(b) == old(self).spec_bridge()
                        && mut_ref_future(b) == final(self).spec_bridge()
                        && #[trigger] call_ensures(B::apply_enabled, (b, handle, v), ()),
                PropUpdate::Focus(v) => exists|b: &mut B|
                    mut_ref_current(b) == old(self).spec_bridge()
                        && mut_ref_future(b) == final(self).spec_bridge()
                        && #[trigger] call_ensures(B::apply_focus, (b, handle, v), r),
                PropUpdate::Source(src) => exists|b: &mut B, text: &str|
                    text@ == src@ && mut_ref_current(b) == old(self).spec_bridge()
                        && mut_ref_future(b) == final(self).spec_bridge()
                        && #[trigger] call_ensures(B::apply_image_source, (b, handle, text), r),
                PropUpdate::Frame => exists|b: &mut B|
                    mut_ref_current(b) == old(self).spec_bridge()
                        && mut_ref_future(b) == final(self).spec_bridge()
                        && #[trigger] call_ensures(B::reapply_frame, (b, handle, props), r),
            },
    {
        self.apply_update(kind, handle, props, key)
    }

    fn unset_prop(&mut self, kind: ElementKind, handle: usize, props: &PropMap, key: PropKey) -> (r:
        Result<(), BackendError>)
        ensures
            final(self).wiring() == old(self).wiring(),
            final(self).queued() == old(self).queued(),
            match spec_prop_update(kind, props@, key) {
                PropUpdate::Nothing => r is Ok && final(self).spec_bridge() == old(self).spec_bridge(),
                PropUpdate::UnsupportedFocus => rejected_with(r, unsupported_focus_message(kind))
                    && final(self).spec_bridge() == old(self).spec_bridge(),
                PropUpdate::Color(c) => exists|b: &mut B|
                    mut_ref_current(b) == old(self).spec_bridge()
                        && mut_ref_future(b) == final(self).spec_bridge()
                        && #[trigger] call_ensures(B::apply_color, (b, kind, handle, c), r),
                PropUpdate::VisualStyle => exists|b: &mut B|
                    mut_ref_current(b) == old(self).spec_bridge()
                        && mut_ref_future(b) == final(self).spec_bridge()
                        && #[trigger] call_ensures(B::reapply_visual_style, (b, handle, props), r),
                PropUpdate::Font(size, weight) => exists|b: &mut B|
                    mut_ref_current(b) == old(self).spec_bridge()
                        && mut_ref_future(b) == final(self).spec_bridge()
                        && #[trigger] call_ensures(B::apply_font, (b, kind, handle, size, weight), r),
                PropUpdate::Enabled(v) => r is Ok && exists|b: &mut B|
                    mut_ref_current(b) == old(self).spec_bridge()
                        && mut_ref_future(b) == final(self).spec_bridge()
                        && #[trigger] call_ensures(B::apply_enabled, (b, handle, v), ()),
                PropUpdate::Focus(v) => exists|b: &mut B|
                    mut_ref_current(b) == old(self).spec_bridge()
                        && mut_ref_future(b) == final(self).spec_bridge()
                        && #[trigger] call_ensures(B::apply_focus, (b, handle, v), r),
                PropUpdate::Source(src) => exists|b: &mut B, text: &str|
                    text@ == src@ && mut_ref_current(b) == old(self).spec_bridge()
                        && mut_ref_future(b) == final(self).spec_bridge()
                        && #[trigger] call_ensures(B::apply_image_source, (b, handle, text), r),
                PropUpdate::Frame => exists|b: &mut B|
                    mut_ref_current(b) == old(self).spec_bridge()
                        && mut_ref_future(b) == final(self).spec_bridge()
                        && #[trigger] call_ensures(B::reapply_frame, (b, handle, props), r),
            },
    {
        self.apply_update(kind, handle, props, key)
    }

    fn attach_listener(&mut self, kind: ElementKind, handle: usize, node_id: UiNodeId, event: EventKind) -> (r:
        Result<(), BackendError>)
        ensures
            r is Ok,
            final(self).wiring() == if ios_records_listener(kind, event) {
                old(self).wiring().insert(
                    handle,
                    with_event(rebound(old(self).binding_of(handle), node_id), event),
                )
            } else {
                old(self).wiring()
            },
            final(self).queued() == old(self).queued(),
            ios_targets(kind, event, old(self).binding_of(handle), node_id).len() == 0
                ==> final(self).spec_bridge() == old(self).spec_bridge(),
            event == EventKind::Tap && ios_targets(kind, event, old(self).binding_of(handle), node_id).len()
                > 0 ==> exists|b: &mut B|
                mut_ref_current(b) == old(self).spec_bridge()
                    && mut_ref_future(b) == final(self).spec_bridge()
                    && #[trigger] call_ensures(B::add_target, (b, handle, ControlEvent::TouchUpInside), ()),
            event == EventKind::TextInput && ios_targets(kind, event, old(self).binding_of(handle), node_id).len()
                > 0 ==> exists|b: &mut B|
                mut_ref_current(b) == old(self).spec_bridge()
                    && mut_ref_future(b) == final(self).spec_bridge()
                    && #[trigger] call_ensures(B::add_target, (b, handle, ControlEvent::EditingChanged), ()),
            event == EventKind::FocusChanged && ios_targets(kind, event, old(self).binding_of(handle), node_id).len()
                > 0 ==> exists|b: &mut B, c: &mut B|
                mut_ref_current(b) == old(self).spec_bridge()
                    && mut_ref_future(b) == mut_ref_current(c)
                    && mut_ref_future(c) == final(self).spec_bridge()
                    && #[trigger] call_ensures(B::add_target, (b, handle, ControlEvent::EditingDidBegin), ())
                    && #[trigger] call_ensures(B::add_target, (c, handle, ControlEvent::EditingDidEnd), ()),
    {
        match event {
            EventKind::Tap => {
                if kind == ElementKind::Button && self.bindings.update_binding(handle, node_id, event) {
                    self.bridge.add_target(handle, ControlEvent::TouchUpInside);
                    proof {
                        assert(ios_targets(kind, event, old(self).binding_of(handle), node_id)
                            =~= seq![ControlEvent::TouchUpInside]);
                        assert(exists|b: &mut B|
                            mut_ref_current(b) == old(self).spec_bridge()
                                && mut_ref_future(b) == self.spec_bridge()
                                && #[trigger] call_ensures(B::add_target, (b, handle, ControlEvent::TouchUpInside), ()));
                    }
                }
            },
            EventKind::TextInput => {
                if kind == ElementKind::Input && self.bindings.update_binding(handle, node_id, event) {
                    self.bridge.add_target(handle, ControlEvent::EditingChanged);
                    proof {
                        assert(ios_targets(kind, event, old(self).binding_of(handle), node_id)
                            =~= seq![ControlEvent::EditingChanged]);
                        assert(exists|b: &mut B|
                            mut_ref_current(b) == old(self).spec_bridge()
                                && mut_ref_future(b) == self.spec_bridge()
                                && #[trigger] call_ensures(B::add_target, (b, handle, ControlEvent::EditingChanged), ()));
                    }
                }
            },
            EventKind::FocusChanged => {
                if kind == ElementKind::Input && self.bindings.update_binding(handle, node_id, event) {
                    self.bridge.add_target(handle, ControlEvent::EditingDidBegin);
                    self.bridge.add_target(handle, ControlEvent::EditingDidEnd);
                }
            },
            EventKind::Appear | EventKind::Disappear => {
                self.bindings.update_binding(handle, node_id, event);
            },
            EventKind::Scroll => {},
        }
        Ok(())
    }

    fn apply_frame(&mut self, handle: usize, frame: LayoutFrame) -> (r: Result<(), BackendError>)
        ensures
            final(self).wiring() == old(self).wiring(),
            final(self).queued() == old(self).queued(),
            exists|b: &mut B|
                mut_ref_current(b) == old(self).spec_bridge()
                    && mut_ref_future(b) == final(self).spec_bridge()
                    && #[trigger] call_ensures(B::set_frame, (b, handle, frame), r),
    {
        self.bridge.set_frame(handle, frame)
    }

    fn flush(&mut self) -> (r: Result<(), BackendError>)
        ensures
            r is Ok,
            *final(self) == *old(self),
    {
        Ok(())
    }

    fn drain_events(&mut self) -> (r: Vec<UiEvent>)
        ensures
            old(self).queued().len() <= r@.len(),
            r@.subrange(0, old(self).queued().len() as int) == old(self).queued(),
            final(self).wiring() == old(self).wiring(),
            final(self).queued() == Seq::<UiEvent>::empty(),
            exists|b: &mut B, more: Vec<UiEvent>|
                mut_ref_current(b) == old(self).spec_bridge()
                    && mut_ref_future(b) == final(self).spec_bridge()
                    && #[trigger] call_ensures(B::drain_events, (b,), more)
                    && r@ == old(self).queued() + more@,
    {
        let mut events = self.bindings.take_events();
        let mut more = self.bridge.drain_events();
        let ghost reported = more;
        proof {
            assert(exists|b: &mut B|
                mut_ref_current(b) == old(self).spec_bridge()
                    && mut_ref_future(b) == self.spec_bridge()
                    && #[trigger] call_ensures(B::drain_events, (b,), reported));
        }
        events.append(&mut more);
        events
    }
}

/// The text of the refusal when a call comes from another thread than the main thread.
pub open spec fn off_main_thread_message() -> Seq<char> {
    "ios backend requires main thread"@
}

/// The iOS renderer: the executor's state over the views that the adapter creates.
pub struct IosBackend<B> {
    state: WfState<usize>,
    adapter: IosAdapter<B>,
}

impl<B> IosBackend<B> {
    /// The executor state the backend keeps.
    pub closed spec fn state(&self) -> ExecutorState<usize> {
        self.state.inner()
    }

    /// The adapter the backend drives.
    pub closed spec fn adapter(&self) -> IosAdapter<B> {
        self.adapter
    }

    /// A backend with an empty view tree over `bridge`.
    pub fn new(bridge: B) -> (r: Self)
        ensures
            r.state().root() is None,
            r.state().nodes_map() == Map::<UiNodeId, NodeRecord<usize>>::empty(),
            r.adapter().spec_bridge() == bridge,
            r.adapter().host() is None,
    {
        IosBackend { state: WfState::new(), adapter: IosAdapter::new(bridge) }
    }
}

impl<B: IosBridge> IosBackend<B> {
    /// Ok on the main thread; the refusal otherwise.
    pub fn ensure_main_thread(&self) -> (r: Result<(), BackendError>)
        ensures
            exists|on_main_thread: bool|
                #[trigger] call_ensures(B::is_main_thread, (&self.adapter().spec_bridge(),), on_main_thread) && if on_main_thread {
                    r is Ok
                } else {
                    rejected_with(r, off_main_thread_message())
                },
    {
        let on_main_thread = self.adapter.bridge.is_main_thread();
        proof {
            assert(call_ensures(B::is_main_thread, (&self.adapter().spec_bridge(),), on_main_thread));
        }
        if on_main_thread {
            Ok(())
        } else {
            let msg = String::from_str("ios backend requires main thread");
            proof {
                reveal_strlit("ios backend requires main thread");
            }
            Err(BackendError::BatchRejected(msg))
        }
    }
}

impl<B: IosBridge + Send> Backend for IosBackend<B> {
    fn apply_mutations(&mut self, mutations: &[Mutation]) -> (r: Result<(), BackendError>)
        ensures
            final(self).state().wf(),
            r is Ok ==> old(self).state().batch_applied(&final(self).state(), mutations@),
    {
        proof {
            use_type_invariant(&self.state);
        }
        match self.ensure_main_thread() {
            Ok(()) => {},
            Err(e) => {
                return Err(e);
            },
        }
        let mut state = self.state.take();
        let r = state.apply_mutations(&mut self.adapter, mutations);
        self.state.put(state);
        r
    }

    fn apply_layout(&mut self, frames: &[LayoutFrame]) -> (r: Result<(), BackendError>)
        ensures
            final(self).state().wf(),
            final(self).state().nodes_map() == old(self).state().nodes_map(),
            final(self).state().root() == old(self).state().root(),
    {
        proof {
            use_type_invariant(&self.state);
        }
        match self.ensure_main_thread() {
            Ok(()) => {},
            Err(e) => {
                return Err(e);
            },
        }
        let mut state = self.state.take();
        let r = state.apply_layout(frames);
        self.state.put(state);
        r
    }

    fn flush(&mut self) -> (r: Result<(), BackendError>)
        ensures
            final(self).state().wf(),
            final(self).state().nodes_map() == old(self).state().nodes_map(),
            final(self).state().root() == old(self).state().root(),
    {
        proof {
            use_type_invariant(&self.state);
        }
        match self.ensure_main_thread() {
            Ok(()) => {},
            Err(e) => {
                return Err(e);
            },
        }
        let mut state = self.state.take();
        let r = state.flush(&mut self.adapter);
        self.state.put(state);
        r
    }

    fn drain_events(&mut self) -> (r: Vec<UiEvent>)
        ensures
            final(self).state() == old(self).state(),
            final(self).adapter().wiring() == old(self).adapter().wiring(),
            final(self).adapter().queued() == Seq::<UiEvent>::empty(),
            exists|b: &mut B, more: Vec<UiEvent>|
                mut_ref_current(b) == old(self).adapter().spec_bridge()
                    && mut_ref_future(b) == final(self).adapter().spec_bridge()
                    && #[trigger] call_ensures(B::drain_events, (b,), more)
                    && r@ == old(self).adapter().queued() + more@,
    {
        self.adapter.drain_events()
    }
}

/// On every kind of view and whatever its properties, a change of the background color,
/// opacity, corners, full rounding, border, stroke or shadow reapplies the view's whole
/// visual style; a change of the color of a view that holds a color recolors it with that
/// color; a change of the offset moves the frame.
pub proof fn lemma_style_keys_reapply_visual_style(
    kind: ElementKind,
    props: Seq<(PropKey, PropValue)>,
    c: ColorValue,
)
    ensures
        spec_prop_update(kind, props, PropKey::BackgroundColor) == PropUpdate::VisualStyle,
        spec_prop_update(kind, props, PropKey::Opacity) == PropUpdate::VisualStyle,
        spec_prop_update(kind, props, PropKey::CornerRadius) == PropUpdate::VisualStyle,
        spec_prop_update(kind, props, PropKey::CornerRadii) == PropUpdate::VisualStyle,
        spec_prop_update(kind, props, PropKey::FullRound) == PropUpdate::VisualStyle,
        spec_prop_update(kind, props, PropKey::Border) == PropUpdate::VisualStyle,
        spec_prop_update(kind, props, PropKey::Stroke) == PropUpdate::VisualStyle,
        spec_prop_update(kind, props, PropKey::Shadow) == PropUpdate::VisualStyle,
        spec_prop_update(kind, props, PropKey::Offset) == PropUpdate::Frame,
        lookup(props, PropKey::Color) == Some(PropValue::Color(c)) ==> spec_prop_update(
            kind,
            props,
            PropKey::Color,
        ) == PropUpdate::Color(c),
{
}

/// On every view and whatever its other properties: the enabled flag, when it holds a
/// flag, reaches the view; focus reaches inputs only and is refused on every other kind;
/// an image source that holds a text reaches the view; a font change on a text, button or
/// input with no font set asks for the regular weight at 17 points; layout properties ask
/// for nothing.
pub proof fn lemma_value_keys_reach_the_view(
    kind: ElementKind,
    props: Seq<(PropKey, PropValue)>,
    b: bool,
    src: String,
)
    ensures
        lookup(props, PropKey::Enabled) == Some(PropValue::Bool(b)) ==> spec_prop_update(
            kind,
            props,
            PropKey::Enabled,
        ) == PropUpdate::Enabled(b),
        kind != ElementKind::Input ==> spec_prop_update(kind, props, PropKey::Focused)
            == PropUpdate::UnsupportedFocus,
        kind == ElementKind::Input && lookup(props, PropKey::Focused) == Some(PropValue::Bool(b))
            ==> spec_prop_update(kind, props, PropKey::Focused) == PropUpdate::Focus(b),
        lookup(props, PropKey::Source) == Some(PropValue::String(src)) ==> spec_prop_update(
            kind,
            props,
            PropKey::Source,
        ) == PropUpdate::Source(src),
        takes_text(kind) && lookup(props, PropKey::FontSize) is None && lookup(
            props,
            PropKey::FontWeight,
        ) is None ==> spec_prop_update(kind, props, PropKey::FontSize) == PropUpdate::Font(
            ios_default_font_size(),
            FontWeight::Regular,
        ),
        !takes_text(kind) ==> spec_prop_update(kind, props, PropKey::FontSize) == PropUpdate::Nothing,
        spec_prop_update(kind, props, PropKey::Width) == PropUpdate::Nothing,
        spec_prop_update(kind, props, PropKey::Padding) == PropUpdate::Nothing,
        spec_prop_update(kind, props, PropKey::Axis) == PropUpdate::Nothing,
{
}

} // verus!
