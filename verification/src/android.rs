//! The Android platform adapter: it forwards the executor's calls to a bridge into the
//! Android view system, turns visual properties into bridge calls, wires each listener
//! once per control, and queues appear and disappear events from the wiring it recorded.

use vstd::prelude::*;
use crate::backend::{Backend, BackendError};
use crate::bindings::{rebound, wired, with_event, BindingStore, ControlBinding};
use crate::events::UiEvent;
use crate::executor::{ExecutorState, PlatformAdapter};
use crate::tree::NodeRecord;
use crate::guarded::WfState;
use crate::float32::Fp32;
use crate::layout::LayoutFrame;
use crate::messages::rejected_with;
use crate::mutation::{Mutation, ColorValue, ElementKind, EventKind, FontWeight, PropKey, PropValue, UiNodeId};
use crate::props::{lookup, PropMap};


verus! {

/// The calls that the Android view system answers.
pub trait AndroidBridge {
    fn is_ui_thread(&self) -> bool;

    fn create_view(&mut self, kind: ElementKind, text: Option<&str>) -> Result<usize, BackendError>;

    fn attach_root(&mut self, node_id: UiNodeId, handle: usize) -> Result<(), BackendError>;

    fn detach_root(&mut self, node_id: UiNodeId, handle: usize) -> Result<(), BackendError>;

    fn insert_child(&mut self, parent: usize, child_id: UiNodeId, child: usize, index: usize) -> Result<
        (),
        BackendError,
    >;

    fn remove_child(&mut self, parent: usize, child: usize) -> Result<(), BackendError>;

    fn remove_view(&mut self, node_id: UiNodeId, handle: usize, listeners: &[EventKind]) -> Result<
        (),
        BackendError,
    >;

    fn set_text(&mut self, kind: ElementKind, handle: usize, text: &str) -> Result<(), BackendError>;

    fn set_color(&mut self, kind: ElementKind, handle: usize, color: ColorValue) -> Result<
        (),
        BackendError,
    >;

    fn set_background_color(&mut self, handle: usize, color: ColorValue) -> Result<(), BackendError>;

    fn set_font(&mut self, kind: ElementKind, handle: usize, size: Fp32, weight: FontWeight) -> Result<
        (),
        BackendError,
    >;

    fn set_corner_radius(&mut self, handle: usize, radius: Fp32) -> Result<(), BackendError>;

    fn set_enabled(&mut self, handle: usize, enabled: bool) -> Result<(), BackendError>;

    fn set_source(&mut self, handle: usize, source: &str) -> Result<(), BackendError>;

    fn bind_tap(&mut self, handle: usize, node_id: UiNodeId) -> Result<(), BackendError>;

    fn bind_text_input(&mut self, handle: usize, node_id: UiNodeId) -> Result<(), BackendError>;

    fn apply_frame(&mut self, handle: usize, frame: LayoutFrame) -> Result<(), BackendError>;

    fn flush(&mut self) -> Result<(), BackendError>;

    fn drain_events(&mut self) -> (r: Vec<UiEvent>)
        default_ensures
            r@ == Seq::<UiEvent>::empty(),
    {
        Vec::new()
    }
}

/// The font size used when a node sets none (14 points).
pub open spec fn default_font_size() -> Fp32 {
    Fp32 { bits: 0x4160_0000 }
}

/// Whether a control whose binding is `binding` appears as `node_id` when it is attached:
/// it shows that node and is wired for appearing.
pub open spec fn appears(binding: Option<ControlBinding>, node_id: UiNodeId) -> bool {
    match binding {
        Some(b) => b.appear && b.node_id == node_id,
        None => false,
    }
}

/// Whether the adapter records a listener for `event` on a control of `kind`: taps on
/// buttons, text input on inputs, and the focus, appear and disappear listeners on any
/// control; scrolling is not wired.
pub open spec fn records_listener(kind: ElementKind, event: EventKind) -> bool {
    match event {
        EventKind::Tap => kind == ElementKind::Button,
        EventKind::TextInput => kind == ElementKind::Input,
        EventKind::Scroll => false,
        _ => true,
    }
}

/// Whether attaching `event` to a control of `kind` whose binding was `previous` asks the
/// bridge to wire it: a tap or text-input listener the control was not wired for yet.
pub open spec fn bridge_wires(
    kind: ElementKind,
    event: EventKind,
    previous: Option<ControlBinding>,
    node_id: UiNodeId,
) -> bool {
    &&& (event == EventKind::Tap || event == EventKind::TextInput)
    &&& records_listener(kind, event)
    &&& !wired(rebound(previous, node_id), event)
}

/// The Android adapter over `bridge`, with the wiring of its controls.
pub struct AndroidAdapter<B> {
    pub bridge: B,
    bindings: BindingStore,
}

impl<B> AndroidAdapter<B> {
    /// The bridge that the adapter drives.
    pub closed spec fn spec_bridge(&self) -> B {
        self.bridge
    }

    /// The wiring recorded for the adapter's controls, by handle.
    pub closed spec fn wiring(&self) -> Map<usize, ControlBinding> {
        self.bindings.spec_bindings()
    }

    /// The events the adapter queued itself, oldest first.
    pub closed spec fn queued(&self) -> Seq<UiEvent> {
        self.bindings.spec_events()
    }

    /// The binding recorded for the control `handle`, if any.
    pub open spec fn binding_of(&self, handle: usize) -> Option<ControlBinding> {
        if self.wiring().contains_key(handle) {
            Some(self.wiring()[handle])
        } else {
            None
        }
    }

    /// An adapter over `bridge` with no control wired yet.
    pub fn new(bridge: B) -> (r: Self)
        ensures
            r.spec_bridge() == bridge,
            r.wiring() == Map::<usize, ControlBinding>::empty(),
            r.queued() == Seq::<UiEvent>::empty(),
    {
        AndroidAdapter { bridge, bindings: BindingStore::new() }
    }
}

impl<B: AndroidBridge> AndroidAdapter<B> {
    /// What the bridge answers when asked whether the caller is on the UI thread.
    pub fn is_ui_thread(&self) -> (r: bool)
        ensures
            call_ensures(B::is_ui_thread, (&self.spec_bridge(),), r),
    {
        self.bridge.is_ui_thread()
    }
}

impl<B: AndroidBridge> PlatformAdapter for AndroidAdapter<B> {
    type Handle = usize;

    fn create_view(&mut self, kind: ElementKind, text: Option<&str>) -> (r: Result<
        usize,
        BackendError,
    >)
        ensures
            final(self).wiring() == old(self).wiring(),
            final(self).queued() == old(self).queued(),
            exists|b: &mut B|
                mut_ref_current(b) == old(self).spec_bridge()
                    && mut_ref_future(b) == final(self).spec_bridge()
                    && #[trigger] call_ensures(B::create_view, (b, kind, text), r),
    {
        self.bridge.create_view(kind, text)
    }

    fn attach_root(&mut self, node_id: UiNodeId, handle: usize) -> (r: Result<(), BackendError>)
        ensures
            final(self).wiring() == old(self).wiring(),
            final(self).queued() == if r is Ok && appears(old(self).binding_of(handle), node_id) {
                old(self).queued().push(UiEvent::Appear { id: node_id })
            } else {
                old(self).queued()
            },
            exists|b: &mut B|
                mut_ref_current(b) == old(self).spec_bridge()
                    && mut_ref_future(b) == final(self).spec_bridge()
                    && #[trigger] call_ensures(B::attach_root, (b, node_id, handle), r),
    {
        let answer = self.bridge.attach_root(node_id, handle);
        proof {
            assert(exists|b: &mut B|
                mut_ref_current(b) == old(self).spec_bridge()
                    && mut_ref_future(b) == self.spec_bridge()
                    && #[trigger] call_ensures(B::attach_root, (b, node_id, handle), answer));
        }
        if answer.is_err() {
            return answer;
        }
        let ghost after = self.spec_bridge();
        self.bindings.emit_appear_if_needed(node_id, handle);
        proof {
            assert(self.spec_bridge() == after);
        }
        answer
    }

    fn detach_root(&mut self, node_id: UiNodeId, handle: usize) -> (r: Result<(), BackendError>)
        ensures
            final(self).wiring() == old(self).wiring(),
            final(self).queued() == old(self).queued(),
            exists|b: &mut B|
                mut_ref_current(b) == old(self).spec_bridge()
                    && mut_ref_future(b) == final(self).spec_bridge()
                    && #[trigger] call_ensures(B::detach_root, (b, node_id, handle), r),
    {
        self.bridge.detach_root(node_id, handle)
    }

    fn insert_child(&mut self, parent: usize, child_id: UiNodeId, child: usize, index: usize) -> (r:
        Result<(), BackendError>)
        ensures
            final(self).wiring() == old(self).wiring(),
            final(self).queued() == if r is Ok && appears(old(self).binding_of(child), child_id) {
                old(self).queued().push(UiEvent::Appear { id: child_id })
            } else {
                old(self).queued()
            },
            exists|b: &mut B|
                mut_ref_current(b) == old(self).spec_bridge()
                    && mut_ref_future(b) == final(self).spec_bridge()
                    && #[trigger] call_ensures(B::insert_child, (b, parent, child_id, child, index), r),
    {
        let answer = self.bridge.insert_child(parent, child_id, child, index);
        proof {
            assert(exists|b: &mut B|
                mut_ref_current(b) == old(self).spec_bridge()
                    && mut_ref_future(b) == self.spec_bridge()
                    && #[trigger] call_ensures(B::insert_child, (b, parent, child_id, child, index), answer));
        }
        if answer.is_err() {
            return answer;
        }
        let ghost after = self.spec_bridge();
        self.bindings.emit_appear_if_needed(child_id, child);
        proof {
            assert(self.spec_bridge() == after);
        }
        answer
    }

    fn remove_child(&mut self, parent: usize, child: usize) -> (r: Result<(), BackendError>)
        ensures
            final(self).wiring() == old(self).wiring(),
            final(self).queued() == old(self).queued(),
            exists|b: &mut B|
                mut_ref_current(b) == old(self).spec_bridge()
                    && mut_ref_future(b) == final(self).spec_bridge()
                    && #[trigger] call_ensures(B::remove_child, (b, parent, child), r),
    {
        self.bridge.remove_child(parent, child)
    }

    fn remove_view(&mut self, node_id: UiNodeId, handle: usize, listeners: &[EventKind]) -> (r:
        Result<(), BackendError>)
        ensures
            final(self).wiring() == old(self).wiring().remove(handle),
            final(self).queued() == if listeners@.contains(EventKind::Disappear) {
                old(self).queued().push(UiEvent::Disappear { id: node_id })
            } else {
                old(self).queued()
            },
    {
        if lists_event(listeners, EventKind::Disappear) {
            self.bindings.queue_event(UiEvent::Disappear { id: node_id });
        }
        self.bindings.unregister_binding(handle);
        self.bridge.remove_view(node_id, handle, listeners)
    }

    fn set_text(&mut self, kind: ElementKind, handle: usize, text: &str) -> (r: Result<
        (),
        BackendError,
    >)
        ensures
            final(self).wiring() == old(self).wiring(),
            final(self).queued() == old(self).queued(),
            exists|b: &mut B|
                mut_ref_current(b) == old(self).spec_bridge()
                    && mut_ref_future(b) == final(self).spec_bridge()
                    && #[trigger] call_ensures(B::set_text, (b, kind, handle, text), r),
    {
        self.bridge.set_text(kind, handle, text)
    }

    fn set_prop(&mut self, kind: ElementKind, handle: usize, props: &PropMap, key: PropKey) -> (r:
        Result<(), BackendError>)
        ensures
            final(self).wiring() == old(self).wiring(),
            final(self).queued() == old(self).queued(),
            match key {
                PropKey::Color => match lookup(props@, key) {
                    Some(PropValue::Color(c)) => exists|b: &mut B|
                    mut_ref_current(b) == old(self).spec_bridge()
                        && mut_ref_future(b) == final(self).spec_bridge()
                        && #[trigger] call_ensures(B::set_color, (b, kind, handle, c), r),
                    _ => r is Ok && final(self).spec_bridge() == old(self).spec_bridge(),
                },
                PropKey::BackgroundColor => match lookup(props@, key) {
                    Some(PropValue::Color(c)) => exists|b: &mut B|
                    mut_ref_current(b) == old(self).spec_bridge()
                        && mut_ref_future(b) == final(self).spec_bridge()
                        && #[trigger] call_ensures(B::set_background_color, (b, handle, c), r),
                    _ => r is Ok && final(self).spec_bridge() == old(self).spec_bridge(),
                },
                PropKey::FontSize | PropKey::FontWeight => match android_font(props@) {
                    Some((size, weight)) => exists|b: &mut B|
                    mut_ref_current(b) == old(self).spec_bridge()
                        && mut_ref_future(b) == final(self).spec_bridge()
                        && #[trigger] call_ensures(B::set_font, (b, kind, handle, size, weight), r),
                    None => r is Ok && final(self).spec_bridge() == old(self).spec_bridge(),
                },
                PropKey::CornerRadius => match lookup(props@, key) {
                    Some(PropValue::Float(v)) => exists|b: &mut B|
                    mut_ref_current(b) == old(self).spec_bridge()
                        && mut_ref_future(b) == final(self).spec_bridge()
                        && #[trigger] call_ensures(B::set_corner_radius, (b, handle, v), r),
                    _ => r is Ok && final(self).spec_bridge() == old(self).spec_bridge(),
                },
                PropKey::Enabled => match lookup(props@, key) {
                    Some(PropValue::Bool(v)) => exists|b: &mut B|
                    mut_ref_current(b) == old(self).spec_bridge()
                        && mut_ref_future(b) == final(self).spec_bridge()
                        && #[trigger] call_ensures(B::set_enabled, (b, handle, v), r),
                    _ => r is Ok && final(self).spec_bridge() == old(self).spec_bridge(),
                },
                PropKey::Source => match lookup(props@, key) {
                    Some(PropValue::String(v)) => exists|b: &mut B, src: &str|
                        src@ == v@
                        && mut_ref_current(b) == old(self).spec_bridge()
                        && mut_ref_future(b) == final(self).spec_bridge()
                        && #[trigger] call_ensures(B::set_source, (b, handle, src), r),
                    _ => r is Ok && final(self).spec_bridge() == old(self).spec_bridge(),
                },
                _ => r is Ok && final(self).spec_bridge() == old(self).spec_bridge(),
            },
    {
        match key {
            PropKey::Color => match props.get(PropKey::Color) {
                Some(PropValue::Color(color)) => self.bridge.set_color(kind, handle, *color),
                _ => Ok(()),
            },
            PropKey::BackgroundColor => match props.get(PropKey::BackgroundColor) {
                Some(PropValue::Color(color)) => self.bridge.set_background_color(handle, *color),
                _ => Ok(()),
            },
            PropKey::FontSize | PropKey::FontWeight => {
                match font_of(props) {
                    Some((size, weight)) => self.bridge.set_font(kind, handle, size, weight),
                    None => Ok(()),
                }
            },
            PropKey::CornerRadius => match props.get(PropKey::CornerRadius) {
                Some(PropValue::Float(radius)) => self.bridge.set_corner_radius(handle, *radius),
                _ => Ok(()),
            },
            PropKey::Enabled => match props.get(PropKey::Enabled) {
                Some(PropValue::Bool(enabled)) => self.bridge.set_enabled(handle, *enabled),
                _ => Ok(()),
            },
            PropKey::Source => match props.get(PropKey::Source) {
                Some(PropValue::String(source)) => self.bridge.set_source(handle, source.as_str()),
                _ => Ok(()),
            },
            _ => Ok(()),
        }
    }

    fn unset_prop(&mut self, kind: ElementKind, handle: usize, props: &PropMap, key: PropKey) -> (r:
        Result<(), BackendError>)
        ensures
            r is Ok,
            final(self).wiring() == old(self).wiring(),
            final(self).queued() == old(self).queued(),
            final(self).spec_bridge() == old(self).spec_bridge(),
    {
        Ok(())
    }

    fn attach_listener(&mut self, kind: ElementKind, handle: usize, node_id: UiNodeId, event: EventKind) -> (r:
        Result<(), BackendError>)
        ensures
            final(self).wiring() == if records_listener(kind, event) {
                old(self).wiring().insert(
                    handle,
                    with_event(rebound(old(self).binding_of(handle), node_id), event),
                )
            } else {
                old(self).wiring()
            },
            final(self).queued() == old(self).queued(),
            !bridge_wires(kind, event, old(self).binding_of(handle), node_id) ==> r is Ok
                && final(self).spec_bridge() == old(self).spec_bridge(),
            bridge_wires(kind, event, old(self).binding_of(handle), node_id) && event == EventKind::Tap
                ==> exists|b: &mut B|
                mut_ref_current(b) == old(self).spec_bridge()
                    && mut_ref_future(b) == final(self).spec_bridge()
                    && #[trigger] call_ensures(B::bind_tap, (b, handle, node_id), r),
            bridge_wires(kind, event, old(self).binding_of(handle), node_id) && event
                == EventKind::TextInput ==> exists|b: &mut B|
                mut_ref_current(b) == old(self).spec_bridge()
                    && mut_ref_future(b) == final(self).spec_bridge()
                    && #[trigger] call_ensures(B::bind_text_input, (b, handle, node_id), r),
    {
        match event {
            EventKind::Tap => {
                if kind != ElementKind::Button {
                    return Ok(());
                }
                if self.bindings.update_binding(handle, node_id, EventKind::Tap) {
                    self.bridge.bind_tap(handle, node_id)
                } else {
                    Ok(())
                }
            },
            EventKind::TextInput => {
                if kind != ElementKind::Input {
                    return Ok(());
                }
                if self.bindings.update_binding(handle, node_id, EventKind::TextInput) {
                    self.bridge.bind_text_input(handle, node_id)
                } else {
                    Ok(())
                }
            },
            EventKind::Appear | EventKind::Disappear | EventKind::FocusChanged => {
                self.bindings.update_binding(handle, node_id, event);
                Ok(())
            },
            EventKind::Scroll => Ok(()),
        }
    }

    fn apply_frame(&mut self, handle: usize, frame: LayoutFrame) -> (r: Result<(), BackendError>)
        ensures
            final(self).wiring() == old(self).wiring(),
            final(self).queued() == old(self).queued(),
            exists|b: &mut B|
                mut_ref_current(b) == old(self).spec_bridge()
                    && mut_ref_future(b) == final(self).spec_bridge()
                    && #[trigger] call_ensures(B::apply_frame, (b, handle, frame), r),
    {
        self.bridge.apply_frame(handle, frame)
    }

    fn flush(&mut self) -> (r: Result<(), BackendError>)
        ensures
            final(self).wiring() == old(self).wiring(),
            final(self).queued() == old(self).queued(),
            exists|b: &mut B|
                mut_ref_current(b) == old(self).spec_bridge()
                    && mut_ref_future(b) == final(self).spec_bridge()
                    && #[trigger] call_ensures(B::flush, (b,), r),
    {
        self.bridge.flush()
    }

    fn drain_events(&mut self) -> (r: Vec<UiEvent>)
        ensures
            old(self).queued().len() <= r@.len(),
            r@.subrange(0, old(self).queued().len() as int) == old(self).queued(),
            final(self).wiring() == old(self).wiring(),
            final(self).queued() == Seq::<UiEvent>::empty(),
            exists|b: &mut B, more: Vec<UiEvent>|
                mut_ref_current(b) == old(self).spec_bridge()
                    && mut_ref_future(b) == final(self).spec_bridge()
                    && #[trigger] call_ensures(B::drain_events, (b,), more)
                    && r@ == old(self).queued() + more@,
    {
        let mut events = self.bindings.take_events();
        let mut more = self.bridge.drain_events();
        let ghost reported = more;
        proof {
            assert(exists|b: &mut B|
                mut_ref_current(b) == old(self).spec_bridge()
                    && mut_ref_future(b) == self.spec_bridge()
                    && #[trigger] call_ensures(B::drain_events, (b,), reported));
        }
        events.append(&mut more);
        events
    }
}

/// Whether `listeners` lists `event`.
pub fn lists_event(listeners: &[EventKind], event: EventKind) -> (r: bool)
    ensures
        r == listeners@.contains(event),
{
    let mut i: usize = 0;
    while i < listeners.len()
        invariant
            i <= listeners@.len(),
            forall|j: int| 0 <= j < i ==> listeners@[j] != event,
        decreases listeners@.len() - i,
    {
        if listeners[i] == event {
            proof {
                assert(listeners@[i as int] == event);
            }
            return true;
        }
        i = i + 1;
    }
    false
}

/// The font a node's properties set: its size (14 points when unset) and weight (regular
/// when unset); none when either property holds a value of another kind.
pub open spec fn android_font(props: Seq<(PropKey, PropValue)>) -> Option<(Fp32, FontWeight)> {
    match lookup(props, PropKey::FontSize) {
        Some(PropValue::Float(size)) => match lookup(props, PropKey::FontWeight) {
            Some(PropValue::FontWeight(w)) => Some((size, w)),
            None => Some((size, FontWeight::Regular)),
            Some(_) => None,
        },
        None => match lookup(props, PropKey::FontWeight) {
            Some(PropValue::FontWeight(w)) => Some((default_font_size(), w)),
            None => Some((default_font_size(), FontWeight::Regular)),
            Some(_) => None,
        },
        Some(_) => None,
    }
}

/// The font the node sets: its size (14 points when unset) and weight (regular when unset);
/// none when either property holds a value of another kind.
pub fn font_of(props: &PropMap) -> (r: Option<(Fp32, FontWeight)>)
    requires
        props.wf(),
    ensures
        r == android_font(props@),
{
    match crate::prop_access::font(props, Fp32::from_bits(0x4160_0000)) {
        Ok(font) => Some(font),
        Err(_) => None,
    }
}

/// The text of the refusal when a call comes from another thread than the UI thread.
pub open spec fn off_ui_thread_message() -> Seq<char> {
    "android backend requires UI thread"@
}

/// Ok when the bridge says the caller is on the UI thread; the refusal otherwise.
pub fn ensure_ui_thread<B: AndroidBridge>(adapter: &AndroidAdapter<B>) -> (r: Result<(), BackendError>)
    ensures
        exists|on_ui_thread: bool|
            #[trigger] call_ensures(B::is_ui_thread, (&adapter.spec_bridge(),), on_ui_thread) && if on_ui_thread {
                r is Ok
            } else {
                rejected_with(r, off_ui_thread_message())
            },
{
    if adapter.is_ui_thread() {
        Ok(())
    } else {
        let msg = String::from_str("android backend requires UI thread");
        proof {
            reveal_strlit("android backend requires UI thread");
        }
        Err(BackendError::BatchRejected(msg))
    }
}

/// The Android renderer: the executor's state over the views that the adapter creates.
pub struct AndroidBackend<B> {
    state: WfState<usize>,
    adapter: AndroidAdapter<B>,
}

impl<B> AndroidBackend<B> {
    /// The executor state the backend keeps.
    pub closed spec fn state(&self) -> ExecutorState<usize> {
        self.state.inner()
    }

    /// The adapter the backend drives.
    pub closed spec fn adapter(&self) -> AndroidAdapter<B> {
        self.adapter
    }

    /// A backend with an empty view tree over `bridge`.
    pub fn new(bridge: B) -> (r: Self)
        ensures
            r.state().root() is None,
            r.state().nodes_map() == Map::<UiNodeId, NodeRecord<usize>>::empty(),
            r.adapter().spec_bridge() == bridge,
    {
        AndroidBackend {
            state: WfState::new(),
            adapter: AndroidAdapter::new(bridge),
        }
    }
}

impl<B: AndroidBridge + Send> Backend for AndroidBackend<B> {
    fn apply_mutations(&mut self, mutations: &[Mutation]) -> (r: Result<(), BackendError>)
        ensures
            final(self).state().wf(),
            r is Ok ==> old(self).state().batch_applied(&final(self).state(), mutations@),
    {
        proof {
            use_type_invariant(&self.state);
        }
        match ensure_ui_thread(&self.adapter) {
            Ok(()) => {},
            Err(e) => {
                return Err(e);
            },
        }
        let mut state = self.state.take();
        let r = state.apply_mutations(&mut self.adapter, mutations);
        self.state.put(state);
        r
    }

    fn apply_layout(&mut self, frames: &[LayoutFrame]) -> (r: Result<(), BackendError>)
        ensures
            final(self).state().wf(),
            final(self).state().nodes_map() == old(self).state().nodes_map(),
            final(self).state().root() == old(self).state().root(),
    {
        proof {
            use_type_invariant(&self.state);
        }
        match ensure_ui_thread(&self.adapter) {
            Ok(()) => {},
            Err(e) => {
                return Err(e);
            },
        }
        let mut state = self.state.take();
        let r = state.apply_layout(frames);
        self.state.put(state);
        r
    }

    fn flush(&mut self) -> (r: Result<(), BackendError>)
        ensures
            final(self).state().wf(),
            final(self).state().nodes_map() == old(self).state().nodes_map(),
            final(self).state().root() == old(self).state().root(),
    {
        proof {
            use_type_invariant(&self.state);
        }
        match ensure_ui_thread(&self.adapter) {
            Ok(()) => {},
            Err(e) => {
                return Err(e);
            },
        }
        let mut state = self.state.take();
        let r = state.flush(&mut self.adapter);
        self.state.put(state);
        r
    }

    fn drain_events(&mut self) -> (r: Vec<UiEvent>)
        ensures
            final(self).state() == old(self).state(),
            final(self).adapter().wiring() == old(self).adapter().wiring(),
            final(self).adapter().queued() == Seq::<UiEvent>::empty(),
            exists|b: &mut B, more: Vec<UiEvent>|
                mut_ref_current(b) == old(self).adapter().spec_bridge()
                    && mut_ref_future(b) == final(self).adapter().spec_bridge()
                    && #[trigger] call_ensures(B::drain_events, (b,), more)
                    && r@ == old(self).adapter().queued() + more@,
    {
        self.adapter.drain_events()
    }
}

} // verus!
