//! Which listeners each native control has been wired for, and the events queued for the
//! runtime.

use vstd::prelude::*;
use std::collections::HashMap;
use crate::events::UiEvent;
use crate::mutation::{EventKind, UiNodeId};

verus! {

broadcast use vstd::std_specs::hash::group_hash_axioms;

/// The listeners wired for one native control, and the node it shows.
#[derive(Clone, Copy, Debug, PartialEq, Eq, Structural)]
pub struct ControlBinding {
    pub node_id: UiNodeId,
    pub tap: bool,
    pub text_input: bool,
    pub focus_changed: bool,
    pub appear: bool,
    pub disappear: bool,
}

/// Whether `binding` is wired for `event`.
pub open spec fn wired(binding: ControlBinding, event: EventKind) -> bool {
    match event {
        EventKind::Tap => binding.tap,
        EventKind::TextInput => binding.text_input,
        EventKind::FocusChanged => binding.focus_changed,
        EventKind::Appear => binding.appear,
        EventKind::Disappear => binding.disappear,
        EventKind::Scroll => false,
    }
}

/// `binding` wired for `event` as well (scrolling has no flag).
pub open spec fn with_event(binding: ControlBinding, event: EventKind) -> ControlBinding {
    match event {
        EventKind::Tap => ControlBinding { tap: true, ..binding },
        EventKind::TextInput => ControlBinding { text_input: true, ..binding },
        EventKind::FocusChanged => ControlBinding { focus_changed: true, ..binding },
        EventKind::Appear => ControlBinding { appear: true, ..binding },
        EventKind::Disappear => ControlBinding { disappear: true, ..binding },
        EventKind::Scroll => binding,
    }
}

/// The binding of a control after it shows `node_id`: its flags kept if it had one.
pub open spec fn rebound(previous: Option<ControlBinding>, node_id: UiNodeId) -> ControlBinding {
    match previous {
        Some(b) => ControlBinding { node_id, ..b },
        None => ControlBinding {
            node_id,
            tap: false,
            text_input: false,
            focus_changed: false,
            appear: false,
            disappear: false,
        },
    }
}

/// The bindings of the native controls, by handle, and the queued events.
pub struct BindingStore {
    bindings: HashMap<usize, ControlBinding>,
    events: Vec<UiEvent>,
}

impl BindingStore {
    pub closed spec fn spec_bindings(&self) -> Map<usize, ControlBinding> {
        self.bindings@
    }

    pub closed spec fn spec_events(&self) -> Seq<UiEvent> {
        self.events@
    }

    /// A store with no binding and no event.
    pub fn new() -> (r: Self)
        ensures
            r.spec_bindings() == Map::<usize, ControlBinding>::empty(),
            r.spec_events() == Seq::<UiEvent>::empty(),
    {
        BindingStore { bindings: HashMap::new(), events: Vec::new() }
    }

    /// The binding of the control `handle`, if any.
    pub fn binding(&self, handle: usize) -> (r: Option<ControlBinding>)
        ensures
            r == if self.spec_bindings().contains_key(handle) {
                Some(self.spec_bindings()[handle])
            } else {
                None
            },
    {
        match self.bindings.get(&handle) {
            Some(b) => Some(*b),
            None => None,
        }
    }

    /// Records that the control `handle` shows `node_id` and is wired for `event`; returns
    /// whether it was not wired for it yet.
    pub fn update_binding(&mut self, handle: usize, node_id: UiNodeId, event: EventKind) -> (r: bool)
        ensures
            ({
                let previous = if old(self).spec_bindings().contains_key(handle) {
                    Some(old(self).spec_bindings()[handle])
                } else {
                    None
                };
                &&& final(self).spec_bindings() == old(self).spec_bindings().insert(
                    handle,
                    with_event(rebound(previous, node_id), event),
                )
                &&& r == !wired(rebound(previous, node_id), event)
            }),
            final(self).spec_events() == old(self).spec_events(),
    {
        let current = match self.bindings.get(&handle) {
            Some(b) => ControlBinding { node_id, ..*b },
            None => ControlBinding {
                node_id,
                tap: false,
                text_input: false,
                focus_changed: false,
                appear: false,
                disappear: false,
            },
        };
        let (fresh, updated) = match event {
            EventKind::Tap => (!current.tap, ControlBinding { tap: true, ..current }),
            EventKind::TextInput => (
                !current.text_input,
                ControlBinding { text_input: true, ..current },
            ),
            EventKind::FocusChanged => (
                !current.focus_changed,
                ControlBinding { focus_changed: true, ..current },
            ),
            EventKind::Appear => (!current.appear, ControlBinding { appear: true, ..current }),
            EventKind::Disappear => (
                !current.disappear,
                ControlBinding { disappear: true, ..current },
            ),
            EventKind::Scroll => (true, current),
        };
        self.bindings.insert(handle, updated);
        fresh
    }

    /// Forgets the control `handle`.
    pub fn unregister_binding(&mut self, handle: usize)
        ensures
            final(self).spec_bindings() == old(self).spec_bindings().remove(handle),
            final(self).spec_events() == old(self).spec_events(),
    {
        self.bindings.remove(&handle);
    }

    /// Queues `event`.
    pub fn queue_event(&mut self, event: UiEvent)
        ensures
            final(self).spec_events() == old(self).spec_events().push(event),
            final(self).spec_bindings() == old(self).spec_bindings(),
    {
        self.events.push(event);
    }

    /// Queues `Appear` for `node_id` when the control `handle` shows it and is wired for
    /// appearing.
    pub fn emit_appear_if_needed(&mut self, node_id: UiNodeId, handle: usize)
        ensures
            final(self).spec_bindings() == old(self).spec_bindings(),
            final(self).spec_events() == if old(self).spec_bindings().contains_key(handle)
                && old(self).spec_bindings()[handle].appear && old(self).spec_bindings()[handle].node_id
                == node_id {
                old(self).spec_events().push(UiEvent::Appear { id: node_id })
            } else {
                old(self).spec_events()
            },
    {
        match self.bindings.get(&handle) {
            Some(b) => {
                if b.appear && b.node_id == node_id {
                    self.events.push(UiEvent::Appear { id: node_id });
                }
            },
            None => {},
        }
    }

    /// The queued events, oldest first; the queue is empty afterwards.
    pub fn take_events(&mut self) -> (r: Vec<UiEvent>)
        ensures
            r@ == old(self).spec_events(),
            final(self).spec_events() == Seq::<UiEvent>::empty(),
            final(self).spec_bindings() == old(self).spec_bindings(),
    {
        let mut taken: Vec<UiEvent> = Vec::new();
        std::mem::swap(&mut taken, &mut self.events);
        taken
    }
}

} // verus!
