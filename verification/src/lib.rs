//! A reactive UI core: a canonical mutation protocol shared by the runtime and the
//! native renderers, a virtual tree differ that emits mutations, and the executor that
//! applies mutations to a native view tree while keeping it a well-formed tree.

pub mod float32;
pub mod layout;
pub mod mutation;
pub mod events;
pub mod backend;
pub mod props;
pub mod messages;
pub mod tree;
pub mod executor;
pub mod pending;
pub mod view;
pub mod dsl;
pub mod diff;
pub mod vdom;
pub mod codes;
pub mod signal;
pub mod cleanup;
pub mod dev;
pub mod runtime;
pub mod prop_access;
pub mod bindings;
pub mod guarded;
pub mod android;
pub mod ios;
pub mod layout_plan;
pub mod widgets;
