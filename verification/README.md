# mf_ui

The core of a reactive native UI toolkit, verified with Verus.

`src/` is the library. Every function in it is checked by Verus against its contract.

- `mutation`, `layout`, `events`, `props`, `float32`: the protocol that runs between the
  runtime and the renderers: mutations, typed property values in insertion order, layout
  frames, events, and `f32` values held as their IEEE-754 bits.
- `view`, `dsl`, `diff`, `widgets`, `vdom`, `runtime`: views and widgets, the canonical
  tree built from them, the differ that turns two trees into mutations, and the runtime
  that keeps node ids stable across renders.
- `tree`, `executor`, `pending`, `messages`: the executor that applies mutation batches to
  a native view tree and keeps that tree well formed, with the exact texts of its refusals.
- `layout_plan`: the layout decisions for each node. The flexbox arithmetic is left to the
  host.
- `android`, `ios`, `bindings`, `prop_access`, `guarded`, `codes`: the platform adapters
  over bridges to the native view systems, listener wiring, typed property reads, and the
  numeric codes shared with native code.
- `signal`, `cleanup`: signals with batched notification and read tracking, and cleanup
  scopes.
- `dev`: the messages of the development loop and what the server, the worker and the
  preview renderer do with each of them.

`app/` is plain Rust around the library. It holds the per-thread signal host, the render
loop, the taffy layout, the logging backends, the JSON wire copies of the protocol types,
and the dev server and worker I/O.

`tests/` runs the library on concrete cases.

Views are built with `View::new` and `View::fragment` (or a `WithChildren` container);
the crate has no view-building macro, since a procedural macro needs a crate of its own.
The example apps and their C entry points for an iOS host are not part of this crate.
