# async-event-emitter

Listeners subscribe to named events, each with an optional limit on the
number of emits it answers; an emit says which listeners are to be called,
in the order they subscribed, and what becomes of each.

- `src/` is the verified library (Verus):
  - `listener.rs`: listeners, and what one emit does to the listeners of an
    event (`plan_emit`), stated over `emit_fired`, `emit_kept` and
    `emit_dropped`.
  - `table.rs`: the `DashMap` from event names to listeners, seen through
    `listener_table`, and the random ids of new listeners (`uuid`).
  - `emitter.rs`: `AsyncEventEmitter`: `new`, `emit`, `has_listeners`, `on`, `once`,
    `on_limited`, `add_listener`, `remove_listener`.
  - `laws.rs`: laws over several emits and over adding and removing.
- `app/` holds the asynchronous front: callbacks kept by listener id,
  `bincode` (de)serialization of emitted values, and the futures that run
  the callbacks.
- `tests/` runs the library on concrete events.
