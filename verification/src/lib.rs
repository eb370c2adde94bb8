//! An event emitter: listeners subscribe to named events, each with an
//! optional limit on how many emits it answers, and an emit says which
//! listeners are to be called, in the order they subscribed.

pub mod emitter;
pub mod laws;
pub mod listener;
pub mod table;

pub use emitter::AsyncEventEmitter;
pub use listener::AsyncListener;
