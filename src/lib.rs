//! A process-wide registry for one Java virtual machine, the execution
//! contexts derived from it, and a per-thread cache of resolved classes.
//!
//! Every item here is a plain value: the process-wide slot and the
//! thread-local cache are owned by whoever embeds this library, which hands
//! them in by reference.
pub mod cache;
pub mod registry;
pub mod runtime;

pub use cache::{load_class_cached, unload_cached_class, ClassCache};
pub use registry::{ContextError, VmRegistry};
