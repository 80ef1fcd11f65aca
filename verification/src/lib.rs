//! A verified host runtime for sandboxed plugin modules ("wraps").
//!
//! The crate covers the binary wire protocol and its typed query contracts,
//! the memory bridge that moves byte buffers across the host/guest boundary,
//! the module loader with its metadata handshake and interface-version gate,
//! the capability registry that routes typed queries to loaded modules, and
//! the guest-side request router that each module runs.

pub mod codec;
pub mod dom;
pub mod interface;
pub mod loader;
pub mod memory;
pub mod registry;
pub mod router;
pub mod signal;
pub mod watcher;
pub mod wire;
