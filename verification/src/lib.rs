//! Function hooking for a host runtime's global dispatch table.
//!
//! The crate has two halves. At build time, a [`aggregator::HookAggregator`]
//! collects generated registration snippets keyed by hook name and emits them
//! as one deterministically ordered block. At run time, a
//! [`registry::HookRegistry`] stores hook records keyed by target function
//! name and drives installation into, and restoration of, a
//! [`table::FunctionTable`], the model of the host's function registry.

pub mod text;
pub mod assoc;
pub mod descriptor;
pub mod aggregator;
pub mod table;
pub mod registry;
pub mod laws;
