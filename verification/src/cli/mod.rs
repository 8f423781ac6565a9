//! Command-line domain logic: tool specs, plugin sources, and the decisions
//! behind the command handlers.

pub mod add;
pub mod app;
pub mod spec;

pub use add::{resolve_add_source, PluginSource};
pub use spec::{ToolSpec, ToolSpecError};
