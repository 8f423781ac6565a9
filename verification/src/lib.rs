//! `wanted`: a plugin-driven development-tool installer.
//!
//! This crate carries the domain logic (parsing, planning, execution,
//! environment wiring); the command-line front end runs around it. Planning
//! does no I/O, and every side effect carries its own undo action
//! (compensation), so any step can be rolled back.

pub mod cli;
pub mod engine;
pub mod env;
pub mod error;
pub mod fs_path;
pub mod json;
pub mod order;
pub mod path;
pub mod plugin;
pub mod receipt;
pub mod report;
pub mod store;
pub mod table;
pub mod text;
pub mod uninstall;
pub mod upgrade;
pub mod version;

pub use error::{Error, Result};
pub use receipt::{Receipt, VarSnapshot};
pub use report::{Progress, ProgressState, Reporter, SilentReporter};
pub use version::Version;
