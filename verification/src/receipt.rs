//! Install receipts: a snapshot of the side effects an install produced, so
//! uninstall can restore them precisely.
//!
//! A receipt records the **delta** of every environment variable the install
//! wrote (op + value + pre-apply value) and the **tool directory** to remove
//! on uninstall. PATH-like variables are uninstalled **relatively**: only the
//! segment this install added is removed from the current value, so a later
//! install added on top (or an earlier uninstall) never clobbers the others.

use vstd::prelude::*;

use crate::env::{EnvOp, EnvVar};
use crate::fs_path::AppDir;
use crate::version::Version;

verus! {

/// A single environment variable written by an install, with enough to
/// reverse it.
#[derive(Clone, Debug, PartialEq, Eq)]
pub struct VarSnapshot {
    /// Variable name.
    pub name: EnvVar,
    /// How the install merged this variable.
    pub op: EnvOp,
    /// The segment/value the install applied.
    pub value: String,
    /// Value before install; meaningful for `Assign` (`None`: it did not exist).
    pub old: Option<String>,
}

/// One install receipt.
#[derive(Clone, Debug, PartialEq, Eq)]
pub struct Receipt {
    /// Tool name.
    pub name: String,
    /// Installed version.
    pub version: Version,
    /// The installed tool root, removed wholesale on uninstall.
    pub app_dir: AppDir,
    /// Environment variables written by the install, with their old values.
    pub vars: Vec<VarSnapshot>,
}

} // verus!
