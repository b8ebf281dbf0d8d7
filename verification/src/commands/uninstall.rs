//! Errors of the uninstall command; the directory removal itself is
//! filesystem work done by the surrounding program.

use vstd::prelude::*;

use crate::assets::AssetError;
use crate::config::ConfigError;

verus! {

/// Errors of uninstalling: configuration failures, filesystem failures
/// carried as messages, and asset failures.
#[derive(Debug)]
pub enum UninstallError {
    Config(ConfigError),
    Io(String),
    AssetError(AssetError),
}

} // verus!
