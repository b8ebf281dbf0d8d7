//! Errors of the cache-cleaning command; the removal itself is filesystem
//! work done by the surrounding program.

use vstd::prelude::*;

use crate::config::ConfigError;

verus! {

/// Errors of cleaning the cache: a configuration failure or a filesystem
/// failure carried as a message.
#[derive(Debug)]
pub enum CleanError {
    Config(ConfigError),
    Io(String),
}

} // verus!
