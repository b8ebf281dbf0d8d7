//! The commands the tool offers, and the decision logic of each command that
//! does not touch the network or the filesystem.

pub mod clean;
pub mod install;
pub mod list;
pub mod search;
pub mod uninstall;

use vstd::prelude::*;

verus! {

/// The commands of the tool: initialize the project, search the registry,
/// install or uninstall assets, list the managed assets, and clean the cache.
#[derive(Debug)]
#[allow(inconsistent_fields)]
pub enum Commands {
    Init,
    Search { name: String },
    Install { name: Option<Vec<String>> },
    Uninstall { name: String },
    List,
    Clean,
}

} // verus!
