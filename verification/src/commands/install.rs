//! The decision core of the install command: which known assets are pending,
//! i.e. must (re)run the install pipeline because no recorded install folder
//! of theirs is present on disk.

use vstd::prelude::*;

use crate::assets::AssetError;
use crate::assets::AssetInfo;
use crate::config::Config;
use crate::config::ConfigError;

verus! {

/// Errors of the install command: configuration, registry request, cache,
/// archive and asset failures, and a poisoned lock on the shared store.
#[derive(Debug)]
pub enum InstallError {
    Config(ConfigError),
    Request(String),
    Cache(String),
    Zip(String),
    Asset(AssetError),
    Mutex,
}

/// The assets that still need installing, given the folders present on disk:
/// those with no recorded install folder, and those whose recorded folder is
/// absent (externally deleted folders re-trigger the pipeline).
pub open spec fn pending_pred(folders: Seq<Seq<char>>) -> spec_fn(AssetInfo) -> bool {
    |a: AssetInfo| !a.spec_is_installed(folders)
}

/// The known assets that are not installed: no recorded install folder, or a
/// recorded folder that is not present on disk.
pub fn pending_assets(config: &Config, install_folders: &Vec<String>) -> (r: Vec<AssetInfo>)
    ensures
        r@ == config.assets@.filter(pending_pred(install_folders.deep_view())),
{
    let ghost all = config.assets@;
    let ghost pred = pending_pred(install_folders.deep_view());
    let mut out: Vec<AssetInfo> = Vec::new();
    let n = config.assets.len();
    let mut i: usize = 0;
    proof {
        reveal(Seq::filter);
        assert(all.take(0) =~= Seq::<AssetInfo>::empty());
        assert(out@ =~= all.take(0).filter(pred));
    }
    while i < n
        invariant
            i <= n,
            n == all.len(),
            all == config.assets@,
            pred == pending_pred(install_folders.deep_view()),
            out@ == all.take(i as int).filter(pred),
        decreases n - i,
    {
        proof {
            reveal(Seq::filter);
            assert(all.take(i + 1).drop_last() =~= all.take(i as int));
            assert(all.take(i + 1).last() == all[i as int]);
        }
        if !config.assets[i].is_installed(install_folders) {
            out.push(config.assets[i].clone());
        }
        i = i + 1;
    }
    proof {
        assert(all.take(n as int) =~= all);
    }
    out
}

} // verus!
