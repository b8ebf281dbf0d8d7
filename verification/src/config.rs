//! The state store: the in-memory configuration that records the project's
//! version, the known assets, and each asset's install-folder mapping. Every
//! mutation keeps asset ids unique and is specified map-wise, so callers can
//! reason about one id without knowing the store's layout.

use vstd::prelude::*;

use crate::assets::AssetInfo;
use crate::godot::GodotVersion;
use crate::text::str_eq_str;

verus! {

/// Errors of the state store: carrying messages for file and format failures
/// (which only the surrounding program can produce), an uninitialized
/// project, an id that is not recorded, and a duplicate registration.
#[derive(Debug)]
pub enum ConfigError {
    Io(String),
    Parse(String),
    Serialize(String),
    Uninitialized,
    NotFound(String),
    Duplicate(String),
}

/// The first recorded asset with the given id, if any.
pub open spec fn find_asset(assets: Seq<AssetInfo>, id: Seq<char>) -> Option<AssetInfo>
    decreases assets.len(),
{
    if assets.len() == 0 {
        None
    } else if assets[0].asset_id@ == id {
        Some(assets[0])
    } else {
        find_asset(assets.skip(1), id)
    }
}

pub proof fn lemma_find_asset_skip(assets: Seq<AssetInfo>, id: Seq<char>, i: int)
    requires
        0 <= i <= assets.len(),
        forall|j: int| 0 <= j < i ==> assets[j].asset_id@ != id,
    ensures
        find_asset(assets, id) == find_asset(assets.skip(i), id),
    decreases i,
{
    if i > 0 {
        assert(assets.skip(0) =~= assets);
        let t = assets.skip(1);
        assert(forall|j: int| 0 <= j < i - 1 ==> t[j] == assets[j + 1] && assets[j + 1].asset_id@
            != id);
        lemma_find_asset_skip(t, id, i - 1);
        assert(t.skip(i - 1) =~= assets.skip(i));
    } else {
        assert(assets.skip(0) =~= assets);
    }
}

/// A record with the id is found exactly when one exists, and the first such
/// record is returned.
pub proof fn lemma_find_asset(assets: Seq<AssetInfo>, id: Seq<char>)
    ensures
        match find_asset(assets, id) {
            Some(a) => exists|i: int|
                {
                    &&& 0 <= i < assets.len()
                    &&& assets[i] == a
                    &&& a.asset_id@ == id
                    &&& forall|j: int| 0 <= j < i ==> assets[j].asset_id@ != id
                },
            None => forall|j: int| 0 <= j < assets.len() ==> assets[j].asset_id@ != id,
        },
    decreases assets.len(),
{
    if assets.len() > 0 && assets[0].asset_id@ != id {
        let t = assets.skip(1);
        lemma_find_asset(t, id);
        match find_asset(t, id) {
            Some(a) => {
                let i = choose|i: int|
                    0 <= i < t.len() && t[i] == a && a.asset_id@ == id && forall|j: int|
                        0 <= j < i ==> t[j].asset_id@ != id;
                assert(assets[i + 1] == t[i]);
                assert(forall|j: int| 1 <= j < i + 1 ==> assets[j] == t[j - 1]);
            },
            None => {
                assert(forall|j: int| 1 <= j < assets.len() ==> assets[j] == t[j - 1]);
            },
        }
    }
}

/// The persisted configuration: the project's recorded version and the list
/// of known assets, each carrying its install-folder mapping.
#[derive(Debug)]
pub struct Config {
    pub godot_version: GodotVersion,
    pub assets: Vec<AssetInfo>,
}

impl Config {
    /// Well-formedness: at most one record per asset id.
    pub open spec fn wf(&self) -> bool {
        forall|i: int, j: int|
            0 <= i < j < self.assets@.len() ==> self.assets@[i].asset_id@
                != self.assets@[j].asset_id@
    }

    /// The freshly initialized configuration: the detected project version
    /// and no assets.
    pub fn init(godot_version: GodotVersion) -> (c: Config)
        ensures
            c.wf(),
            c.godot_version == godot_version,
            c.assets@.len() == 0,
    {
        Config { godot_version, assets: Vec::new() }
    }

    /// Index of the first record with the given id, if any.
    fn index_of_id(&self, id: &str) -> (r: Option<usize>)
        ensures
            match r {
                Some(i) => {
                    &&& i < self.assets@.len()
                    &&& self.assets@[i as int].asset_id@ == id@
                    &&& forall|j: int| 0 <= j < i ==> self.assets@[j].asset_id@ != id@
                    &&& find_asset(self.assets@, id@) == Some(self.assets@[i as int])
                },
                None => find_asset(self.assets@, id@) is None,
            },
    {
        let n = self.assets.len();
        let mut i: usize = 0;
        while i < n
            invariant
                i <= n,
                n == self.assets@.len(),
                forall|j: int| 0 <= j < i ==> self.assets@[j].asset_id@ != id@,
            decreases n - i,
        {
            if str_eq_str(self.assets[i].asset_id.as_str(), id) {
                proof {
                    lemma_find_asset_skip(self.assets@, id@, i as int);
                    assert(self.assets@.skip(i as int)[0] == self.assets@[i as int]);
                }
                return Some(i);
            }
            i = i + 1;
        }
        proof {
            lemma_find_asset_skip(self.assets@, id@, n as int);
            assert(self.assets@.skip(n as int) =~= Seq::<AssetInfo>::empty());
        }
        None
    }

    /// The recorded asset with the given id, if any.
    pub fn get_asset_info(&self, id: &str) -> (r: Option<&AssetInfo>)
        ensures
            match r {
                Some(a) => find_asset(self.assets@, id@) == Some(*a),
                None => find_asset(self.assets@, id@) is None,
            },
    {
        match self.index_of_id(id) {
            Some(i) => Some(&self.assets[i]),
            None => None,
        }
    }

    /// The install folder recorded for the given asset id, if the asset is
    /// known and has one.
    pub fn get_install_folder(&self, asset_id: &str) -> (r: Option<&String>)
        ensures
            match r {
                Some(f) => find_asset(self.assets@, asset_id@) matches Some(a)
                    && a.install_folder == Some(*f),
                None => find_asset(self.assets@, asset_id@) matches Some(a) ==> a.install_folder
                    is None,
            },
    {
        match self.index_of_id(asset_id) {
            Some(i) => {
                match &self.assets[i].install_folder {
                    Some(f) => Some(f),
                    None => None,
                }
            },
            None => None,
        }
    }

    /// Records the install folder of a known asset; fails with not-found when
    /// the id is not recorded. Nothing else changes.
    pub fn set_install_folder(&mut self, id: &str, install_folder: String) -> (r: Result<
        (),
        ConfigError,
    >)
        requires
            old(self).wf(),
        ensures
            final(self).wf(),
            final(self).godot_version == old(self).godot_version,
            match r {
                Ok(()) => {
                    &&& find_asset(old(self).assets@, id@) is Some
                    &&& final(self).assets@.len() == old(self).assets@.len()
                    &&& find_asset(final(self).assets@, id@) matches Some(a) && {
                        let b = find_asset(old(self).assets@, id@)->Some_0;
                        a == AssetInfo {
                            install_folder: Some(install_folder),
                            asset_id: b.asset_id,
                            title: b.title,
                            download_url: b.download_url,
                        }
                    }
                    &&& forall|x: Seq<char>|
                        x != id@ ==> find_asset(final(self).assets@, x) == find_asset(
                            old(self).assets@,
                            x,
                        )
                },
                Err(e) => {
                    &&& find_asset(old(self).assets@, id@) is None
                    &&& e matches ConfigError::NotFound(n) && n@ == id@
                    &&& *final(self) == *old(self)
                },
            },
    {
        match self.index_of_id(id) {
            Some(i) => {
                let old_record = &self.assets[i];
                let updated = AssetInfo {
                    asset_id: old_record.asset_id.clone(),
                    title: old_record.title.clone(),
                    download_url: old_record.download_url.clone(),
                    install_folder: Some(install_folder),
                };
                let ghost prev = self.assets@;
                let ghost k = i as int;
                self.assets.set(i, updated);
                proof {
                    assert(self.assets@ == prev.update(k, updated));
                    assert(forall|j: int|
                        0 <= j < prev.len() ==> self.assets@[j].asset_id@ == #[trigger] prev[j].asset_id@);
                    assert forall|x: Seq<char>| x != id@ implies find_asset(self.assets@, x)
                        == find_asset(prev, x) by {
                        lemma_find_asset_update(prev, k, updated, x);
                    }
                    lemma_find_asset_update(prev, k, updated, id@);
                }
                Ok(())
            },
            None => Err(ConfigError::NotFound(id.to_owned())),
        }
    }

    /// Registers a new asset record; fails with a duplicate error when the id
    /// is already recorded.
    pub fn add_asset(&mut self, id: String, asset: AssetInfo) -> (r: Result<(), ConfigError>)
        requires
            old(self).wf(),
            id@ == asset.asset_id@,
        ensures
            final(self).wf(),
            final(self).godot_version == old(self).godot_version,
            match r {
                Ok(()) => {
                    &&& find_asset(old(self).assets@, id@) is None
                    &&& final(self).assets@ == old(self).assets@.push(asset)
                    &&& find_asset(final(self).assets@, id@) == Some(asset)
                    &&& forall|x: Seq<char>|
                        x != id@ ==> find_asset(final(self).assets@, x) == find_asset(
                            old(self).assets@,
                            x,
                        )
                },
                Err(e) => {
                    &&& find_asset(old(self).assets@, id@) is Some
                    &&& e matches ConfigError::Duplicate(d) && d@ == id@
                    &&& *final(self) == *old(self)
                },
            },
    {
        match self.index_of_id(id.as_str()) {
            Some(_) => Err(ConfigError::Duplicate(id)),
            None => {
                let ghost prev = self.assets@;
                proof {
                    lemma_find_asset(prev, id@);
                }
                self.assets.push(asset);
                proof {
                    assert(forall|j: int| 0 <= j < prev.len() ==> self.assets@[j] == prev[j]);
                    lemma_find_asset_skip(self.assets@, id@, prev.len() as int);
                    assert(self.assets@.skip(prev.len() as int) =~= seq![asset]);
                    assert forall|x: Seq<char>| x != id@ implies find_asset(self.assets@, x)
                        == find_asset(prev, x) by {
                        lemma_find_asset_push_other(prev, asset, x);
                    }
                }
                Ok(())
            },
        }
    }

    /// Removes an asset and its install mapping; fails with not-found when
    /// the id is not recorded. Returns the removed record and the install
    /// folder it occupied, if any. No other record changes.
    pub fn remove_asset(&mut self, id: &str) -> (r: Result<
        (AssetInfo, Option<String>),
        ConfigError,
    >)
        requires
            old(self).wf(),
        ensures
            final(self).wf(),
            final(self).godot_version == old(self).godot_version,
            match r {
                Ok(removed) => {
                    &&& find_asset(old(self).assets@, id@) == Some(removed.0)
                    &&& removed.1 == removed.0.install_folder
                    &&& find_asset(final(self).assets@, id@) is None
                    &&& final(self).assets@.len() == old(self).assets@.len() - 1
                    &&& forall|x: Seq<char>|
                        x != id@ ==> find_asset(final(self).assets@, x) == find_asset(
                            old(self).assets@,
                            x,
                        )
                },
                Err(e) => {
                    &&& find_asset(old(self).assets@, id@) is None
                    &&& e matches ConfigError::NotFound(n) && n@ == id@
                    &&& *final(self) == *old(self)
                },
            },
    {
        match self.index_of_id(id) {
            Some(i) => {
                let ghost prev = self.assets@;
                let ghost k = i as int;
                let removed = self.assets.remove(i);
                let folder = match &removed.install_folder {
                    Some(f) => Some(f.clone()),
                    None => None,
                };
                proof {
                    assert(self.assets@ == prev.remove(k));
                    assert(forall|j: int|
                        0 <= j < self.assets@.len() ==> #[trigger] self.assets@[j] == (if j < k {
                            prev[j]
                        } else {
                            prev[j + 1]
                        }));
                    assert forall|x: Seq<char>| find_asset(self.assets@, x) == (if x == id@ {
                        None
                    } else {
                        find_asset(prev, x)
                    }) by {
                        lemma_find_asset_remove(prev, k, x);
                    }
                }
                Ok((removed, folder))
            },
            None => Err(ConfigError::NotFound(id.to_owned())),
        }
    }
}

/// Updating the first record of an id with a record of the same id relocates
/// only that id's lookup; every other lookup is unchanged.
proof fn lemma_find_asset_update(assets: Seq<AssetInfo>, k: int, a2: AssetInfo, x: Seq<char>)
    requires
        0 <= k < assets.len(),
        assets[k].asset_id@ == a2.asset_id@,
        forall|j: int| 0 <= j < k ==> assets[j].asset_id@ != a2.asset_id@,
    ensures
        find_asset(assets.update(k, a2), x) == if x == a2.asset_id@ {
            Some(a2)
        } else {
            find_asset(assets, x)
        },
    decreases k,
{
    let upd = assets.update(k, a2);
    if k == 0 {
        assert(upd[0] == a2);
        assert(upd.skip(1) =~= assets.skip(1));
    } else {
        assert(upd[0] == assets[0]);
        assert(upd.skip(1) =~= assets.skip(1).update(k - 1, a2));
        assert(forall|j: int| 0 <= j < k - 1 ==> assets.skip(1)[j] == assets[j + 1]);
        lemma_find_asset_update(assets.skip(1), k - 1, a2, x);
    }
}

/// Appending a record leaves the lookup of every other id unchanged.
proof fn lemma_find_asset_push_other(assets: Seq<AssetInfo>, a: AssetInfo, x: Seq<char>)
    requires
        x != a.asset_id@,
    ensures
        find_asset(assets.push(a), x) == find_asset(assets, x),
    decreases assets.len(),
{
    if assets.len() == 0 {
        assert(assets.push(a)[0] == a);
        assert(assets.push(a).skip(1) =~= Seq::<AssetInfo>::empty());
        assert(find_asset(assets, x) is None);
        assert(find_asset(assets.push(a).skip(1), x) is None);
        assert(find_asset(assets.push(a), x) is None);
    } else {
        assert(assets.push(a)[0] == assets[0]);
        assert(assets.push(a).skip(1) =~= assets.skip(1).push(a));
        lemma_find_asset_push_other(assets.skip(1), a, x);
        assert(find_asset(assets.push(a).skip(1), x) == find_asset(assets.skip(1), x));
        if assets[0].asset_id@ == x {
            assert(find_asset(assets.push(a), x) == Some(assets[0]));
            assert(find_asset(assets, x) == Some(assets[0]));
        } else {
            assert(find_asset(assets.push(a), x) == find_asset(assets.push(a).skip(1), x));
            assert(find_asset(assets, x) == find_asset(assets.skip(1), x));
        }
    }
}

/// Removing the only record of an id makes that id unknown and leaves every
/// other lookup unchanged.
proof fn lemma_find_asset_remove(assets: Seq<AssetInfo>, k: int, x: Seq<char>)
    requires
        0 <= k < assets.len(),
        forall|j: int| 0 <= j < assets.len() && j != k ==> assets[j].asset_id@ != assets[k].asset_id@,
    ensures
        find_asset(assets.remove(k), x) == if x == assets[k].asset_id@ {
            None::<AssetInfo>
        } else {
            find_asset(assets, x)
        },
    decreases k,
{
    let rem = assets.remove(k);
    if k == 0 {
        assert(rem =~= assets.skip(1));
        if x == assets[0].asset_id@ {
            lemma_find_asset(assets.skip(1), x);
            assert(forall|j: int| 0 <= j < assets.skip(1).len() ==> assets.skip(1)[j] == assets[j
                + 1]);
        }
    } else {
        assert(rem[0] == assets[0]);
        assert(rem.skip(1) =~= assets.skip(1).remove(k - 1));
        assert(forall|j: int| 0 <= j < assets.skip(1).len() ==> assets.skip(1)[j] == assets[j + 1]);
        lemma_find_asset_remove(assets.skip(1), k - 1, x);
    }
}

} // verus!
