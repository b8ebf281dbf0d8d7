//! Assets: the record type for a managed addon, the archive wrapper around a
//! cached zip blob, the plugin locator that finds the addon root inside an
//! archive, the selective extractor that plans which entries are written
//! where, and uninstallation.

use vstd::prelude::*;

use crate::fs::check_path_stays_within;
use crate::fs::get_install_folder_path;
use crate::fs::get_out_path_from_archive_path;
use crate::fs::path_stays_within;
use crate::fs::rebased_path;
use crate::text::contains_str;
use crate::text::split_char;
use crate::text::split_on;
use crate::text::str_eq_str;
use crate::text::str_starts_with;

verus! {

/// Errors of the asset component: a structural error (no addon root in the
/// archive), filesystem and archive failures carried as messages, an asset
/// that is not installed, and an extraction target that would leave the
/// project directory.
#[derive(Debug)]
pub enum AssetError {
    InvalidAssetStructure(String),
    Io(String),
    Zip(String),
    NotInstalled(String),
    UnsafePath(String),
}

/// One managed asset: its registry id, display title, download location, and
/// the install folder it occupies once installed (absent until the first
/// successful install).
#[derive(Debug)]
pub struct AssetInfo {
    pub asset_id: String,
    pub title: String,
    pub download_url: String,
    pub install_folder: Option<String>,
}

impl Clone for AssetInfo {
    fn clone(&self) -> (r: Self)
        ensures
            r == *self,
    {
        AssetInfo {
            asset_id: self.asset_id.clone(),
            title: self.title.clone(),
            download_url: self.download_url.clone(),
            install_folder: match &self.install_folder {
                Some(f) => Some(f.clone()),
                None => None,
            },
        }
    }
}

impl AssetInfo {
    /// An asset counts as installed exactly when it has a recorded install
    /// folder and that folder is among the folders present on disk.
    pub open spec fn spec_is_installed(&self, folders: Seq<Seq<char>>) -> bool {
        match self.install_folder {
            Some(f) => folders.contains(f@),
            None => false,
        }
    }

    /// Whether this asset's recorded install folder is among the folders
    /// currently present in the project's addons directory.
    pub fn is_installed(&self, install_folders: &Vec<String>) -> (r: bool)
        ensures
            r == self.spec_is_installed(install_folders.deep_view()),
    {
        match &self.install_folder {
            Some(folder) => contains_str(install_folders, folder.as_str()),
            None => false,
        }
    }
}

/// What the archive bytes parse to: the entry-name list of the archive in
/// central-directory order, or nothing when the bytes are not a zip archive.
pub uninterp spec fn zip_entries(bytes: Seq<u8>) -> Option<Seq<Seq<char>>>;

/// The decompressed contents of the named entry of the archive bytes.
pub uninterp spec fn zip_data(bytes: Seq<u8>, name: Seq<char>) -> Seq<u8>;

/// Whether reading the named entry out of the archive bytes succeeds: the
/// bytes parse as an archive, the name is an entry of it, and the entry's
/// data decompresses.
pub uninterp spec fn zip_read_ok(bytes: Seq<u8>, name: Seq<char>) -> bool;

/// Relies on `zip::ZipArchive::new` and `zip::ZipArchive::file_names`:
/// whether bytes parse as an archive, and the entry names and their
/// (central-directory) order, are determined by the bytes alone.
#[verifier::external_body]
fn zip_entry_names(bytes: &Vec<u8>) -> (r: Result<Vec<String>, String>)
    ensures
        match r {
            Ok(names) => zip_entries(bytes@) == Some(names.deep_view()),
            Err(_) => zip_entries(bytes@) is None,
        },
{
    let cursor = std::io::Cursor::new(bytes.as_slice());
    match zip::ZipArchive::new(cursor) {
        Ok(archive) => Ok(archive.file_names().map(String::from).collect()),
        Err(e) => Err(format!("{e}")),
    }
}

/// Relies on `zip::ZipArchive::new`, `zip::ZipArchive::by_name` and
/// `std::io::Read::read_to_end`: whether the read succeeds (an absent name
/// or unsupported or corrupt compressed data fail it) and what data it
/// yields are both determined by the archive bytes and the entry name alone,
/// and a successful read means the bytes parse as an archive.
#[verifier::external_body]
fn zip_entry_bytes(bytes: &Vec<u8>, name: &str) -> (r: Result<Vec<u8>, String>)
    ensures
        r is Ok <==> zip_read_ok(bytes@, name@),
        match r {
            Ok(data) => {
                &&& zip_entries(bytes@) is Some
                &&& data@ == zip_data(bytes@, name@)
            },
            Err(_) => true,
        },
{
    let cursor = std::io::Cursor::new(bytes.as_slice());
    let mut archive = match zip::ZipArchive::new(cursor) {
        Ok(a) => a,
        Err(e) => return Err(format!("{e}")),
    };
    let mut file = match archive.by_name(name) {
        Ok(f) => f,
        Err(e) => return Err(format!("{e}")),
    };
    let mut data = Vec::new();
    match std::io::Read::read_to_end(&mut file, &mut data) {
        Ok(_) => Ok(data),
        Err(e) => Err(format!("{e}")),
    }
}

/// A cached asset archive: the asset id, the raw archive bytes, and the
/// archive's entry names in archive order.
pub struct AssetArchive {
    pub id: String,
    pub bytes: Vec<u8>,
    pub entries: Vec<String>,
}

impl AssetArchive {
    /// The entry list matches what the bytes parse to.
    pub open spec fn wf(&self) -> bool {
        zip_entries(self.bytes@) == Some(self.entries.deep_view())
    }

    /// Opens an archive over raw bytes, collecting its entry names; fails
    /// exactly when the bytes are not a zip archive.
    pub fn from_bytes(id: String, bytes: Vec<u8>) -> (r: Result<AssetArchive, AssetError>)
        ensures
            match r {
                Ok(a) => a.wf() && a.id@ == id@ && a.bytes@ == bytes@,
                Err(e) => zip_entries(bytes@) is None && e is Zip,
            },
    {
        match zip_entry_names(&bytes) {
            Ok(entries) => Ok(AssetArchive { id, bytes, entries }),
            Err(m) => Err(AssetError::Zip(m)),
        }
    }
}

/// The plugin root named by a single archive entry path: if the
/// addon-container marker is the first path component and a nonempty
/// component follows, that component is the plugin name and the path up to
/// and including it is the prefix; failing that, the same with the marker as
/// the second component. An entry that matches neither names no plugin.
pub open spec fn entry_plugin(name: Seq<char>) -> Option<(Seq<char>, Seq<char>)> {
    let parts = split_on(name, '/');
    if parts.len() >= 2 && parts[0] == "addons"@ && parts[1].len() > 0 {
        Some((parts[1], parts[0] + seq!['/'] + parts[1]))
    } else if parts.len() >= 3 && parts[1] == "addons"@ && parts[2].len() > 0 {
        Some((parts[2], parts[0] + seq!['/'] + parts[1] + seq!['/'] + parts[2]))
    } else {
        None
    }
}

/// The selection predicate of the extractor: entry paths that start with the
/// discovered prefix.
pub open spec fn under_prefix(prefix: Seq<char>) -> spec_fn(Seq<char>) -> bool {
    |n: Seq<char>| prefix.is_prefix_of(n)
}

/// The plugin root of an entry-name list: the plugin of the first entry, in
/// archive order, that names one.
pub open spec fn locate_plugin(names: Seq<Seq<char>>) -> Option<(Seq<char>, Seq<char>)>
    decreases names.len(),
{
    if names.len() == 0 {
        None
    } else if entry_plugin(names[0]) is Some {
        entry_plugin(names[0])
    } else {
        locate_plugin(names.skip(1))
    }
}

pub proof fn lemma_locate_skip(names: Seq<Seq<char>>, i: int)
    requires
        0 <= i <= names.len(),
        forall|j: int| 0 <= j < i ==> entry_plugin(names[j]) is None,
    ensures
        locate_plugin(names) == locate_plugin(names.skip(i)),
    decreases i,
{
    if i > 0 {
        assert(entry_plugin(names[0]) is None);
        assert(names.skip(0) =~= names);
        let t = names.skip(1);
        assert(forall|j: int| 0 <= j < i - 1 ==> t[j] == names[j + 1] && entry_plugin(
            names[j + 1],
        ) is None);
        lemma_locate_skip(t, i - 1);
        assert(t.skip(i - 1) =~= names.skip(i));
    } else {
        assert(names.skip(0) =~= names);
    }
}

/// The locator prefers the first entry in archive order: if entry `i` names a
/// plugin and no earlier entry does, the locator returns exactly entry `i`'s
/// plugin name and prefix.
pub proof fn lemma_locate_prefers_first(names: Seq<Seq<char>>, i: int)
    requires
        0 <= i < names.len(),
        entry_plugin(names[i]) is Some,
        forall|j: int| 0 <= j < i ==> entry_plugin(names[j]) is None,
    ensures
        locate_plugin(names) == entry_plugin(names[i]),
{
    lemma_locate_skip(names, i);
    assert(names.skip(i)[0] == names[i]);
}

/// An entry list in which no entry has the addon-container marker at its
/// first or second path component (followed by a nonempty component) makes
/// the locator fail.
pub proof fn lemma_locate_fails_without_marker(names: Seq<Seq<char>>)
    requires
        forall|j: int| 0 <= j < names.len() ==> entry_plugin(names[j]) is None,
    ensures
        locate_plugin(names) is None,
{
    lemma_locate_skip(names, names.len() as int);
    assert(names.skip(names.len() as int) =~= Seq::<Seq<char>>::empty());
}

/// The plugin root named by one entry path, if any: the plugin folder name
/// and the path prefix up to and including it.
fn entry_plugin_info(name: &str) -> (r: Option<(String, String)>)
    ensures
        match r {
            Some(p) => entry_plugin(name@) == Some((p.0@, p.1@)),
            None => entry_plugin(name@) is None,
        },
{
    let parts = split_char(name, '/');
    proof {
        reveal_strlit("/");
        assert("/"@ =~= seq!['/']);
        assert(forall|j: int|
            0 <= j < parts@.len() ==> parts.deep_view()[j] == #[trigger] parts@[j]@);
    }
    if parts.len() >= 2 && str_eq_str(parts[0].as_str(), "addons") && !parts[1].as_str().is_empty() {
        let plugin = parts[1].clone();
        let mut prefix = parts[0].clone();
        prefix.append("/");
        prefix.append(parts[1].as_str());
        Some((plugin, prefix))
    } else if parts.len() >= 3 && str_eq_str(parts[1].as_str(), "addons")
        && !parts[2].as_str().is_empty() {
        let plugin = parts[2].clone();
        let mut prefix = parts[0].clone();
        prefix.append("/");
        prefix.append(parts[1].as_str());
        prefix.append("/");
        prefix.append(parts[2].as_str());
        Some((plugin, prefix))
    } else {
        None
    }
}

impl AssetArchive {
    /// The plugin name and path prefix of the addon root inside this archive:
    /// the first entry in archive order with the addon-container marker at
    /// its first or second path component, followed by the plugin folder.
    pub fn get_plugin_info(&self) -> (r: Option<(String, String)>)
        ensures
            match r {
                Some(p) => locate_plugin(self.entries.deep_view()) == Some((p.0@, p.1@)),
                None => locate_plugin(self.entries.deep_view()) is None,
            },
    {
        let ghost names = self.entries.deep_view();
        let n = self.entries.len();
        let mut i: usize = 0;
        while i < n
            invariant
                i <= n,
                n == self.entries.len(),
                names == self.entries.deep_view(),
                forall|j: int| 0 <= j < i ==> entry_plugin(names[j]) is None,
            decreases n - i,
        {
            proof {
                assert(names[i as int] == self.entries@[i as int]@);
            }
            if let Some(pair) = entry_plugin_info(self.entries[i].as_str()) {
                proof {
                    lemma_locate_prefers_first(names, i as int);
                }
                return Some(pair);
            }
            i = i + 1;
        }
        proof {
            lemma_locate_fails_without_marker(names);
        }
        None
    }

    /// The plugin name of the addon root, together with every entry path
    /// under the discovered prefix; fails with a structural error when no
    /// entry names an addon root.
    pub fn get_plugin_name_and_files_to_extract(&self) -> (r: Result<
        (String, Vec<String>),
        AssetError,
    >)
        ensures
            match r {
                Ok(p) => {
                    let located = locate_plugin(self.entries.deep_view());
                    &&& located is Some
                    &&& p.0@ == located->Some_0.0
                    &&& p.1.deep_view() == self.entries.deep_view().filter(
                        under_prefix(located->Some_0.1),
                    )
                },
                Err(e) => {
                    &&& locate_plugin(self.entries.deep_view()) is None
                    &&& e matches AssetError::InvalidAssetStructure(id) && id@ == self.id@
                },
            },
    {
        let (plugin_name, plugin_path) = match self.get_plugin_info() {
            Some(pair) => pair,
            None => {
                return Err(AssetError::InvalidAssetStructure(self.id.clone()));
            },
        };
        let ghost names = self.entries.deep_view();
        let ghost pred = under_prefix(plugin_path@);
        let mut file_paths: Vec<String> = Vec::new();
        let n = self.entries.len();
        let mut i: usize = 0;
        proof {
            reveal(Seq::filter);
            assert(names.take(0) =~= Seq::<Seq<char>>::empty());
            assert(file_paths.deep_view() =~= names.take(0).filter(pred));
        }
        while i < n
            invariant
                i <= n,
                n == self.entries.len(),
                names == self.entries.deep_view(),
                pred == under_prefix(plugin_path@),
                file_paths.deep_view() == names.take(i as int).filter(pred),
            decreases n - i,
        {
            proof {
                reveal(Seq::filter);
                assert(names[i as int] == self.entries@[i as int]@);
                assert(names.take(i + 1).drop_last() =~= names.take(i as int));
                assert(names.take(i + 1).last() == names[i as int]);
            }
            let ghost prev = file_paths.deep_view();
            if str_starts_with(self.entries[i].as_str(), plugin_path.as_str()) {
                file_paths.push(self.entries[i].clone());
                proof {
                    reveal(Seq::filter);
                    assert(pred(names[i as int]));
                    assert(names.take(i + 1).filter(pred) == names.take(i as int).filter(
                        pred,
                    ).push(names[i as int]));
                    assert(file_paths.deep_view() =~= prev.push(names[i as int]));
                }
            } else {
                proof {
                    reveal(Seq::filter);
                    assert(!pred(names[i as int]));
                    assert(names.take(i + 1).filter(pred) == names.take(i as int).filter(pred));
                }
            }
            i = i + 1;
        }
        proof {
            assert(names.take(n as int) =~= names);
        }
        Ok((plugin_name, file_paths))
    }
}

/// Whether an entry path names a directory: it ends with the path separator.
pub open spec fn entry_is_dir(name: Seq<char>) -> bool {
    name.len() > 0 && name[name.len() - 1] == '/'
}

fn ends_with_slash(s: &str) -> (r: bool)
    ensures
        r == entry_is_dir(s@),
{
    let n = s.unicode_len();
    if n == 0 {
        false
    } else {
        s.get_char(n - 1) == '/'
    }
}

/// An entry is safe to extract when it either has no output path or its
/// output path cannot escape the project directory.
pub open spec fn entry_safe(name: Seq<char>) -> bool {
    match rebased_path(name) {
        Some(o) => path_stays_within(o),
        None => true,
    }
}

/// Every entry of the list is safe to extract.
pub open spec fn entries_safe(names: Seq<Seq<char>>) -> bool {
    forall|i: int| 0 <= i < names.len() ==> entry_safe(names[i])
}

/// An entry can be read when planning: either it has no output path (nothing
/// is read for it), or reading it out of the archive succeeds.
pub open spec fn entry_read_ok(bytes: Seq<u8>, name: Seq<char>) -> bool {
    rebased_path(name) is Some ==> zip_read_ok(bytes, name)
}

/// Every entry of the list with an output path can be read.
pub open spec fn entries_read_ok(bytes: Seq<u8>, names: Seq<Seq<char>>) -> bool {
    forall|i: int| 0 <= i < names.len() ==> entry_read_ok(bytes, names[i])
}

/// One planned extraction output: the project-relative output path, the
/// entry's decompressed contents, and whether the entry is a directory.
#[derive(Debug)]
pub struct ExtractOut {
    pub path: String,
    pub data: Vec<u8>,
    pub is_dir: bool,
}

impl View for ExtractOut {
    type V = (Seq<char>, Seq<u8>, bool);

    open spec fn view(&self) -> (Seq<char>, Seq<u8>, bool) {
        (self.path@, self.data@, self.is_dir)
    }
}

impl DeepView for ExtractOut {
    type V = (Seq<char>, Seq<u8>, bool);

    open spec fn deep_view(&self) -> (Seq<char>, Seq<u8>, bool) {
        self@
    }
}

/// The extraction outputs for the given entry names, in order: each entry
/// with an output path contributes that path, its contents, and its
/// directory flag; entries without the marker contribute nothing.
pub open spec fn extract_outs(names: Seq<Seq<char>>, bytes: Seq<u8>) -> Seq<
    (Seq<char>, Seq<u8>, bool),
>
    decreases names.len(),
{
    if names.len() == 0 {
        Seq::empty()
    } else {
        let rest = extract_outs(names.drop_last(), bytes);
        match rebased_path(names.last()) {
            Some(o) => rest.push((o, zip_data(bytes, names.last()), entry_is_dir(names.last()))),
            None => rest,
        }
    }
}

/// The output path of the first entry in the list whose output path could
/// escape the project directory, if any entry could.
fn first_unsafe_out_path(files: &Vec<String>) -> (r: Option<String>)
    ensures
        match r {
            Some(o) => !entries_safe(files.deep_view()) && !path_stays_within(o@),
            None => entries_safe(files.deep_view()),
        },
{
    let ghost sel = files.deep_view();
    let n = files.len();
    let mut i: usize = 0;
    while i < n
        invariant
            i <= n,
            n == files.len(),
            sel == files.deep_view(),
            forall|j: int| 0 <= j < i ==> entry_safe(sel[j]),
        decreases n - i,
    {
        proof {
            assert(sel[i as int] == files@[i as int]@);
        }
        match get_out_path_from_archive_path(files[i].as_str()) {
            Some(out_path) => {
                if !check_path_stays_within(out_path.as_str()) {
                    proof {
                        assert(!entry_safe(sel[i as int]));
                    }
                    return Some(out_path);
                }
            },
            None => {},
        }
        i = i + 1;
    }
    proof {
        assert(entries_safe(sel));
    }
    None
}

/// Reads the contents of every listed entry with an output path and builds
/// the planned outputs, in order; fails exactly when a read of the archive
/// fails.
fn build_outs(files: &Vec<String>, bytes: &Vec<u8>) -> (r: Result<Vec<ExtractOut>, String>)
    ensures
        match r {
            Ok(outs) => {
                &&& outs.deep_view() == extract_outs(files.deep_view(), bytes@)
                &&& entries_read_ok(bytes@, files.deep_view())
            },
            Err(_) => !entries_read_ok(bytes@, files.deep_view()),
        },
{
    let ghost sel = files.deep_view();
    let n = files.len();
    let mut outs: Vec<ExtractOut> = Vec::new();
    let mut i: usize = 0;
    proof {
        assert(sel.take(0) =~= Seq::<Seq<char>>::empty());
        assert(outs.deep_view() =~= extract_outs(sel.take(0), bytes@));
    }
    while i < n
        invariant
            i <= n,
            n == files.len(),
            sel == files.deep_view(),
            outs.deep_view() == extract_outs(sel.take(i as int), bytes@),
            forall|j: int| 0 <= j < i ==> entry_read_ok(bytes@, sel[j]),
        decreases n - i,
    {
        proof {
            assert(sel[i as int] == files@[i as int]@);
            assert(sel.take(i + 1).drop_last() =~= sel.take(i as int));
            assert(sel.take(i + 1).last() == sel[i as int]);
        }
        let ghost prev = outs.deep_view();
        match get_out_path_from_archive_path(files[i].as_str()) {
            Some(out_path) => {
                let data = match zip_entry_bytes(bytes, files[i].as_str()) {
                    Ok(d) => d,
                    Err(m) => {
                        proof {
                            assert(!entry_read_ok(bytes@, sel[i as int]));
                        }
                        return Err(m);
                    },
                };
                let is_dir = ends_with_slash(files[i].as_str());
                outs.push(ExtractOut { path: out_path, data, is_dir });
                proof {
                    assert(outs.deep_view() =~= prev.push(
                        (
                            rebased_path(sel[i as int])->Some_0,
                            zip_data(bytes@, sel[i as int]),
                            entry_is_dir(sel[i as int]),
                        ),
                    ));
                }
            },
            None => {},
        }
        i = i + 1;
    }
    proof {
        assert(sel.take(n as int) =~= sel);
    }
    Ok(outs)
}

/// Installation succeeds exactly when the archive has an addon root, no
/// selected entry's output path could escape the project directory, and
/// every selected entry with an output path can be read out of the archive.
/// All three are determined by the archive value alone, so two runs over the
/// same archive succeed or fail together.
pub open spec fn spec_install_ok(a: AssetArchive) -> bool {
    match locate_plugin(a.entries.deep_view()) {
        None => false,
        Some(located) => {
            let sel = a.entries.deep_view().filter(under_prefix(located.1));
            entries_safe(sel) && entries_read_ok(a.bytes@, sel)
        },
    }
}

/// Plans the installation of an archive: locates the addon root, selects the
/// entries under it, refuses the archive if any selected entry's output path
/// would escape the project directory, and returns the plugin name with the
/// planned outputs.
pub fn install(asset_archive: AssetArchive) -> (r: Result<(String, Vec<ExtractOut>), AssetError>)
    ensures
        r is Ok <==> spec_install_ok(asset_archive),
        ({
            let names = asset_archive.entries.deep_view();
            match locate_plugin(names) {
                None => r matches Err(AssetError::InvalidAssetStructure(id)) && id@
                    == asset_archive.id@,
                Some(located) => {
                    let sel = names.filter(under_prefix(located.1));
                    match r {
                        Ok(out) => {
                            &&& out.0@ == located.0
                            &&& out.1.deep_view() == extract_outs(sel, asset_archive.bytes@)
                        },
                        Err(e) => {
                            &&& (e is UnsafePath <==> !entries_safe(sel))
                            &&& (e is Zip <==> entries_safe(sel) && !entries_read_ok(
                                asset_archive.bytes@,
                                sel,
                            ))
                        },
                    }
                },
            }
        }),
{
    let (plugin_name, files) = match asset_archive.get_plugin_name_and_files_to_extract() {
        Ok(pair) => pair,
        Err(e) => {
            return Err(e);
        },
    };
    // Refuse the whole archive before reading anything if any selected
    // entry's output path could escape the project directory.
    if let Some(out_path) = first_unsafe_out_path(&files) {
        return Err(AssetError::UnsafePath(out_path));
    }
    match build_outs(&files, &asset_archive.bytes) {
        Ok(outs) => Ok((plugin_name, outs)),
        Err(m) => Err(AssetError::Zip(m)),
    }
}

/// Uninstalls an installed asset: yields the directory to remove, or fails
/// with not-installed when the asset has no install folder present on disk.
pub fn uninstall(asset: &AssetInfo, install_folders: &Vec<String>) -> (r: Result<
    String,
    AssetError,
>)
    ensures
        match r {
            Ok(p) => {
                &&& asset.spec_is_installed(install_folders.deep_view())
                &&& asset.install_folder matches Some(f) && p@ == "./addons/"@ + f@
            },
            Err(e) => {
                &&& !asset.spec_is_installed(install_folders.deep_view())
                &&& e matches AssetError::NotInstalled(id) && id@ == asset.asset_id@
            },
        },
{
    if !asset.is_installed(install_folders) {
        return Err(AssetError::NotInstalled(asset.asset_id.clone()));
    }
    match &asset.install_folder {
        Some(folder) => Ok(get_install_folder_path(folder.as_str())),
        None => {
            proof {
                assert(false);
            }
            Err(AssetError::NotInstalled(asset.asset_id.clone()))
        },
    }
}

/// Extraction is contained: every output path planned for a list of safe
/// entries stays inside the directory extraction resolves against, so no
/// crafted entry path can place a file outside the project.
pub proof fn lemma_outs_of_safe_entries_stay_within(names: Seq<Seq<char>>, bytes: Seq<u8>)
    requires
        entries_safe(names),
    ensures
        forall|i: int|
            0 <= i < extract_outs(names, bytes).len() ==> path_stays_within(
                #[trigger] extract_outs(names, bytes)[i].0,
            ),
    decreases names.len(),
{
    if names.len() > 0 {
        let front = names.drop_last();
        assert(forall|i: int| 0 <= i < front.len() ==> front[i] == names[i]);
        assert(entries_safe(front));
        lemma_outs_of_safe_entries_stay_within(front, bytes);
        assert(entry_safe(names.last()));
        let outs = extract_outs(names, bytes);
        let fouts = extract_outs(front, bytes);
        match rebased_path(names.last()) {
            Some(o) => {
                assert(outs == fouts.push(
                    (o, zip_data(bytes, names.last()), entry_is_dir(names.last())),
                ));
                assert(forall|i: int| 0 <= i < fouts.len() ==> outs[i] == fouts[i]);
                assert(outs[outs.len() - 1].0 == o);
                assert(path_stays_within(o));
            },
            None => {
                assert(outs == fouts);
            },
        }
    }
}

/// Disk model for extraction: a map from output path to file contents. A
/// planned file output is written only where no file exists at its path;
/// directory outputs write no file.
pub open spec fn apply_outs(
    disk: Map<Seq<char>, Seq<u8>>,
    outs: Seq<(Seq<char>, Seq<u8>, bool)>,
) -> Map<Seq<char>, Seq<u8>>
    decreases outs.len(),
{
    if outs.len() == 0 {
        disk
    } else {
        let o = outs[0];
        let disk1 = if !o.2 && !disk.contains_key(o.0) {
            disk.insert(o.0, o.1)
        } else {
            disk
        };
        apply_outs(disk1, outs.skip(1))
    }
}

/// Extraction never overwrites: every file present before stays, unchanged.
pub proof fn lemma_apply_outs_preserves(
    disk: Map<Seq<char>, Seq<u8>>,
    outs: Seq<(Seq<char>, Seq<u8>, bool)>,
    k: Seq<char>,
)
    requires
        disk.contains_key(k),
    ensures
        apply_outs(disk, outs).contains_key(k),
        apply_outs(disk, outs)[k] == disk[k],
    decreases outs.len(),
{
    if outs.len() > 0 {
        let o = outs[0];
        let disk1 = if !o.2 && !disk.contains_key(o.0) {
            disk.insert(o.0, o.1)
        } else {
            disk
        };
        lemma_apply_outs_preserves(disk1, outs.skip(1), k);
    }
}

/// After applying the outputs, the path of every file output is present.
pub proof fn lemma_apply_outs_covers(
    disk: Map<Seq<char>, Seq<u8>>,
    outs: Seq<(Seq<char>, Seq<u8>, bool)>,
    i: int,
)
    requires
        0 <= i < outs.len(),
        !outs[i].2,
    ensures
        apply_outs(disk, outs).contains_key(outs[i].0),
    decreases i,
{
    let o = outs[0];
    let disk1 = if !o.2 && !disk.contains_key(o.0) {
        disk.insert(o.0, o.1)
    } else {
        disk
    };
    if i == 0 {
        lemma_apply_outs_preserves(disk1, outs.skip(1), o.0);
    } else {
        assert(outs.skip(1)[i - 1] == outs[i]);
        lemma_apply_outs_covers(disk1, outs.skip(1), i - 1);
    }
}

/// Applying outputs whose file paths are all already present changes nothing.
pub proof fn lemma_apply_outs_noop(
    disk: Map<Seq<char>, Seq<u8>>,
    outs: Seq<(Seq<char>, Seq<u8>, bool)>,
)
    requires
        forall|i: int| 0 <= i < outs.len() && !outs[i].2 ==> disk.contains_key(#[trigger] outs[i].0),
    ensures
        apply_outs(disk, outs) == disk,
    decreases outs.len(),
{
    if outs.len() > 0 {
        assert(forall|i: int|
            0 <= i < outs.skip(1).len() && !outs.skip(1)[i].2 ==> disk.contains_key(
                #[trigger] outs.skip(1)[i].0,
            )) by {
            assert(forall|i: int| 0 <= i < outs.skip(1).len() ==> outs.skip(1)[i] == outs[i + 1]);
        }
        lemma_apply_outs_noop(disk, outs.skip(1));
    }
}

/// Running the same extraction twice leaves the same files on disk as
/// running it once: extraction never overwrites an existing file, so a
/// re-run of the plan is a no-op.
pub proof fn lemma_extract_rerun_is_noop(
    disk: Map<Seq<char>, Seq<u8>>,
    outs: Seq<(Seq<char>, Seq<u8>, bool)>,
)
    ensures
        apply_outs(apply_outs(disk, outs), outs) == apply_outs(disk, outs),
{
    let once = apply_outs(disk, outs);
    assert(forall|i: int|
        0 <= i < outs.len() && !outs[i].2 ==> once.contains_key(#[trigger] outs[i].0)) by {
        assert forall|i: int|
            0 <= i < outs.len() && !outs[i].2 implies once.contains_key(#[trigger] outs[i].0) by {
            lemma_apply_outs_covers(disk, outs, i);
        }
    }
    lemma_apply_outs_noop(once, outs);
}

} // verus!
