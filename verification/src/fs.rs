//! Project-relative path layout, archive-path rebasing, and the containment
//! check that keeps every extraction target inside the project directory.

use vstd::prelude::*;

use crate::text::find_sub;
use crate::text::first_sub_index;
use crate::text::lemma_first_sub_index;
use crate::text::split_char;
use crate::text::split_on;
use crate::text::str_eq_str;

verus! {

/// Contents written to the addons directory's gitignore at initialization.
pub const ADDONS_GITIGNORE_CONTENT: &'static str = "*\n!.gitignore\n!godam.toml\n.godam";

/// Path of the persisted configuration file, relative to the project root.
pub fn get_config_path() -> (r: &'static str)
    ensures
        r@ == "./addons/godam.toml"@,
{
    "./addons/godam.toml"
}

/// Path of the host project's description file.
pub fn get_project_file_path() -> (r: &'static str)
    ensures
        r@ == "./project.godot"@,
{
    "./project.godot"
}

/// Directory holding one cached raw archive blob per asset id.
pub fn get_cache_path() -> (r: &'static str)
    ensures
        r@ == "./addons/.godam"@,
{
    "./addons/.godam"
}

/// Path of the cached archive blob for the given asset id.
pub fn get_cached_zip_path(id: &str) -> (r: String)
    ensures
        r@ == "./addons/.godam/"@ + id@ + ".zip"@,
{
    let mut out = "./addons/.godam/".to_owned();
    out.append(id);
    out.append(".zip");
    out
}

/// Directory under which each installed addon occupies one subdirectory.
pub fn get_addons_path() -> (r: &'static str)
    ensures
        r@ == "./addons"@,
{
    "./addons"
}

/// Directory a given install folder occupies under the addons directory.
pub fn get_install_folder_path(install_folder: &str) -> (r: String)
    ensures
        r@ == "./addons/"@ + install_folder@,
{
    let mut out = "./addons/".to_owned();
    out.append(install_folder);
    out
}

/// Path of the gitignore placed in the addons directory.
pub fn get_gitignore_path() -> (r: &'static str)
    ensures
        r@ == "./addons/.gitignore"@,
{
    "./addons/.gitignore"
}

/// An archive entry path rebased so that it begins at the addon-container
/// marker: everything before the first occurrence of the marker is stripped.
/// Entries that do not contain the marker have no output path.
pub open spec fn rebased_path(p: Seq<char>) -> Option<Seq<char>> {
    match first_sub_index(p, "addons"@) {
        Some(i) => Some(p.skip(i)),
        None => None,
    }
}

/// Output path for an archive entry path: the suffix starting at the first
/// occurrence of the addon-container marker, if the marker occurs at all.
pub fn get_out_path_from_archive_path(archive_path: &str) -> (r: Option<String>)
    ensures
        match r {
            Some(o) => rebased_path(archive_path@) == Some(o@),
            None => rebased_path(archive_path@) is None,
        },
{
    match find_sub(archive_path, "addons") {
        Some(i) => {
            proof {
                lemma_first_sub_index(archive_path@, "addons"@);
            }
            let n = archive_path.unicode_len();
            let out = archive_path.substring_char(i, n).to_owned();
            proof {
                assert(out@ =~= archive_path@.skip(i as int));
            }
            Some(out)
        },
        None => None,
    }
}

/// Running containment check over path components, starting at the given
/// depth below the project root: a parent-directory component steps up and
/// must never pass the root; current-directory and empty components are
/// neutral; any other component steps down.
pub open spec fn parts_stay_within(parts: Seq<Seq<char>>, depth: int) -> bool
    decreases parts.len(),
{
    if parts.len() == 0 {
        true
    } else {
        let p = parts[0];
        if p == ".."@ {
            depth >= 1 && parts_stay_within(parts.skip(1), depth - 1)
        } else if p == "."@ || p.len() == 0 {
            parts_stay_within(parts.skip(1), depth)
        } else {
            parts_stay_within(parts.skip(1), depth + 1)
        }
    }
}

/// Whether a relative path resolves to a location inside the directory it is
/// resolved against, i.e. its parent-directory segments never climb past it.
pub open spec fn path_stays_within(p: Seq<char>) -> bool {
    parts_stay_within(split_on(p, '/'), 0)
}

/// Checks that the given relative path cannot escape the directory it is
/// resolved against.
pub fn check_path_stays_within(path: &str) -> (r: bool)
    ensures
        r == path_stays_within(path@),
{
    let parts = split_char(path, '/');
    let ghost all = parts.deep_view();
    let n = parts.len();
    let mut depth: usize = 0;
    let mut i: usize = 0;
    proof {
        assert(all.skip(0) =~= all);
    }
    while i < n
        invariant
            i <= n,
            depth <= i,
            n == all.len(),
            all == parts.deep_view(),
            all == split_on(path@, '/'),
            parts_stay_within(all, 0) == parts_stay_within(all.skip(i as int), depth as int),
        decreases n - i,
    {
        proof {
            assert(all.skip(i as int)[0] == all[i as int]);
            assert(all.skip(i as int).skip(1) =~= all.skip(i + 1));
            assert(all[i as int] == parts@[i as int]@);
        }
        let part = &parts[i];
        if str_eq_str(part.as_str(), "..") {
            if depth == 0 {
                return false;
            }
            depth = depth - 1;
        } else if str_eq_str(part.as_str(), ".") || part.as_str().is_empty() {
        } else {
            depth = depth + 1;
        }
        i = i + 1;
    }
    proof {
        assert(all.skip(n as int) =~= Seq::<Seq<char>>::empty());
    }
    true
}

} // verus!
