//! The host project: its detected version, parsed out of the project
//! description file, and the data shapes of the asset-library registry.

use vstd::prelude::*;

use crate::assets::AssetInfo;
use crate::text::concat_str;
use crate::text::find_char;
use crate::text::index_of_first;
use crate::text::lemma_index_of_first;
use crate::text::split_char;
use crate::text::split_on;
use crate::text::str_starts_with;

verus! {

/// The host project's semantic version: major, minor and patch numbers.
#[derive(Clone, Copy, Debug, PartialEq, Eq, Structural)]
pub struct GodotVersion {
    pub major: u64,
    pub minor: u64,
    pub patch: u64,
}

/// Errors of project-version detection: the project file has no version, or
/// what it holds does not parse as a version.
#[derive(Debug)]
pub enum GodotProjectError {
    ProjectNotFound,
    VersionParse(String),
}

/// Errors of the asset-library registry: a failed request carried as a
/// message, an id that is not an integer, and a request address that could
/// not be formed.
#[derive(Debug)]
pub enum AssetLibraryError {
    Unhandled(String),
    InvalidId(String),
    ParseUrl,
}

/// A registry answer holding full asset records.
#[derive(Debug)]
pub struct AssetResponse {
    pub result: Vec<AssetInfo>,
}

/// One search hit: the asset's id and display title.
#[derive(Debug)]
pub struct AssetSearchResult {
    pub asset_id: String,
    pub title: String,
}

impl Clone for AssetSearchResult {
    fn clone(&self) -> (r: Self)
        ensures
            r == *self,
    {
        AssetSearchResult { asset_id: self.asset_id.clone(), title: self.title.clone() }
    }
}

/// A registry answer holding search hits.
#[derive(Debug)]
pub struct AssetSearchResponse {
    pub result: Vec<AssetSearchResult>,
}

/// A downloaded raw archive blob.
#[derive(Debug)]
pub struct AssetBlob {
    pub bytes: Vec<u8>,
}

/// What the major, minor and patch numbers of a version string are, if the
/// string is a semantic version at all.
pub uninterp spec fn semver_parsed(s: Seq<char>) -> Option<(u64, u64, u64)>;

/// Relies on `semver::Version::parse`: whether a string is a semantic
/// version, and its major, minor and patch numbers, are determined by the
/// string alone.
#[verifier::external_body]
fn parse_semver(s: &str) -> (r: Result<(u64, u64, u64), String>)
    ensures
        match r {
            Ok(t) => semver_parsed(s@) == Some(t),
            Err(_) => semver_parsed(s@) is None,
        },
{
    match semver::Version::parse(s) {
        Ok(v) => Ok((v.major, v.minor, v.patch)),
        Err(e) => Err(format!("{e}")),
    }
}

/// The line of the project file that records the project's feature tags,
/// version first.
pub open spec fn features_line_prefix() -> Seq<char> {
    "config/features=PackedStringArray("@
}

/// The first line carrying the feature tags, if any.
pub open spec fn first_features_line(lines: Seq<Seq<char>>) -> Option<Seq<char>>
    decreases lines.len(),
{
    if lines.len() == 0 {
        None
    } else if features_line_prefix().is_prefix_of(lines[0]) {
        Some(lines[0])
    } else {
        first_features_line(lines.skip(1))
    }
}

proof fn lemma_first_features_line_skip(lines: Seq<Seq<char>>, i: int)
    requires
        0 <= i <= lines.len(),
        forall|j: int| 0 <= j < i ==> !features_line_prefix().is_prefix_of(lines[j]),
    ensures
        first_features_line(lines) == first_features_line(lines.skip(i)),
    decreases i,
{
    if i > 0 {
        assert(lines.skip(0) =~= lines);
        let t = lines.skip(1);
        assert(forall|j: int| 0 <= j < i - 1 ==> t[j] == lines[j + 1]
            && !features_line_prefix().is_prefix_of(lines[j + 1]));
        lemma_first_features_line_skip(t, i - 1);
        assert(t.skip(i - 1) =~= lines.skip(i));
    } else {
        assert(lines.skip(0) =~= lines);
    }
}

/// Index of the first line carrying the feature tags, if any.
fn first_features_index(lines: &Vec<String>) -> (r: Option<usize>)
    ensures
        match r {
            Some(k) => k < lines@.len() && first_features_line(lines.deep_view()) == Some(
                lines.deep_view()[k as int],
            ),
            None => first_features_line(lines.deep_view()) is None,
        },
{
    let ghost all = lines.deep_view();
    let n = lines.len();
    let mut i: usize = 0;
    while i < n
        invariant
            i <= n,
            n == all.len(),
            all == lines.deep_view(),
            forall|j: int| 0 <= j < i ==> !features_line_prefix().is_prefix_of(all[j]),
        decreases n - i,
    {
        proof {
            assert(all[i as int] == lines@[i as int]@);
        }
        if str_starts_with(lines[i].as_str(), "config/features=PackedStringArray(") {
            proof {
                lemma_first_features_line_skip(all, i as int);
                assert(all.skip(i as int)[0] == all[i as int]);
            }
            return Some(i);
        }
        i = i + 1;
    }
    proof {
        lemma_first_features_line_skip(all, n as int);
        assert(all.skip(n as int) =~= Seq::<Seq<char>>::empty());
    }
    None
}

/// The version text between the first pair of quotes of a line, if the line
/// has two quotes.
pub open spec fn quoted_version(line: Seq<char>) -> Option<Seq<char>> {
    match index_of_first(line, '"') {
        None => None,
        Some(i) => match index_of_first(line.skip(i + 1), '"') {
            None => None,
            Some(j) => Some(line.subrange(i + 1, i + 1 + j)),
        },
    }
}

/// A two-component version is completed with a zero patch number; anything
/// else is handed to the version parser as it stands.
pub open spec fn normalized_version(v: Seq<char>) -> Seq<char> {
    if v.len() == 3 {
        v + ".0"@
    } else {
        v
    }
}

/// Detects the project's version from the contents of the project file: the
/// quoted version tag on the feature-tags line, completed with a zero patch
/// number when it has only major and minor, then parsed as a semantic
/// version. Fails with project-not-found when no feature-tags line exists,
/// and with a parse error when the line has no quoted tag or the tag is not
/// a version.
pub fn get_version(project_file: &str) -> (r: Result<GodotVersion, GodotProjectError>)
    ensures
        ({
            let lines = split_on(project_file@, '\n');
            match first_features_line(lines) {
                None => r matches Err(GodotProjectError::ProjectNotFound),
                Some(line) => match quoted_version(line) {
                    None => r matches Err(GodotProjectError::VersionParse(_)),
                    Some(v) => match semver_parsed(normalized_version(v)) {
                        None => r matches Err(GodotProjectError::VersionParse(_)),
                        Some(t) => r matches Ok(gv) && gv == GodotVersion {
                            major: t.0,
                            minor: t.1,
                            patch: t.2,
                        },
                    },
                },
            }
        }),
{
    let lines = split_char(project_file, '\n');
    let ghost all = lines.deep_view();
    let line_index = match first_features_index(&lines) {
        Some(k) => k,
        None => {
            return Err(GodotProjectError::ProjectNotFound);
        },
    };
    let line = lines[line_index].as_str();
    proof {
        assert(all[line_index as int] == lines@[line_index as int]@);
    }
    let ghost lv = line@;
    let first_quote = match find_char(line, '"') {
        Some(q) => q,
        None => {
            return Err(
                GodotProjectError::VersionParse("no quoted version tag in project file".to_owned()),
            );
        },
    };
    proof {
        lemma_index_of_first(lv, '"');
    }
    let line_len = line.unicode_len();
    let rest = line.substring_char(first_quote + 1, line_len);
    proof {
        assert(rest@ =~= lv.skip(first_quote + 1));
    }
    let second_quote = match find_char(rest, '"') {
        Some(q) => q,
        None => {
            return Err(
                GodotProjectError::VersionParse("unclosed version tag in project file".to_owned()),
            );
        },
    };
    proof {
        lemma_index_of_first(rest@, '"');
    }
    let version_str = rest.substring_char(0, second_quote);
    proof {
        assert(version_str@ =~= lv.subrange(
            first_quote + 1,
            first_quote + 1 + second_quote as int,
        ));
    }
    let normalized = if version_str.unicode_len() == 3 {
        concat_str(version_str, ".0")
    } else {
        version_str.to_owned()
    };
    match parse_semver(normalized.as_str()) {
        Ok(t) => Ok(GodotVersion { major: t.0, minor: t.1, patch: t.2 }),
        Err(m) => Err(GodotProjectError::VersionParse(m)),
    }
}

} // verus!
