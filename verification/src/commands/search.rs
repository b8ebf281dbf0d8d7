//! The decision core of the search command: registering an asset by name is
//! allowed only when the search result is unambiguous.

use vstd::prelude::*;

use crate::godot::AssetLibraryError;
use crate::godot::AssetSearchResult;
use crate::godot::GodotProjectError;

verus! {

/// Errors of searching the registry: project-version detection failures,
/// request failures, a name with no hits, and an ambiguous name.
#[derive(Debug)]
pub enum SearchError {
    Godot(GodotProjectError),
    Request(AssetLibraryError),
    NoAddonsFound(String),
    MultipleAddonsFound(String, Vec<String>),
}

/// The titles of the search hits, in order.
pub open spec fn titles_of(results: Seq<AssetSearchResult>) -> Seq<Seq<char>> {
    results.map_values(|a: AssetSearchResult| a.title@)
}

/// Picks the single asset a search for `name` found: exactly one hit is
/// returned; no hit and several hits are each their own error, the latter
/// carrying every candidate's title.
pub fn try_find_asset_unambiguously(name: &str, results: &Vec<AssetSearchResult>) -> (r: Result<
    AssetSearchResult,
    SearchError,
>)
    ensures
        match r {
            Ok(a) => results@.len() == 1 && a == results@[0],
            Err(e) => match e {
                SearchError::NoAddonsFound(n) => results@.len() == 0 && n@ == name@,
                SearchError::MultipleAddonsFound(n, candidates) => {
                    &&& results@.len() > 1
                    &&& n@ == name@
                    &&& candidates.deep_view() == titles_of(results@)
                },
                _ => false,
            },
        },
{
    let n = results.len();
    if n == 1 {
        Ok(results[0].clone())
    } else if n == 0 {
        Err(SearchError::NoAddonsFound(name.to_owned()))
    } else {
        let mut candidates: Vec<String> = Vec::new();
        let mut i: usize = 0;
        proof {
            assert(candidates.deep_view() =~= titles_of(results@.take(0)));
        }
        while i < n
            invariant
                i <= n,
                n == results@.len(),
                candidates.deep_view() == titles_of(results@.take(i as int)),
            decreases n - i,
        {
            let ghost prev = candidates.deep_view();
            candidates.push(results[i].title.clone());
            proof {
                assert(candidates.deep_view() =~= prev.push(results@[i as int].title@));
                assert(titles_of(results@.take(i + 1)) =~= titles_of(results@.take(i as int)).push(
                    results@[i as int].title@,
                ));
            }
            i = i + 1;
        }
        proof {
            assert(results@.take(n as int) =~= results@);
        }
        Err(SearchError::MultipleAddonsFound(name.to_owned(), candidates))
    }
}

} // verus!
