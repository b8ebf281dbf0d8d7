//! Rebasing of downloaded addon archives whose payload sits either at the
//! archive root or inside one wrapping directory.

use vstd::prelude::*;

use crate::text::find_char;
use crate::text::index_of_first;
use crate::text::lemma_index_of_first;
use crate::text::lemma_split_on_boundary;
use crate::text::split_char;
use crate::text::split_on;
use crate::text::str_eq_str;

verus! {

/// Error of addon unpacking: the archive has no addon root folder.
#[derive(Debug)]
pub enum AddonError {
    RootNotFound,
}

/// Where an archive entry lands when unpacking: kept as it stands when its
/// first path component is the addon-container marker; rebased past one
/// wrapping directory when its second component is; dropped otherwise.
pub open spec fn unpack_path(name: Seq<char>) -> Option<Seq<char>> {
    let parts = split_on(name, '/');
    if parts[0] == "addons"@ {
        Some(name)
    } else if parts.len() >= 2 && parts[1] == "addons"@ {
        match index_of_first(name, '/') {
            Some(i) => Some(name.skip(i + 1)),
            None => None,
        }
    } else {
        None
    }
}

/// The output path of an archive entry when unpacking an addon archive, if
/// the entry belongs to the addon payload.
pub fn get_unpack_path(name: &str) -> (r: Option<String>)
    ensures
        match r {
            Some(o) => unpack_path(name@) == Some(o@),
            None => unpack_path(name@) is None,
        },
{
    let parts = split_char(name, '/');
    proof {
        assert(forall|j: int|
            0 <= j < parts@.len() ==> parts.deep_view()[j] == #[trigger] parts@[j]@);
        crate::text::lemma_split_on_nonempty(name@, '/');
    }
    if str_eq_str(parts[0].as_str(), "addons") {
        Some(name.to_owned())
    } else if parts.len() >= 2 && str_eq_str(parts[1].as_str(), "addons") {
        match find_char(name, '/') {
            Some(i) => {
                proof {
                    lemma_index_of_first(name@, '/');
                }
                let n = name.unicode_len();
                let out = name.substring_char(i + 1, n).to_owned();
                proof {
                    assert(out@ =~= name@.skip(i + 1));
                }
                Some(out)
            },
            None => {
                proof {
                    lemma_index_of_first(name@, '/');
                    lemma_split_on_boundary(name@, '/', name@.len() as int);
                    assert(split_on(name@, '/').len() == 1);
                    assert(false);
                }
                None
            },
        }
    } else {
        None
    }
}

} // verus!
