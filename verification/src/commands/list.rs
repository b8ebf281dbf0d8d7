//! The formatting core of the list command: one aligned line per managed
//! asset, ids right-aligned and titles left-aligned to the longest of each.

use vstd::prelude::*;

use crate::config::Config;

verus! {

/// A run of space characters.
pub open spec fn spaces(n: int) -> Seq<char>
    decreases n,
{
    if n <= 0 {
        Seq::empty()
    } else {
        spaces(n - 1).push(' ')
    }
}

/// The string padded with spaces on the left up to the given width.
pub open spec fn left_pad(s: Seq<char>, w: int) -> Seq<char> {
    if s.len() >= w {
        s
    } else {
        spaces(w - s.len()) + s
    }
}

/// The string padded with spaces on the right up to the given width.
pub open spec fn right_pad(s: Seq<char>, w: int) -> Seq<char> {
    if s.len() >= w {
        s
    } else {
        s + spaces(w - s.len())
    }
}

/// The length of the longest asset id.
pub open spec fn max_id_width(assets: Seq<crate::assets::AssetInfo>) -> int
    decreases assets.len(),
{
    if assets.len() == 0 {
        0
    } else {
        let rest = max_id_width(assets.drop_last());
        let l = assets.last().asset_id@.len() as int;
        if l > rest {
            l
        } else {
            rest
        }
    }
}

/// The length of the longest asset title.
pub open spec fn max_title_width(assets: Seq<crate::assets::AssetInfo>) -> int
    decreases assets.len(),
{
    if assets.len() == 0 {
        0
    } else {
        let rest = max_title_width(assets.drop_last());
        let l = assets.last().title@.len() as int;
        if l > rest {
            l
        } else {
            rest
        }
    }
}

fn make_spaces(count: usize) -> (r: String)
    ensures
        r@ == spaces(count as int),
{
    let mut out = String::new();
    let mut i: usize = 0;
    proof {
        reveal_strlit(" ");
        assert(" "@ =~= seq![' ']);
        assert(out@ =~= spaces(0));
    }
    while i < count
        invariant
            i <= count,
            out@ == spaces(i as int),
        decreases count - i,
    {
        out.append(" ");
        proof {
            reveal_strlit(" ");
            assert(" "@ =~= seq![' ']);
            assert(spaces(i as int).push(' ') =~= spaces(i as int) + seq![' ']);
        }
        i = i + 1;
    }
    out
}

fn pad_left(s: &str, w: usize) -> (r: String)
    ensures
        r@ == left_pad(s@, w as int),
{
    let n = s.unicode_len();
    if n >= w {
        s.to_owned()
    } else {
        let mut out = make_spaces(w - n);
        out.append(s);
        out
    }
}

fn pad_right(s: &str, w: usize) -> (r: String)
    ensures
        r@ == right_pad(s@, w as int),
{
    let n = s.unicode_len();
    if n >= w {
        s.to_owned()
    } else {
        let mut out = s.to_owned();
        let pad = make_spaces(w - n);
        out.append(pad.as_str());
        out
    }
}

/// One line per managed asset: the id right-aligned to the longest id, a
/// separating colon, and the title left-aligned to the longest title. The
/// configuration must hold at least one asset.
pub fn exec(config: &Config) -> (r: Vec<String>)
    requires
        config.assets@.len() > 0,
    ensures
        r@.len() == config.assets@.len(),
        forall|i: int|
            0 <= i < r@.len() ==> r.deep_view()[i] == left_pad(
                config.assets@[i].asset_id@,
                max_id_width(config.assets@),
            ) + ": "@ + right_pad(config.assets@[i].title@, max_title_width(config.assets@)),
{
    let ghost all = config.assets@;
    let n = config.assets.len();

    let mut id_width: usize = 0;
    let mut title_width: usize = 0;
    let mut i: usize = 0;
    proof {
        assert(all.take(0) =~= Seq::<crate::assets::AssetInfo>::empty());
    }
    while i < n
        invariant
            i <= n,
            n == all.len(),
            all == config.assets@,
            id_width == max_id_width(all.take(i as int)),
            title_width == max_title_width(all.take(i as int)),
        decreases n - i,
    {
        proof {
            assert(all.take(i + 1).drop_last() =~= all.take(i as int));
            assert(all.take(i + 1).last() == all[i as int]);
        }
        let id_len = config.assets[i].asset_id.as_str().unicode_len();
        if id_len > id_width {
            id_width = id_len;
        }
        let title_len = config.assets[i].title.as_str().unicode_len();
        if title_len > title_width {
            title_width = title_len;
        }
        i = i + 1;
    }
    proof {
        assert(all.take(n as int) =~= all);
    }

    let mut lines: Vec<String> = Vec::new();
    let mut i: usize = 0;
    while i < n
        invariant
            i <= n,
            n == all.len(),
            all == config.assets@,
            id_width == max_id_width(all),
            title_width == max_title_width(all),
            lines@.len() == i,
            forall|j: int|
                0 <= j < i ==> lines.deep_view()[j] == left_pad(all[j].asset_id@, max_id_width(all))
                    + ": "@ + right_pad(all[j].title@, max_title_width(all)),
        decreases n - i,
    {
        let mut line = pad_left(config.assets[i].asset_id.as_str(), id_width);
        line.append(": ");
        let padded_title = pad_right(config.assets[i].title.as_str(), title_width);
        line.append(padded_title.as_str());
        let ghost prev = lines.deep_view();
        lines.push(line);
        proof {
            assert(lines.deep_view() =~= prev.push(line@));
        }
        i = i + 1;
    }
    lines
}

} // verus!
