//! Verified text utilities: splitting on a separator character, substring
//! search, prefix tests and equality over `&str` values, each specified
//! against a recursive model over `Seq<char>`.

use vstd::prelude::*;

verus! {

/// Splitting a character sequence on a separator. Splitting the empty
/// sequence yields one empty part; every separator ends the current part and
/// opens a new one, so the result always holds one part more than the number
/// of separators.
pub open spec fn split_on(s: Seq<char>, sep: char) -> Seq<Seq<char>>
    decreases s.len(),
{
    if s.len() == 0 {
        seq![Seq::<char>::empty()]
    } else if s[0] == sep {
        seq![Seq::<char>::empty()] + split_on(s.skip(1), sep)
    } else {
        let rest = split_on(s.skip(1), sep);
        seq![seq![s[0]] + rest[0]] + rest.skip(1)
    }
}

pub proof fn lemma_split_on_nonempty(s: Seq<char>, sep: char)
    ensures
        split_on(s, sep).len() >= 1,
    decreases s.len(),
{
    if s.len() > 0 && s[0] != sep {
        lemma_split_on_nonempty(s.skip(1), sep);
    }
}

/// If no separator occurs before position `k`, the split is the prefix up to
/// `k` followed by the split of the remainder (when `s[k]` is the separator),
/// or the whole sequence as a single part (when `k` is the end).
pub proof fn lemma_split_on_boundary(s: Seq<char>, sep: char, k: int)
    requires
        0 <= k <= s.len(),
        forall|j: int| 0 <= j < k ==> s[j] != sep,
    ensures
        k < s.len() && s[k] == sep ==> split_on(s, sep) == seq![s.take(k)] + split_on(
            s.skip(k + 1),
            sep,
        ),
        k == s.len() ==> split_on(s, sep) == seq![s],
    decreases k,
{
    if k == 0 {
        if k < s.len() && s[k] == sep {
            assert(s.take(0) =~= Seq::<char>::empty());
            assert(split_on(s, sep) =~= seq![s.take(0)] + split_on(s.skip(1), sep));
        } else if k == s.len() {
            assert(s.len() == 0);
            assert(s =~= Seq::<char>::empty());
            assert(split_on(s, sep) =~~= seq![s]);
        }
    } else {
        let t = s.skip(1);
        assert(s[0] != sep);
        lemma_split_on_boundary(t, sep, k - 1);
        let rest = split_on(t, sep);
        lemma_split_on_nonempty(t, sep);
        if k < s.len() && s[k] == sep {
            assert(t[k - 1] == sep);
            assert(rest == seq![t.take(k - 1)] + split_on(t.skip(k), sep));
            assert(rest[0] == t.take(k - 1));
            assert(seq![s[0]] + t.take(k - 1) =~= s.take(k));
            assert(rest.skip(1) =~= split_on(t.skip(k), sep));
            assert(t.skip(k) =~= s.skip(k + 1));
            assert(split_on(s, sep) =~= seq![s.take(k)] + split_on(s.skip(k + 1), sep));
        } else if k == s.len() {
            assert(rest == seq![t]);
            assert(seq![s[0]] + t =~= s);
            assert(rest.skip(1) =~= Seq::<Seq<char>>::empty());
            assert(split_on(s, sep) =~= seq![s]);
        }
    }
}

/// Splits `s` on the separator character, in order.
pub fn split_char(s: &str, sep: char) -> (parts: Vec<String>)
    ensures
        parts.deep_view() == split_on(s@, sep),
{
    let n = s.unicode_len();
    let mut parts: Vec<String> = Vec::new();
    let mut start: usize = 0;
    let mut i: usize = 0;
    proof {
        assert(s@.skip(0) =~= s@);
        assert(parts.deep_view() =~= Seq::<Seq<char>>::empty());
        assert(parts.deep_view() + split_on(s@, sep) =~= split_on(s@, sep));
    }
    while i < n
        invariant
            start <= i <= n,
            n == s@.len(),
            forall|j: int| start <= j < i ==> s@[j] != sep,
            split_on(s@, sep) == parts.deep_view() + split_on(s@.skip(start as int), sep),
        decreases n - i,
    {
        let c = s.get_char(i);
        if c == sep {
            let part = s.substring_char(start, i).to_owned();
            proof {
                let t = s@.skip(start as int);
                assert(forall|j: int|
                    0 <= j < i - start ==> t[j] == s@[start + j] && s@[start + j] != sep);
                lemma_split_on_boundary(t, sep, i - start);
                assert(t[i - start] == s@[i as int]);
                assert(t.take(i - start) =~= s@.subrange(start as int, i as int));
                assert(t.skip(i - start + 1) =~= s@.skip(i + 1));
                assert(parts.deep_view().push(part@) =~= parts.deep_view() + seq![part@]);
                assert(parts.deep_view() + seq![t.take(i - start)] + split_on(s@.skip(i + 1), sep)
                    =~= parts.deep_view() + (seq![t.take(i - start)] + split_on(
                    s@.skip(i + 1),
                    sep,
                )));
            }
            let ghost old_parts = parts.deep_view();
            parts.push(part);
            proof {
                assert(parts.deep_view() =~= old_parts.push(part@));
            }
            start = i + 1;
        }
        i = i + 1;
    }
    let last = s.substring_char(start, n).to_owned();
    proof {
        let t = s@.skip(start as int);
        assert(forall|j: int| 0 <= j < t.len() ==> t[j] == s@[start + j] && s@[start + j] != sep);
        lemma_split_on_boundary(t, sep, t.len() as int);
        assert(t =~= s@.subrange(start as int, n as int));
    }
    let ghost old_parts = parts.deep_view();
    parts.push(last);
    proof {
        assert(parts.deep_view() =~= old_parts.push(last@));
        assert(old_parts.push(last@) =~= old_parts + seq![s@.skip(start as int)]);
    }
    parts
}

/// Character-for-character equality of two string slices.
pub fn str_eq_str(a: &str, b: &str) -> (r: bool)
    ensures
        r == (a@ == b@),
{
    let na = a.unicode_len();
    let nb = b.unicode_len();
    if na != nb {
        return false;
    }
    let mut i: usize = 0;
    while i < na
        invariant
            i <= na,
            na == a@.len(),
            na == b@.len(),
            forall|j: int| 0 <= j < i ==> a@[j] == b@[j],
        decreases na - i,
    {
        if a.get_char(i) != b.get_char(i) {
            return false;
        }
        i = i + 1;
    }
    proof {
        assert(a@ =~= b@);
    }
    true
}

/// Whether `p` is a prefix of `s`.
pub fn str_starts_with(s: &str, p: &str) -> (r: bool)
    ensures
        r == p@.is_prefix_of(s@),
{
    let n = s.unicode_len();
    let m = p.unicode_len();
    if m > n {
        return false;
    }
    let mut i: usize = 0;
    while i < m
        invariant
            i <= m <= n,
            n == s@.len(),
            m == p@.len(),
            forall|j: int| 0 <= j < i ==> s@[j] == p@[j],
        decreases m - i,
    {
        if s.get_char(i) != p.get_char(i) {
            proof {
                assert(!(p@ =~= s@.subrange(0, p@.len() as int)));
            }
            return false;
        }
        i = i + 1;
    }
    proof {
        assert(p@ =~= s@.subrange(0, p@.len() as int));
    }
    true
}

/// Index of the first occurrence of `c` in `s`, if any.
pub open spec fn index_of_first(s: Seq<char>, c: char) -> Option<int>
    decreases s.len(),
{
    if s.len() == 0 {
        None
    } else if s[0] == c {
        Some(0)
    } else {
        match index_of_first(s.skip(1), c) {
            Some(j) => Some(j + 1),
            None => None,
        }
    }
}

pub proof fn lemma_index_of_first(s: Seq<char>, c: char)
    ensures
        match index_of_first(s, c) {
            Some(i) => 0 <= i < s.len() && s[i] == c && forall|j: int| 0 <= j < i ==> s[j] != c,
            None => forall|j: int| 0 <= j < s.len() ==> s[j] != c,
        },
    decreases s.len(),
{
    if s.len() > 0 && s[0] != c {
        let t = s.skip(1);
        lemma_index_of_first(t, c);
        match index_of_first(t, c) {
            Some(j) => {
                assert(s[j + 1] == t[j]);
                assert(forall|k: int| 1 <= k < j + 1 ==> s[k] == t[k - 1] && t[k - 1] != c);
            },
            None => {
                assert(forall|k: int| 1 <= k < s.len() ==> s[k] == t[k - 1] && t[k - 1] != c);
            },
        }
    }
}

/// First index at which `c` occurs in `s`.
pub fn find_char(s: &str, c: char) -> (r: Option<usize>)
    ensures
        match r {
            Some(i) => index_of_first(s@, c) == Some(i as int),
            None => index_of_first(s@, c) is None,
        },
{
    proof {
        lemma_index_of_first(s@, c);
    }
    let n = s.unicode_len();
    let mut i: usize = 0;
    while i < n
        invariant
            i <= n,
            n == s@.len(),
            forall|j: int| 0 <= j < i ==> s@[j] != c,
            match index_of_first(s@, c) {
                Some(k) => 0 <= k < s@.len() && s@[k] == c && forall|j: int|
                    0 <= j < k ==> s@[j] != c,
                None => forall|j: int| 0 <= j < s@.len() ==> s@[j] != c,
            },
        decreases n - i,
    {
        if s.get_char(i) == c {
            return Some(i);
        }
        i = i + 1;
    }
    None
}

/// Whether the pattern `p` occurs in `s` starting at position `i`.
pub open spec fn sub_at(s: Seq<char>, p: Seq<char>, i: int) -> bool {
    0 <= i && i + p.len() <= s.len() && s.subrange(i, i + p.len() as int) == p
}

/// Index of the first occurrence of `p` as a contiguous subsequence of `s`.
pub open spec fn first_sub_index(s: Seq<char>, p: Seq<char>) -> Option<int>
    decreases s.len(),
{
    if p.len() > s.len() {
        None
    } else if s.subrange(0, p.len() as int) == p {
        Some(0)
    } else if s.len() == 0 {
        None
    } else {
        match first_sub_index(s.skip(1), p) {
            Some(j) => Some(j + 1),
            None => None,
        }
    }
}

pub proof fn lemma_first_sub_index(s: Seq<char>, p: Seq<char>)
    ensures
        match first_sub_index(s, p) {
            Some(i) => sub_at(s, p, i) && forall|k: int| 0 <= k < i ==> !sub_at(s, p, k),
            None => forall|k: int| !sub_at(s, p, k),
        },
    decreases s.len(),
{
    if p.len() > s.len() {
        assert(forall|k: int| !sub_at(s, p, k));
    } else if s.subrange(0, p.len() as int) == p {
        assert(sub_at(s, p, 0));
    } else if s.len() == 0 {
        assert(forall|k: int| !sub_at(s, p, k));
    } else {
        let t = s.skip(1);
        lemma_first_sub_index(t, p);
        assert(forall|k: int| 1 <= k && #[trigger] sub_at(s, p, k) ==> sub_at(t, p, k - 1)) by {
            assert forall|k: int| 1 <= k && #[trigger] sub_at(s, p, k) implies sub_at(
                t,
                p,
                k - 1,
            ) by {
                assert(t.subrange(k - 1, k - 1 + p.len() as int) =~= s.subrange(
                    k,
                    k + p.len() as int,
                ));
            }
        }
        assert(forall|k: int| 0 <= k && #[trigger] sub_at(t, p, k) ==> sub_at(s, p, k + 1)) by {
            assert forall|k: int| 0 <= k && #[trigger] sub_at(t, p, k) implies sub_at(
                s,
                p,
                k + 1,
            ) by {
                assert(s.subrange(k + 1, k + 1 + p.len() as int) =~= t.subrange(
                    k,
                    k + p.len() as int,
                ));
            }
        }
        assert(!sub_at(s, p, 0));
    }
}

/// Whether `p` occurs in `s` at exactly position `i`.
fn match_at(s: &str, p: &str, i: usize) -> (r: bool)
    requires
        i + p@.len() <= s@.len(),
    ensures
        r == sub_at(s@, p@, i as int),
{
    let n = s.unicode_len();
    let m = p.unicode_len();
    let mut j: usize = 0;
    while j < m
        invariant
            j <= m,
            m == p@.len(),
            n == s@.len(),
            i + m <= n,
            forall|k: int| 0 <= k < j ==> s@[i + k] == p@[k],
        decreases m - j,
    {
        if s.get_char(i + j) != p.get_char(j) {
            proof {
                assert(!(s@.subrange(i as int, i + p@.len() as int) =~= p@));
            }
            return false;
        }
        j = j + 1;
    }
    proof {
        assert(s@.subrange(i as int, i + p@.len() as int) =~= p@);
    }
    true
}

/// First position at which the pattern `p` occurs as a substring of `s`.
pub fn find_sub(s: &str, p: &str) -> (r: Option<usize>)
    ensures
        match r {
            Some(i) => first_sub_index(s@, p@) == Some(i as int),
            None => first_sub_index(s@, p@) is None,
        },
{
    proof {
        lemma_first_sub_index(s@, p@);
    }
    let n = s.unicode_len();
    let m = p.unicode_len();
    if m > n {
        return None;
    }
    if m == 0 {
        proof {
            assert(s@.subrange(0, 0) =~= p@);
        }
        return Some(0);
    }
    let mut i: usize = 0;
    while i <= n - m
        invariant
            1 <= m <= n,
            n == s@.len(),
            m == p@.len(),
            i <= n - m + 1,
            forall|k: int| 0 <= k < i ==> !sub_at(s@, p@, k),
            match first_sub_index(s@, p@) {
                Some(j) => sub_at(s@, p@, j) && forall|k: int| 0 <= k < j ==> !sub_at(s@, p@, k),
                None => forall|k: int| !sub_at(s@, p@, k),
            },
        decreases n - m - i + 1,
    {
        if match_at(s, p, i) {
            proof {
                match first_sub_index(s@, p@) {
                    Some(j) => {
                        if j < i {
                            assert(!sub_at(s@, p@, j));
                        }
                        if i < j {
                            assert(!sub_at(s@, p@, i as int));
                        }
                    },
                    None => {
                        assert(!sub_at(s@, p@, i as int));
                    },
                }
            }
            return Some(i);
        }
        i = i + 1;
    }
    proof {
        assert(forall|k: int| k > n - m ==> !sub_at(s@, p@, k));
        if first_sub_index(s@, p@) is Some {
            let j = first_sub_index(s@, p@)->Some_0;
            assert(!sub_at(s@, p@, j));
        }
    }
    None
}

/// Whether the list holds a string whose characters equal those of `s`.
pub fn contains_str(v: &Vec<String>, s: &str) -> (r: bool)
    ensures
        r == v.deep_view().contains(s@),
{
    let n = v.len();
    let mut i: usize = 0;
    while i < n
        invariant
            i <= n,
            n == v.len(),
            forall|j: int| 0 <= j < i ==> v.deep_view()[j] != s@,
        decreases n - i,
    {
        proof {
            assert(v.deep_view()[i as int] == v@[i as int]@);
        }
        if str_eq_str(v[i].as_str(), s) {
            return true;
        }
        i = i + 1;
    }
    proof {
        assert(forall|j: int| 0 <= j < v.deep_view().len() ==> v.deep_view()[j] != s@);
        assert(!v.deep_view().contains(s@));
    }
    false
}

/// Appends `tail` to `base`, returning the concatenation.
pub fn concat_str(base: &str, tail: &str) -> (r: String)
    ensures
        r@ == base@ + tail@,
{
    let mut out = base.to_owned();
    out.append(tail);
    out
}

} // verus!
