//! Character-level string utilities: substring search, path component
//! extraction, and path joining, each against an exact sequence-level
//! specification.

use vstd::prelude::*;

verus! {

/// `needle` occurs contiguously somewhere inside `hay`.
pub open spec fn is_substring(needle: Seq<char>, hay: Seq<char>) -> bool {
    exists|i: int|
        0 <= i && i + needle.len() <= hay.len() && #[trigger] hay.subrange(i, i + needle.len())
            == needle
}

/// Every string contains itself.
pub proof fn lemma_substring_refl(s: Seq<char>)
    ensures
        is_substring(s, s),
{
    assert(s.subrange(0, 0 + s.len() as int) =~= s);
}

/// Character-wise equality of two string slices.
pub fn str_eq(a: &str, b: &str) -> (r: bool)
    ensures
        r == (a@ == b@),
{
    let alen = a.unicode_len();
    let blen = b.unicode_len();
    if alen != blen {
        return false;
    }
    let mut i: usize = 0;
    while i < alen
        invariant
            alen == a@.len(),
            alen == b@.len(),
            i <= alen,
            forall|k: int| 0 <= k < i ==> a@[k] == b@[k],
        decreases alen - i,
    {
        if a.get_char(i) != b.get_char(i) {
            return false;
        }
        i += 1;
    }
    assert(a@ =~= b@);
    true
}

/// Whether `needle` matches `hay` starting at position `at`.
fn matches_at(hay: &str, needle: &str, at: usize) -> (r: bool)
    requires
        at + needle@.len() <= hay@.len(),
    ensures
        r == (hay@.subrange(at as int, at + needle@.len()) == needle@),
{
    let n = hay.unicode_len();
    let m = needle.unicode_len();
    let mut j: usize = 0;
    while j < m
        invariant
            n == hay@.len(),
            m == needle@.len(),
            at + m <= n,
            j <= m,
            forall|k: int| 0 <= k < j ==> hay@[at + k] == needle@[k],
        decreases m - j,
    {
        if hay.get_char(at + j) != needle.get_char(j) {
            assert(hay@.subrange(at as int, at + needle@.len())[j as int] == hay@[at + j]);
            return false;
        }
        j += 1;
    }
    assert(hay@.subrange(at as int, at + needle@.len()) =~= needle@);
    true
}

/// Substring search: does `hay` contain `needle`?
pub fn contains_sub(hay: &str, needle: &str) -> (r: bool)
    ensures
        r == is_substring(needle@, hay@),
{
    let n = hay.unicode_len();
    let m = needle.unicode_len();
    if m > n {
        return false;
    }
    if m == 0 {
        assert(hay@.subrange(0, 0 + needle@.len() as int) =~= needle@);
        return true;
    }
    let mut i: usize = 0;
    while i <= n - m
        invariant
            n == hay@.len(),
            m == needle@.len(),
            0 < m <= n,
            i <= n - m + 1,
            forall|k: int| 0 <= k < i ==> #[trigger] hay@.subrange(k, k + m) != needle@,
        decreases n - m + 1 - i,
    {
        if matches_at(hay, needle, i) {
            return true;
        }
        i += 1;
    }
    false
}

/// `s` with every trailing `/` removed.
pub open spec fn strip_trailing_slashes(s: Seq<char>) -> Seq<char>
    decreases s.len(),
{
    if s.len() > 0 && s[s.len() - 1] == '/' {
        strip_trailing_slashes(s.drop_last())
    } else {
        s
    }
}

/// The suffix of `s` after its last `/` — all of `s` when it has none.
pub open spec fn suffix_after_last_slash(s: Seq<char>) -> Seq<char>
    decreases s.len(),
{
    if s.len() == 0 {
        s
    } else if s[s.len() - 1] == '/' {
        Seq::<char>::empty()
    } else {
        suffix_after_last_slash(s.drop_last()).push(s[s.len() - 1])
    }
}

/// The final component of a path in this library's path model: trailing
/// separators are ignored, and a path whose last component is empty, `.`
/// or `..` has none.
pub open spec fn spec_final_component(p: Seq<char>) -> Option<Seq<char>> {
    let name = suffix_after_last_slash(strip_trailing_slashes(p));
    if name.len() == 0 || name == "."@ || name == ".."@ {
        None
    } else {
        Some(name)
    }
}

/// A string without `/` is its own suffix after the last slash.
pub proof fn lemma_suffix_of_slashless(s: Seq<char>)
    requires
        forall|i: int| 0 <= i < s.len() ==> s[i] != '/',
    ensures
        suffix_after_last_slash(s) == s,
    decreases s.len(),
{
    if s.len() > 0 {
        lemma_suffix_of_slashless(s.drop_last());
        assert(s.drop_last().push(s[s.len() - 1]) =~= s);
    }
}

/// Extract the final component of a path, per `spec_final_component`.
pub fn final_component(p: &str) -> (r: Option<String>)
    ensures
        match r {
            Some(name) => spec_final_component(p@) == Some(name@),
            None => spec_final_component(p@) is None,
        },
{
    let n = p.unicode_len();
    proof {
        assert(p@.subrange(0, n as int) =~= p@);
    }
    let mut end: usize = n;
    while end > 0 && p.get_char(end - 1) == '/'
        invariant
            n == p@.len(),
            end <= n,
            strip_trailing_slashes(p@) == strip_trailing_slashes(p@.subrange(0, end as int)),
        decreases end,
    {
        proof {
            assert(p@.subrange(0, end as int).drop_last() =~= p@.subrange(0, end - 1));
        }
        end -= 1;
    }
    proof {
        assert(strip_trailing_slashes(p@.subrange(0, end as int)) == p@.subrange(0, end as int));
        if end == n {
            assert(p@.subrange(0, end as int) =~= p@);
        }
    }
    let ghost t = p@.subrange(0, end as int);
    let mut start: usize = end;
    while start > 0 && p.get_char(start - 1) != '/'
        invariant
            n == p@.len(),
            start <= end <= n,
            t == p@.subrange(0, end as int),
            strip_trailing_slashes(p@) == t,
            suffix_after_last_slash(t) == suffix_after_last_slash(p@.subrange(0, start as int))
                + p@.subrange(start as int, end as int),
        decreases start,
    {
        proof {
            let pre = p@.subrange(0, start as int);
            assert(pre.drop_last() =~= p@.subrange(0, start - 1));
            assert(pre[pre.len() - 1] == p@[start - 1]);
            assert(suffix_after_last_slash(p@.subrange(0, start - 1)).push(p@[start - 1]) + p@
                .subrange(start as int, end as int) =~= suffix_after_last_slash(
                p@.subrange(0, start - 1),
            ) + p@.subrange(start - 1, end as int));
        }
        start -= 1;
    }
    proof {
        let pre = p@.subrange(0, start as int);
        if start == 0 {
            assert(suffix_after_last_slash(pre) =~= Seq::<char>::empty());
        } else {
            assert(pre[pre.len() - 1] == p@[start - 1]);
            assert(suffix_after_last_slash(pre) == Seq::<char>::empty());
        }
        assert(suffix_after_last_slash(t) =~= p@.subrange(start as int, end as int));
    }
    let name = p.substring_char(start, end);
    if name.unicode_len() == 0 || str_eq(name, ".") || str_eq(name, "..") {
        None
    } else {
        Some(name.to_owned())
    }
}

/// Join a directory path and a child name with the `/` separator.
pub fn join_path(base: &str, name: &str) -> (r: String)
    ensures
        r@ == base@ + "/"@ + name@,
{
    let mut s = base.to_owned();
    s.append("/");
    s.append(name);
    s
}

} // verus!
