//! Small text operations, stated over the characters of a string.
use vstd::prelude::*;

verus! {

/// The lower-case form of an ASCII upper-case letter; any other character is
/// left as it is.
pub open spec fn spec_ascii_lower(c: char) -> u32 {
    if 'A' <= c && c <= 'Z' {
        (c as u32 + 32) as u32
    } else {
        c as u32
    }
}

/// The lower-case form of an ASCII upper-case letter, as a code point.
pub fn ascii_lower(c: char) -> (r: u32)
    ensures
        r == spec_ascii_lower(c),
{
    if 'A' <= c && c <= 'Z' {
        c as u32 + 32
    } else {
        c as u32
    }
}

/// Two texts are equal when ASCII letters are compared without regard to
/// case.
pub open spec fn spec_eq_ignore_ascii_case(a: Seq<char>, b: Seq<char>) -> bool {
    &&& a.len() == b.len()
    &&& forall|i: int| 0 <= i < a.len() ==> spec_ascii_lower(#[trigger] a[i]) == spec_ascii_lower(b[i])
}

/// Whether `s` begins with `pref`, ASCII case ignored when `ci` is set.
pub open spec fn spec_starts_with(s: Seq<char>, pref: Seq<char>, ci: bool) -> bool {
    &&& pref.len() <= s.len()
    &&& if ci {
        spec_eq_ignore_ascii_case(s.subrange(0, pref.len() as int), pref)
    } else {
        s.subrange(0, pref.len() as int) == pref
    }
}

/// Whether `s` begins with `pref` and ends there or goes on with a path
/// separator, so that `pref` covers whole path segments of `s`.
pub open spec fn spec_has_prefix_boundary(s: Seq<char>, pref: Seq<char>, ci: bool) -> bool {
    spec_starts_with(s, pref, ci) && (s.len() == pref.len() || s[pref.len() as int] == '/'
        || s[pref.len() as int] == '\\')
}

/// Whether `s` begins with `pref` on a segment boundary. `ci` compares ASCII
/// letters without regard to case.
pub fn has_prefix_boundary(s: &str, pref: &str, ci: bool) -> (r: bool)
    ensures
        r == spec_has_prefix_boundary(s@, pref@, ci),
{
    let n: usize = s.unicode_len();
    let m: usize = pref.unicode_len();
    if n < m {
        return false;
    }
    let mut i: usize = 0;
    while i < m
        invariant
            i <= m <= n,
            n == s@.len(),
            m == pref@.len(),
            forall|j: int|
                0 <= j < i ==> if ci {
                    spec_ascii_lower(#[trigger] s@[j]) == spec_ascii_lower(pref@[j])
                } else {
                    s@[j] == pref@[j]
                },
        decreases m - i,
    {
        let a: char = s.get_char(i);
        let b: char = pref.get_char(i);
        let same: bool = if ci { ascii_lower(a) == ascii_lower(b) } else { a == b };
        if !same {
            proof {
                let head = s@.subrange(0, m as int);
                assert(head[i as int] == s@[i as int]);
            }
            return false;
        }
        i = i + 1;
    }
    proof {
        let head = s@.subrange(0, m as int);
        if ci {
            assert forall|j: int| 0 <= j < head.len() implies spec_ascii_lower(
                #[trigger] head[j],
            ) == spec_ascii_lower(pref@[j]) by {
                assert(head[j] == s@[j]);
            }
        } else {
            assert(head =~= pref@);
        }
    }
    if n == m {
        return true;
    }
    let c: char = s.get_char(m);
    c == '/' || c == '\\'
}

/// `s` without the run of `c` at its end, but never shorter than `keep`
/// characters.
pub open spec fn spec_trim_end(s: Seq<char>, c: char, keep: nat) -> Seq<char>
    decreases s.len(),
{
    if s.len() > keep && s.len() > 0 && s.last() == c {
        spec_trim_end(s.drop_last(), c, keep)
    } else {
        s
    }
}

/// Number of characters of `s` that `spec_trim_end` keeps.
pub fn trimmed_len(s: &str, c: char, keep: usize) -> (n: usize)
    ensures
        n <= s@.len(),
        s@.subrange(0, n as int) == spec_trim_end(s@, c, keep as nat),
{
    let mut n: usize = s.unicode_len();
    assert(s@.subrange(0, n as int) =~= s@);
    while n > keep && n > 0 && s.get_char(n - 1) == c
        invariant
            n <= s@.len(),
            spec_trim_end(s@.subrange(0, n as int), c, keep as nat) == spec_trim_end(
                s@,
                c,
                keep as nat,
            ),
        decreases n,
    {
        assert(s@.subrange(0, n as int).drop_last() =~= s@.subrange(0, n - 1));
        n = n - 1;
    }
    n
}

/// A path without the slashes at its end; a path of one character is kept,
/// so that the root stays the root.
pub fn trim_trailing_slash(s: String) -> (r: String)
    ensures
        r@ == spec_trim_end(s@, '/', 1),
{
    let v: &str = s.as_str();
    let n: usize = trimmed_len(v, '/', 1);
    v.substring_char(0, n).to_owned()
}

/// Number of backslashes among the first `n` characters.
pub open spec fn spec_count_backslashes(s: Seq<char>, n: nat) -> nat
    decreases n,
{
    if n == 0 {
        0
    } else {
        spec_count_backslashes(s, (n - 1) as nat) + if s[n - 1] == '\\' {
            1nat
        } else {
            0nat
        }
    }
}

/// A drive root such as `C:\`: three characters, the first of them ASCII.
pub open spec fn spec_is_drive_root(s: Seq<char>) -> bool {
    s.len() == 3 && (s[0] as u32) < 128 && s[1] == ':' && s[2] == '\\'
}

/// The root of a network share: two leading backslashes and no third one.
pub open spec fn spec_is_unc_root(s: Seq<char>) -> bool {
    s.len() >= 2 && s[0] == '\\' && s[1] == '\\' && spec_count_backslashes(s, s.len()) < 3
}

/// A Windows path without the backslashes at its end; drive roots and share
/// roots are kept as they are.
pub open spec fn spec_trim_trailing_bslash(s: Seq<char>) -> Seq<char> {
    if s.len() > 0 && s.last() == '\\' && !spec_is_drive_root(s) && !spec_is_unc_root(s) {
        spec_trim_end(s, '\\', 0)
    } else {
        s
    }
}

/// Removes the backslashes at the end of a Windows path, but leaves a drive
/// root or the root of a network share untouched.
pub fn trim_trailing_bslash(s: String) -> (r: String)
    ensures
        r@ == spec_trim_trailing_bslash(s@),
{
    let v: &str = s.as_str();
    let n: usize = v.unicode_len();
    if n == 0 || v.get_char(n - 1) != '\\' {
        return s;
    }
    let is_drive_root: bool = n == 3 && (v.get_char(0) as u32) < 128 && v.get_char(1) == ':'
        && v.get_char(2) == '\\';
    let mut count: usize = 0;
    let mut i: usize = 0;
    while i < n
        invariant
            i <= n,
            n == v@.len(),
            count <= i,
            count == spec_count_backslashes(v@, i as nat),
        decreases n - i,
    {
        if v.get_char(i) == '\\' {
            count = count + 1;
        }
        i = i + 1;
    }
    let is_unc_root: bool = n >= 2 && v.get_char(0) == '\\' && v.get_char(1) == '\\' && count
        < 3;
    if is_drive_root || is_unc_root {
        return s;
    }
    let keep: usize = trimmed_len(v, '\\', 0);
    v.substring_char(0, keep).to_owned()
}

} // verus!
