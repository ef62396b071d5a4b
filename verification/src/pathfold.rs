//! Folding the home folder at the start of a path into a short macro: `~` on
//! Unix, `%NAME%` on Windows.
use crate::text::{
    has_prefix_boundary, spec_has_prefix_boundary, spec_trim_end, spec_trim_trailing_bslash,
    trim_trailing_bslash, trim_trailing_slash,
};
use vstd::prelude::*;

verus! {

/// `s` with the home folder at its start replaced by `~`, where `s` lies in
/// that folder; slashes at the end of `home` do not count.
pub open spec fn spec_fold_home(s: Seq<char>, home: Seq<char>) -> Seq<char> {
    let pref = spec_trim_end(home, '/', 1);
    if spec_has_prefix_boundary(s, pref, false) {
        seq!['~'] + s.subrange(pref.len() as int, s.len() as int)
    } else {
        s
    }
}

/// Shortens a Unix path that lies in the home folder to `~` and the rest.
pub fn fold_home(s: &str, home: &str) -> (r: String)
    ensures
        r@ == spec_fold_home(s@, home@),
{
    let pref: String = trim_trailing_slash(home.to_owned());
    if has_prefix_boundary(s, pref.as_str(), false) {
        let m: usize = pref.as_str().unicode_len();
        let n: usize = s.unicode_len();
        proof {
            reveal_strlit("~");
            assert("~"@ =~= seq!['~']);
        }
        "~".to_owned().concat(s.substring_char(m, n))
    } else {
        s.to_owned()
    }
}

/// A path with every slash turned into a backslash.
pub open spec fn spec_to_backslashes(s: Seq<char>) -> Seq<char> {
    Seq::new(
        s.len(),
        |i: int|
            if s[i] == '/' {
                '\\'
            } else {
                s[i]
            },
    )
}

/// Turns every slash of a path into a backslash.
pub fn to_backslashes(s: &str) -> (r: String)
    ensures
        r@ == spec_to_backslashes(s@),
{
    let n: usize = s.unicode_len();
    let mut out: String = String::new();
    let mut i: usize = 0;
    proof {
        reveal_strlit("\\");
        assert("\\"@ =~= seq!['\\']);
    }
    while i < n
        invariant
            i <= n,
            n == s@.len(),
            "\\"@ == seq!['\\'],
            out@ == spec_to_backslashes(s@).subrange(0, i as int),
        decreases n - i,
    {
        if s.get_char(i) == '/' {
            out.append("\\");
        } else {
            out.append(s.substring_char(i, i + 1));
        }
        i = i + 1;
        assert(out@ =~= spec_to_backslashes(s@).subrange(0, i as int));
    }
    assert(spec_to_backslashes(s@).subrange(0, n as int) =~= spec_to_backslashes(s@));
    out
}

/// The folder that a Windows variable names, as a prefix to look for:
/// backslashes throughout and none at the end, roots left alone.
pub open spec fn spec_windows_prefix(value: Seq<char>) -> Seq<char> {
    spec_trim_trailing_bslash(spec_to_backslashes(value))
}

/// Brings the value of a Windows variable into the form of a prefix.
pub fn windows_prefix(value: &str) -> (r: String)
    ensures
        r@ == spec_windows_prefix(value@),
{
    trim_trailing_bslash(to_backslashes(value))
}

/// Whether candidate `i` is a prefix of `s` on a segment boundary, letters
/// compared without regard to case.
pub open spec fn spec_candidate_fits(s: Seq<char>, prefs: Seq<String>, i: int) -> bool {
    spec_has_prefix_boundary(s, prefs[i]@, true)
}

/// Whether candidate `i` is the one to fold: it fits, no fitting candidate
/// is longer, and every fitting candidate before it is shorter.
pub open spec fn spec_is_best(s: Seq<char>, prefs: Seq<String>, i: int) -> bool {
    &&& 0 <= i < prefs.len()
    &&& spec_candidate_fits(s, prefs, i)
    &&& forall|j: int|
        0 <= j < prefs.len() && #[trigger] spec_candidate_fits(s, prefs, j) ==> prefs[j]@.len()
            <= prefs[i]@.len() && (j < i ==> prefs[j]@.len() < prefs[i]@.len())
}

/// Picks the longest of the candidate folders that `s` lies in, the first
/// of them where several are equally long.
pub fn longest_prefix(s: &str, prefs: &Vec<String>) -> (r: Option<usize>)
    ensures
        match r {
            Some(i) => spec_is_best(s@, prefs@, i as int),
            None => forall|j: int| 0 <= j < prefs@.len() ==> !spec_candidate_fits(s@, prefs@, j),
        },
{
    let mut best: Option<usize> = None;
    let mut best_len: usize = 0;
    let mut k: usize = 0;
    while k < prefs.len()
        invariant
            k <= prefs@.len(),
            match best {
                Some(i) => {
                    &&& i < k
                    &&& best_len == prefs@[i as int]@.len()
                    &&& spec_candidate_fits(s@, prefs@, i as int)
                    &&& forall|j: int|
                        0 <= j < k && #[trigger] spec_candidate_fits(s@, prefs@, j)
                            ==> prefs@[j]@.len() <= best_len && (j < i ==> prefs@[j]@.len()
                            < best_len)
                },
                None => forall|j: int| 0 <= j < k ==> !spec_candidate_fits(s@, prefs@, j),
            },
        decreases prefs@.len() - k,
    {
        let p: &str = prefs[k].as_str();
        if has_prefix_boundary(s, p, true) {
            let len: usize = p.unicode_len();
            let better: bool = match best {
                Some(_) => len > best_len,
                None => true,
            };
            if better {
                best = Some(k);
                best_len = len;
            }
        }
        k = k + 1;
    }
    best
}

/// `s` with its first `skip` characters replaced by `%name%`.
pub open spec fn spec_fold_var(s: Seq<char>, name: Seq<char>, skip: int) -> Seq<char> {
    seq!['%'] + name + seq!['%'] + s.subrange(skip, s.len() as int)
}

/// Replaces the first `skip` characters of a Windows path by the variable
/// `name` between percent signs.
pub fn fold_var(s: &str, name: &str, skip: usize) -> (r: String)
    requires
        skip <= s@.len(),
    ensures
        r@ == spec_fold_var(s@, name@, skip as int),
{
    let n: usize = s.unicode_len();
    proof {
        reveal_strlit("%");
        assert("%"@ =~= seq!['%']);
    }
    "%".to_owned().concat(name).concat("%").concat(s.substring_char(skip, n))
}

/// Shortens a Windows path that lies in one of the candidate folders:
/// the longest fitting folder is replaced by the name that stands for it.
/// `names` and `prefs` run in step; a path that fits none is left as it is.
pub fn fold_windows(s: &str, names: &Vec<String>, prefs: &Vec<String>) -> (r: String)
    requires
        names@.len() == prefs@.len(),
    ensures
        (forall|j: int| 0 <= j < prefs@.len() ==> !spec_candidate_fits(s@, prefs@, j)) ==> r@
            == s@,
        forall|i: int|
            spec_is_best(s@, prefs@, i) ==> r@ == spec_fold_var(
                s@,
                names@[i]@,
                prefs@[i]@.len() as int,
            ),
{
    match longest_prefix(s, prefs) {
        Some(i) => {
            proof {
                assert forall|i2: int| spec_is_best(s@, prefs@, i2) implies i2 == i by {
                    assert(spec_candidate_fits(s@, prefs@, i2));
                    assert(spec_candidate_fits(s@, prefs@, i as int));
                }
            }
            let skip: usize = prefs[i].as_str().unicode_len();
            fold_var(s, names[i].as_str(), skip)
        },
        None => {
            proof {
                assert forall|i2: int| !spec_is_best(s@, prefs@, i2) by {
                    if 0 <= i2 < prefs@.len() {
                        assert(!spec_candidate_fits(s@, prefs@, i2));
                    }
                }
            }
            s.to_owned()
        },
    }
}

} // verus!
