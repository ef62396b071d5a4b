//! Where an exported file goes and what it is called.
use crate::text::{ascii_lower, spec_ascii_lower, spec_eq_ignore_ascii_case};
use vstd::prelude::*;

verus! {

/// Where a save will land.
#[derive(Clone, Debug)]
pub enum SavePreview {
    /// The file is written without a dialog, as `name` in the folder `dir`.
    Direct { dir: String, name: String },
    /// A dialog is opened in `start_dir`, if one is known, with `name`
    /// proposed.
    Dialog { start_dir: Option<String>, name: String },
}

/// An extension without its leading dot.
pub open spec fn spec_trim_dot(ext: Seq<char>) -> Seq<char> {
    if ext.len() > 0 && ext[0] == '.' {
        ext.subrange(1, ext.len() as int)
    } else {
        ext
    }
}

/// Strips one leading dot: `.png` becomes `png`.
pub fn trim_dot(ext: &str) -> (r: &str)
    ensures
        r@ == spec_trim_dot(ext@),
{
    let n: usize = ext.unicode_len();
    if n > 0 && ext.get_char(0) == '.' {
        ext.substring_char(1, n)
    } else {
        ext
    }
}

/// Index behind the last dot among the first `n` characters, or 0 when
/// there is no dot.
pub open spec fn spec_after_last_dot(name: Seq<char>, n: nat) -> nat
    decreases n,
{
    if n == 0 {
        0
    } else if name[n - 1] == '.' {
        n
    } else {
        spec_after_last_dot(name, (n - 1) as nat)
    }
}

/// Whether the part of `name` behind its last dot is `ext`, ASCII case
/// ignored. A name without dot counts as a whole.
pub open spec fn spec_has_ext(name: Seq<char>, ext: Seq<char>) -> bool {
    spec_eq_ignore_ascii_case(
        name.subrange(spec_after_last_dot(name, name.len()) as int, name.len() as int),
        ext,
    )
}

/// The file name with the extension added unless it already ends with it.
pub open spec fn spec_ensure_ext(name: Seq<char>, ext: Seq<char>) -> Seq<char> {
    if spec_has_ext(name, spec_trim_dot(ext)) {
        name
    } else {
        name + seq!['.'] + spec_trim_dot(ext)
    }
}

/// Whether `name` ends with the extension `ext`, which has no leading dot.
pub fn has_ext(name: &str, ext: &str) -> (r: bool)
    ensures
        r == spec_has_ext(name@, ext@),
{
    let n: usize = name.unicode_len();
    let m: usize = ext.unicode_len();
    let mut start: usize = n;
    while start > 0 && name.get_char(start - 1) != '.'
        invariant
            start <= n,
            n == name@.len(),
            spec_after_last_dot(name@, start as nat) == spec_after_last_dot(name@, n as nat),
        decreases start,
    {
        start = start - 1;
    }
    let ghost tail = name@.subrange(start as int, n as int);
    assert(start == spec_after_last_dot(name@, n as nat));
    if n - start != m {
        return false;
    }
    let mut i: usize = 0;
    while i < m
        invariant
            i <= m,
            start + m == n,
            n == name@.len(),
            m == ext@.len(),
            tail == name@.subrange(start as int, n as int),
            start == spec_after_last_dot(name@, n as nat),
            forall|j: int|
                0 <= j < i ==> spec_ascii_lower(#[trigger] tail[j]) == spec_ascii_lower(ext@[j]),
        decreases m - i,
    {
        if ascii_lower(name.get_char(start + i)) != ascii_lower(ext.get_char(i)) {
            assert(tail[i as int] == name@[start + i]);
            assert(spec_ascii_lower(tail[i as int]) != spec_ascii_lower(ext@[i as int]));
            return false;
        }
        assert(tail[i as int] == name@[start + i]);
        i = i + 1;
    }
    true
}

/// Makes sure that a file name carries the extension: the name is returned
/// as it is when it ends with `ext`, whatever the case of its letters, and
/// with `.` and `ext` added otherwise.
pub fn ensure_ext(name: &str, ext: &str) -> (r: String)
    ensures
        r@ == spec_ensure_ext(name@, ext@),
{
    let e: &str = trim_dot(ext);
    if has_ext(name, e) {
        name.to_owned()
    } else {
        proof {
            reveal_strlit(".");
            assert("."@ =~= seq!['.']);
        }
        name.to_owned().concat(".").concat(e)
    }
}

/// The names proposed for an export, first as a container and then as PNG:
/// the stem of the opened file where there is one, `clipboard` for an image
/// that came from no file, `texture` for a file without a stem.
pub open spec fn spec_default_stem(has_file: bool, stem: Option<Seq<char>>) -> Seq<char> {
    if has_file {
        match stem {
            Some(s) => s,
            None => "texture"@,
        }
    } else {
        "clipboard"@
    }
}

/// The default file names of an export.
pub fn default_names(has_file: bool, stem: Option<&str>) -> (r: (String, String))
    ensures
        r.0@ == spec_default_stem(
            has_file,
            match stem {
                Some(s) => Some(s@),
                None => None,
            },
        ) + ".blp"@,
        r.1@ == spec_default_stem(
            has_file,
            match stem {
                Some(s) => Some(s@),
                None => None,
            },
        ) + ".png"@,
{
    let base: &str = if has_file {
        match stem {
            Some(s) => s,
            None => "texture",
        }
    } else {
        "clipboard"
    };
    (base.to_owned().concat(".blp"), base.to_owned().concat(".png"))
}

/// Where a save of `default_name` with extension `ext` will land: beside
/// the opened file when that is asked for and the file has a folder, else in
/// a dialog that starts in the folder of the last save or, failing that, in
/// the folder of the opened file.
pub fn preview_save_path(
    save_same_dir: bool,
    picked_parent: Option<String>,
    last_save_dir: Option<String>,
    default_name: &str,
    ext: &str,
) -> (r: SavePreview)
    ensures
        match r {
            SavePreview::Direct { dir, name } => save_same_dir && picked_parent is Some && dir@
                == picked_parent->Some_0@ && name@ == spec_ensure_ext(default_name@, ext@),
            SavePreview::Dialog { start_dir, name } => !(save_same_dir && picked_parent is Some)
                && name@ == spec_ensure_ext(default_name@, ext@) && match last_save_dir {
                Some(d) => start_dir is Some && start_dir->Some_0@ == d@,
                None => match picked_parent {
                    Some(p) => start_dir is Some && start_dir->Some_0@ == p@,
                    None => start_dir is None,
                },
            },
        },
{
    let name = ensure_ext(default_name, ext);
    if save_same_dir {
        match picked_parent {
            Some(dir) => SavePreview::Direct { dir, name },
            None => SavePreview::Dialog { start_dir: last_save_dir, name },
        }
    } else {
        match last_save_dir {
            Some(d) => SavePreview::Dialog { start_dir: Some(d), name },
            None => SavePreview::Dialog { start_dir: picked_parent, name },
        }
    }
}

} // verus!
