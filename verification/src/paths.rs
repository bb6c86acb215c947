//! Path computations for the install root.
//!
//! Paths are plain strings joined with the platform separator; nothing
//! here touches a real filesystem.

use vstd::prelude::*;
use vstd::string::*;
use crate::strutil::{concat3, trim, trim_spec};
use crate::errors::LibError;

verus! {

pub open spec fn sep_seq() -> Seq<char> {
    seq!['\\']
}

/// `base` and `name` joined with one separator between them.
pub open spec fn joined(base: Seq<char>, name: Seq<char>) -> Seq<char> {
    base + sep_seq() + name
}

pub fn join(base: &str, name: &str) -> (r: String)
    ensures
        r@ == joined(base@, name@),
{
    proof {
        reveal_strlit("\\");
    }
    let r = concat3(base, "\\", name);
    proof {
        assert(r@ =~= joined(base@, name@));
    }
    r
}

/// The `.runtime` working area under the install root.
pub fn runtime_dir(root: &str) -> (r: String)
    ensures
        r@ == joined(root@, ".runtime"@),
{
    join(root, ".runtime")
}

/// The payload tree under the install root.
pub fn app_dir(root: &str) -> (r: String)
    ensures
        r@ == joined(root@, "app"@),
{
    join(root, "app")
}

/// The runtime's primary and secondary executables under the root.
pub fn uv_paths(root: &str) -> (r: (String, String, String))
    ensures
        r.0@ == joined(root@, "uv.exe"@),
        r.1@ == joined(root@, "uvx.exe"@),
        r.2@ == joined(root@, "uvw.exe"@),
{
    (join(root, "uv.exe"), join(root, "uvx.exe"), join(root, "uvw.exe"))
}

pub open spec fn state_path_spec(root: Seq<char>) -> Seq<char> {
    joined(joined(root, ".runtime"@), "state.json"@)
}

/// Where the persisted state record lives under the install root.
pub fn state_path(root: &str) -> (r: String)
    ensures
        r@ == state_path_spec(root@),
{
    let rt = runtime_dir(root);
    join(rt.as_str(), "state.json")
}

/// The log directory under the install root.
pub fn logs_dir(root: &str) -> (r: String)
    ensures
        r@ == joined(joined(root@, ".runtime"@), "logs"@),
{
    let rt = runtime_dir(root);
    join(rt.as_str(), "logs")
}

/// The `.lnk` path for a program-menu shortcut, or an error for an
/// empty name.
pub fn shortcut_path(start_menu_dir: &str, name: &str) -> (r: Result<String, LibError>)
    ensures
        name@.len() == 0 <==> r is Err,
        r matches Err(e) ==> e is EmptyShortcutName,
        r matches Ok(p) ==> p@ == joined(start_menu_dir@, name@ + ".lnk"@),
{
    if name.unicode_len() == 0 {
        return Err(LibError::EmptyShortcutName);
    }
    let file = crate::strutil::concat2(name, ".lnk");
    Ok(join(start_menu_dir, file.as_str()))
}

pub open spec fn is_sep(c: char) -> bool {
    c == '\\' || c == '/'
}

pub open spec fn is_ascii_alpha(c: char) -> bool {
    ('a' <= c <= 'z') || ('A' <= c <= 'Z')
}

/// A Windows-style absolute path: rooted at a separator or at a drive
/// letter followed by a colon.
pub open spec fn is_abs_spec(p: Seq<char>) -> bool {
    (p.len() >= 1 && is_sep(p[0])) || (p.len() >= 2 && is_ascii_alpha(p[0]) && p[1] == ':')
}

pub fn is_absolute_path(p: &str) -> (r: bool)
    ensures
        r == is_abs_spec(p@),
{
    let n = p.unicode_len();
    if n >= 1 {
        let c0 = p.get_char(0);
        if c0 == '\\' || c0 == '/' {
            return true;
        }
        if n >= 2 {
            let alpha = ('a' <= c0 && c0 <= 'z') || ('A' <= c0 && c0 <= 'Z');
            if alpha && p.get_char(1) == ':' {
                return true;
            }
        }
    }
    false
}

/// An absolute path stays as it is; a relative one is resolved under
/// `root`.
pub fn absolutize_path(root: &str, path: &str) -> (r: String)
    ensures
        is_abs_spec(path@) ==> r@ == path@,
        !is_abs_spec(path@) ==> r@ == joined(root@, path@),
{
    if is_absolute_path(path) {
        path.to_owned()
    } else {
        join(root, path)
    }
}

pub open spec fn default_install_root_spec(local: Seq<char>, install_dir: Seq<char>, app: Seq<char>) -> Seq<char> {
    let custom = trim_spec(install_dir);
    if custom.len() == 0 {
        joined(joined(local, "Uvessel"@), app)
    } else if is_abs_spec(custom) {
        joined(custom, app)
    } else {
        joined(joined(joined(local, "Uvessel"@), custom), app)
    }
}

/// The install root for `app_name`, under the per-user local data
/// directory `local_appdata`, honouring a configured install directory.
pub fn default_install_root(local_appdata: &str, install_dir: &str, app_name: &str) -> (r: Result<
    String,
    LibError,
>)
    ensures
        app_name@.len() == 0 <==> r is Err,
        r matches Err(e) ==> e is EmptyAppName,
        r matches Ok(p) ==> p@ == default_install_root_spec(local_appdata@, install_dir@, app_name@),
{
    if app_name.unicode_len() == 0 {
        return Err(LibError::EmptyAppName);
    }
    let custom = trim(install_dir);
    if custom.unicode_len() == 0 {
        let base = join(local_appdata, "Uvessel");
        Ok(join(base.as_str(), app_name))
    } else if is_absolute_path(custom.as_str()) {
        Ok(join(custom.as_str(), app_name))
    } else {
        let base = join(local_appdata, "Uvessel");
        let base2 = join(base.as_str(), custom.as_str());
        Ok(join(base2.as_str(), app_name))
    }
}

/// The last component starts after the last separator; it never
/// starts past the end.
pub proof fn lemma_base_start_bounds(s: Seq<char>)
    ensures
        0 <= base_start(s) <= s.len(),
    decreases s.len(),
{
    if s.len() > 0 && !is_sep(s[s.len() - 1]) {
        lemma_base_start_bounds(s.drop_last());
    }
}

/// A path that can carry a written file: it has a parent separator
/// and a non-empty final component.
pub open spec fn valid_file_dest(p: Seq<char>) -> bool {
    0 < base_start(p) && base_start(p) < p.len()
}

/// Whether `p` names a parent directory and a file name.
pub fn is_valid_file_dest(p: &str) -> (r: bool)
    ensures
        r == valid_file_dest(p@),
{
    let n = p.unicode_len();
    let mut b: usize = n;
    while b > 0
        invariant
            b <= n,
            n == p@.len(),
            forall|k: int| b <= k < n ==> !is_sep(p@[k]),
        ensures
            b <= n,
            forall|k: int| b <= k < n ==> !is_sep(p@[k]),
            b > 0 ==> is_sep(p@[b - 1]),
        decreases b,
    {
        let c = p.get_char(b - 1);
        if c == '\\' || c == '/' {
            break ;
        }
        b -= 1;
    }
    proof {
        lemma_base_start_at(p@, b as int);
    }
    b > 0 && b < n
}

/// The directory part of `p` in spec form.
pub open spec fn parent_dir_spec(p: Seq<char>) -> Seq<char> {
    p.subrange(0, base_start(p) - 1)
}

/// The directory part of `p`: everything before its last separator.
pub fn parent_dir(p: &str) -> (r: Option<String>)
    ensures
        base_start(p@) == 0 ==> r is None,
        base_start(p@) > 0 ==> r is Some,
        r matches Some(d) ==> base_start(p@) > 0 && d@ == parent_dir_spec(p@) && d@.len()
            < p@.len(),
{
    let n = p.unicode_len();
    let mut b: usize = n;
    while b > 0
        invariant
            b <= n,
            n == p@.len(),
            forall|k: int| b <= k < n ==> !is_sep(p@[k]),
        ensures
            b <= n,
            forall|k: int| b <= k < n ==> !is_sep(p@[k]),
            b > 0 ==> is_sep(p@[b - 1]),
        decreases b,
    {
        let c = p.get_char(b - 1);
        if c == '\\' || c == '/' {
            break ;
        }
        b -= 1;
    }
    proof {
        lemma_base_start_at(p@, b as int);
    }
    if b == 0 {
        None
    } else {
        Some(p.substring_char(0, b - 1).to_owned())
    }
}

/// Index just past the last path separator, or `0` when there is none.
pub open spec fn base_start(s: Seq<char>) -> int
    decreases s.len(),
{
    if s.len() == 0 {
        0
    } else if is_sep(s[s.len() - 1]) {
        s.len() as int
    } else {
        base_start(s.drop_last())
    }
}

/// Index of the last `.` of a file name, or its length when there is
/// none.
pub open spec fn stem_end(f: Seq<char>) -> int
    decreases f.len(),
{
    if f.len() == 0 {
        0
    } else if f[f.len() - 1] == '.' {
        f.len() - 1
    } else {
        let e = stem_end(f.drop_last());
        if e == f.len() - 1 {
            f.len() as int
        } else {
            e
        }
    }
}

/// The stem of the file named by the path `s`: the part of its last
/// component before the final dot, the whole component when there is no
/// dot or only a leading one.
pub open spec fn file_stem_spec(s: Seq<char>) -> Seq<char> {
    let f = s.subrange(base_start(s), s.len() as int);
    let e = stem_end(f);
    if e == 0 {
        f
    } else {
        f.subrange(0, e)
    }
}

pub proof fn lemma_base_start_at(s: Seq<char>, b: int)
    requires
        0 <= b <= s.len(),
        forall|k: int| b <= k < s.len() ==> !is_sep(s[k]),
        b > 0 ==> is_sep(s[b - 1]),
    ensures
        base_start(s) == b,
    decreases s.len(),
{
    if s.len() == 0 {
    } else if b == s.len() {
    } else {
        assert(!is_sep(s[s.len() - 1]));
        lemma_base_start_at(s.drop_last(), b);
    }
}

proof fn lemma_stem_end_at(f: Seq<char>, e: int)
    requires
        (e == f.len() && forall|k: int| 0 <= k < f.len() ==> f[k] != '.') || (0 <= e < f.len()
            && f[e] == '.' && forall|k: int| e < k < f.len() ==> f[k] != '.'),
    ensures
        stem_end(f) == e,
    decreases f.len(),
{
    if f.len() == 0 {
    } else if f[f.len() - 1] == '.' {
        assert(e == f.len() - 1);
    } else {
        if e == f.len() {
            lemma_stem_end_at(f.drop_last(), e - 1);
        } else {
            assert(e < f.len() - 1);
            lemma_stem_end_at(f.drop_last(), e);
        }
    }
}

/// The name of the application, taken from the stem of its executable
/// path; an empty stem is rejected.
pub fn app_name_from_exe(exe: &str) -> (r: Result<String, LibError>)
    ensures
        file_stem_spec(exe@).len() == 0 <==> r is Err,
        r matches Err(e) ==> e is EmptyExeName,
        r matches Ok(st) ==> st@ == file_stem_spec(exe@),
{
    let n = exe.unicode_len();
    let mut b: usize = n;
    while b > 0
        invariant
            b <= n,
            n == exe@.len(),
            forall|k: int| b <= k < n ==> !is_sep(exe@[k]),
        ensures
            b <= n,
            forall|k: int| b <= k < n ==> !is_sep(exe@[k]),
            b > 0 ==> is_sep(exe@[b - 1]),
        decreases b,
    {
        let c = exe.get_char(b - 1);
        if c == '\\' || c == '/' {
            break ;
        }
        b -= 1;
    }
    proof {
        lemma_base_start_at(exe@, b as int);
    }
    let ghost f = exe@.subrange(b as int, n as int);
    // find the last dot of the file name
    let mut d: usize = n;
    while d > b
        invariant
            b <= d <= n,
            n == exe@.len(),
            forall|k: int| d <= k < n ==> exe@[k] != '.',
        ensures
            b <= d <= n,
            forall|k: int| d <= k < n ==> exe@[k] != '.',
            d > b ==> exe@[d - 1] == '.',
        decreases d,
    {
        if exe.get_char(d - 1) == '.' {
            break ;
        }
        d -= 1;
    }
    let ghost e = if d == b {
        f.len() as int
    } else {
        d - 1 - b
    };
    let stem_len: usize = if d == b || d - 1 == b {
        n - b
    } else {
        d - 1 - b
    };
    proof {
        assert(forall|k: int| 0 <= k < f.len() ==> f[k] == exe@[b + k]);
        if d == b {
            assert(forall|k: int| 0 <= k < f.len() ==> f[k] != '.');
        } else {
            assert(f[e] == exe@[d - 1]);
            assert(forall|k: int| e < k < f.len() ==> f[k] != '.');
        }
        lemma_stem_end_at(f, e);
    }
    if stem_len == 0 {
        proof {
            assert(f.len() == 0);
            assert(file_stem_spec(exe@) =~= f);
        }
        return Err(LibError::EmptyExeName);
    }
    let r = exe.substring_char(b, b + stem_len).to_owned();
    proof {
        if e == 0 {
            assert(r@ =~= f);
        } else {
            assert(r@ =~= f.subrange(0, e));
        }
        assert(r@ == file_stem_spec(exe@));
    }
    Ok(r)
}

} // verus!
