//! The runtime bootstrapper: mapping the host architecture to a
//! download asset, installing the runtime's executables from the
//! downloaded archive, and the self-contained environment handed to
//! every dependency-manager invocation.

use vstd::prelude::*;
use vstd::string::*;
use crate::errors::LibError;
use crate::fs::{immediate_child, Fs};
use crate::paths::{base_start, is_sep, joined};
use crate::payload::{convert_seps, ends_with_spec, zip_blob, zip_count, zip_entry_data, zip_entry_is_dir, zip_entry_name, zip_entry_ok, zip_ok};
use crate::ports::{CmdSpec, Fetcher};
use crate::strutil::str_eq;

verus! {

/// The download asset for a host architecture; only the two supported
/// ones map, anything else is fatal and not retried.
pub fn asset_name_for_arch(arch: &str) -> (r: Result<&'static str, LibError>)
    ensures
        arch@ == "x86_64"@ ==> (r matches Ok(a) && a@ == "uv-x86_64-pc-windows-msvc.zip"@),
        arch@ == "aarch64"@ ==> (r matches Ok(a) && a@ == "uv-aarch64-pc-windows-msvc.zip"@),
        arch@ != "x86_64"@ && arch@ != "aarch64"@ ==> r == Result::<&'static str, LibError>::Err(
            LibError::UnsupportedArch,
        ),
{
    proof {
        reveal_strlit("x86_64");
        reveal_strlit("aarch64");
        assert("x86_64"@.len() == 6);
        assert("aarch64"@.len() == 7);
        assert("x86_64"@ != "aarch64"@);
    }
    if str_eq(arch, "x86_64") {
        Ok("uv-x86_64-pc-windows-msvc.zip")
    } else if str_eq(arch, "aarch64") {
        Ok("uv-aarch64-pc-windows-msvc.zip")
    } else {
        Err(LibError::UnsupportedArch)
    }
}

/// The fixed, install-root-private environment for dependency-manager
/// invocations: caches, installs, tools and the project environment
/// all live under the runtime directory, and user-global
/// configuration discovery is switched off.
pub fn uv_env_pairs(runtime: &str) -> (r: Vec<(String, String)>)
    ensures
        r@.len() == 7,
        r@[0].0@ == "UV_CACHE_DIR"@ && r@[0].1@ == joined(runtime@, "cache"@),
        r@[1].0@ == "UV_PYTHON_INSTALL_DIR"@ && r@[1].1@ == joined(runtime@, "python"@),
        r@[2].0@ == "UV_PYTHON_BIN_DIR"@ && r@[2].1@ == joined(runtime@, "python-bin"@),
        r@[3].0@ == "UV_PROJECT_ENVIRONMENT"@ && r@[3].1@ == joined(runtime@, "venv"@),
        r@[4].0@ == "UV_TOOL_DIR"@ && r@[4].1@ == joined(runtime@, "tools"@),
        r@[5].0@ == "UV_TOOL_BIN_DIR"@ && r@[5].1@ == joined(runtime@, "tool-bin"@),
        r@[6].0@ == "UV_NO_CONFIG"@ && r@[6].1@ == "1"@,
{
    let mut r: Vec<(String, String)> = Vec::new();
    r.push(("UV_CACHE_DIR".to_owned(), crate::paths::join(runtime, "cache")));
    r.push(("UV_PYTHON_INSTALL_DIR".to_owned(), crate::paths::join(runtime, "python")));
    r.push(("UV_PYTHON_BIN_DIR".to_owned(), crate::paths::join(runtime, "python-bin")));
    r.push(("UV_PROJECT_ENVIRONMENT".to_owned(), crate::paths::join(runtime, "venv")));
    r.push(("UV_TOOL_DIR".to_owned(), crate::paths::join(runtime, "tools")));
    r.push(("UV_TOOL_BIN_DIR".to_owned(), crate::paths::join(runtime, "tool-bin")));
    r.push(("UV_NO_CONFIG".to_owned(), "1".to_owned()));
    r
}

/// The image of the fixed dependency-manager environment.
pub open spec fn uv_env_model(runtime: Seq<char>) -> Seq<(Seq<char>, Seq<char>)> {
    seq![
        ("UV_CACHE_DIR"@, joined(runtime, "cache"@)),
        ("UV_PYTHON_INSTALL_DIR"@, joined(runtime, "python"@)),
        ("UV_PYTHON_BIN_DIR"@, joined(runtime, "python-bin"@)),
        ("UV_PROJECT_ENVIRONMENT"@, joined(runtime, "venv"@)),
        ("UV_TOOL_DIR"@, joined(runtime, "tools"@)),
        ("UV_TOOL_BIN_DIR"@, joined(runtime, "tool-bin"@)),
        ("UV_NO_CONFIG"@, "1"@),
    ]
}

/// The image of a dependency-manager command: the tool, run in the
/// project directory, under the private environment.
pub open spec fn uv_cmd_model(
    uv: Seq<char>,
    proj: Seq<char>,
    runtime: Seq<char>,
    args: Seq<Seq<char>>,
) -> crate::ports::CmdModel {
    crate::ports::CmdModel { program: uv, args: args, cwd: Some(proj), envs: uv_env_model(runtime) }
}

/// The dependency-manager command skeleton: the tool itself, run in
/// the project directory, under the private environment.
pub fn build_uv_cmd(uv: &str, proj: &str, runtime: &str) -> (r: CmdSpec)
    ensures
        crate::ports::cmd_model(r) == uv_cmd_model(
            uv@,
            proj@,
            runtime@,
            Seq::<Seq<char>>::empty(),
        ),
        r.program@ == uv@,
        r.args@.len() == 0,
        r.current_dir matches Some(d) && d@ == proj@,
        r.envs@.len() == 7,
        r.envs@[0].0@ == "UV_CACHE_DIR"@ && r.envs@[0].1@ == joined(runtime@, "cache"@),
        r.envs@[1].0@ == "UV_PYTHON_INSTALL_DIR"@ && r.envs@[1].1@ == joined(runtime@, "python"@),
        r.envs@[2].0@ == "UV_PYTHON_BIN_DIR"@ && r.envs@[2].1@ == joined(runtime@, "python-bin"@),
        r.envs@[3].0@ == "UV_PROJECT_ENVIRONMENT"@ && r.envs@[3].1@ == joined(runtime@, "venv"@),
        r.envs@[4].0@ == "UV_TOOL_DIR"@ && r.envs@[4].1@ == joined(runtime@, "tools"@),
        r.envs@[5].0@ == "UV_TOOL_BIN_DIR"@ && r.envs@[5].1@ == joined(runtime@, "tool-bin"@),
        r.envs@[6].0@ == "UV_NO_CONFIG"@ && r.envs@[6].1@ == "1"@,
{
    let envs = uv_env_pairs(runtime);
    let r = CmdSpec {
        program: uv.to_owned(),
        args: Vec::new(),
        current_dir: Some(proj.to_owned()),
        envs,
    };
    proof {
        assert(r.args@.map_values(|s: String| s@) =~= Seq::<Seq<char>>::empty());
        assert(r.envs@.map_values(|p: (String, String)| (p.0@, p.1@)) =~= uv_env_model(runtime@));
    }
    r
}

/// Where the archive entry `i`'s executable lands: directly in the
/// root, under its base name.
pub open spec fn uv_dest(root: Seq<char>, blob: Seq<u8>, i: int) -> Seq<char> {
    let conv = convert_seps(zip_entry_name(blob, i));
    joined(root, conv.subrange(base_start(conv), conv.len() as int))
}

/// Every entry of the runtime archive reads back, and every
/// executable entry has a base name.
pub open spec fn uv_zip_wf(blob: Seq<u8>) -> bool {
    &&& zip_ok(blob)
    &&& forall|i: int| 0 <= i < zip_count(blob) ==> zip_entry_ok(blob, i)
    &&& forall|i: int|
        0 <= i < zip_count(blob) && !zip_entry_is_dir(blob, i) && ends_with_spec(
            #[trigger] zip_entry_name(blob, i),
            ".exe"@,
        ) ==> base_start(convert_seps(zip_entry_name(blob, i))) < convert_seps(
            zip_entry_name(blob, i),
        ).len()
}

/// An entry that the runtime install extracts: a file entry whose name
/// ends in `.exe` with a non-empty base name.
pub open spec fn uv_exe_entry(blob: Seq<u8>, i: int) -> bool {
    &&& 0 <= i < zip_count(blob)
    &&& !zip_entry_is_dir(blob, i)
    &&& ends_with_spec(zip_entry_name(blob, i), ".exe"@)
    &&& base_start(convert_seps(zip_entry_name(blob, i))) < convert_seps(
        zip_entry_name(blob, i),
    ).len()
}

proof fn lemma_base_start_tail_no_sep(s: Seq<char>)
    ensures
        forall|k: int| base_start(s) <= k < s.len() ==> !is_sep(s[k]),
        0 <= base_start(s) <= s.len(),
    decreases s.len(),
{
    if s.len() > 0 && !is_sep(s[s.len() - 1]) {
        lemma_base_start_tail_no_sep(s.drop_last());
        assert(forall|k: int| 0 <= k < s.len() - 1 ==> s.drop_last()[k] == s[k]);
    }
}

/// Extracted runtime executables are direct children of the root.
pub proof fn lemma_uv_dest_immediate(root: Seq<char>, blob: Seq<u8>, i: int)
    requires
        uv_exe_entry(blob, i),
    ensures
        immediate_child(root, uv_dest(root, blob, i)),
{
    let conv = convert_seps(zip_entry_name(blob, i));
    let f = conv.subrange(base_start(conv), conv.len() as int);
    lemma_base_start_tail_no_sep(conv);
    let q = uv_dest(root, blob, i);
    assert(q.len() == root.len() + 1 + f.len());
    assert(q.subrange(0, root.len() as int) =~= root);
    assert(q[root.len() as int] == '\\');
    assert forall|k: int| root.len() + 1 <= k < q.len() implies q[k] != '\\' by {
        assert(q[k] == f[k - root.len() - 1]);
        assert(f[k - root.len() - 1] == conv[base_start(conv) + k - root.len() - 1]);
        assert(!is_sep(conv[base_start(conv) + k - root.len() - 1]));
    }
}

/// Every extracted runtime executable's path ends in the executable
/// suffix.
pub proof fn lemma_uv_dest_exe(root: Seq<char>, blob: Seq<u8>, i: int)
    requires
        uv_exe_entry(blob, i),
    ensures
        ends_with_spec(uv_dest(root, blob, i), ".exe"@),
{
    reveal_strlit(".exe");
    let name = zip_entry_name(blob, i);
    let conv = convert_seps(name);
    assert(".exe"@.len() == 4);
    assert(name.len() >= 4);
    assert forall|k: int| 0 <= k < 4 implies conv[conv.len() - 4 + k] == ".exe"@[k] by {
        assert(name[name.len() - 4 + k] == name.subrange(name.len() - 4, name.len() as int)[k]);
    }
    let bs = base_start(conv);
    crate::payload::lemma_base_start_sep(conv);
    crate::paths::lemma_base_start_bounds(conv);
    assert(bs <= conv.len() - 4) by {
        if bs > conv.len() - 4 {
            assert(is_sep(conv[bs - 1]));
            assert(conv[bs - 1] == ".exe"@[bs - 1 - (conv.len() - 4)]);
        }
    }
    let f = conv.subrange(bs, conv.len() as int);
    let q = uv_dest(root, blob, i);
    assert(q.len() == root.len() + 1 + f.len());
    assert(f.len() >= 4);
    assert forall|k: int| 0 <= k < 4 implies q.subrange(q.len() - 4, q.len() as int)[k]
        == ".exe"@[k] by {
        assert(q.subrange(q.len() - 4, q.len() as int)[k] == q[q.len() - 4 + k]);
        assert(q[q.len() - 4 + k] == f[f.len() - 4 + k]);
        assert(f[f.len() - 4 + k] == conv[conv.len() - 4 + k]);
    }
    assert(q.subrange(q.len() - 4, q.len() as int) =~= ".exe"@);
}

/// Installs the runtime executables from the downloaded archive:
/// every entry named `*.exe` is flattened to its base name directly
/// in the root; nothing else in the filesystem changes.
#[verifier::rlimit(80)]
pub fn install_from_zip(fs: &mut Fs, root: &str, blob: &Vec<u8>) -> (r: Result<(), LibError>)
    requires
        old(fs).inv(),
    ensures
        final(fs).inv(),
        !zip_ok(blob@) ==> r == Result::<(), LibError>::Err(LibError::BadPayload) && *final(fs)
            == *old(fs),
        // a well-formed runtime archive always installs
        uv_zip_wf(blob@) ==> r is Ok,
        r matches Err(e) ==> e is BadPayload || e is BadPayloadPath,
        forall|q: Seq<char>|
            (forall|i: int| uv_exe_entry(blob@, i) ==> uv_dest(root@, blob@, i) != q) ==> final(fs).has_file(q) == old(fs).has_file(q) && (old(fs).has_file(q) ==> final(fs).file_data(q)
                == old(fs).file_data(q) && final(fs).file_stamp(q) == old(fs).file_stamp(q)),
        forall|q: Seq<char>| final(fs).has_dir(q) == old(fs).has_dir(q),
        r is Ok ==> forall|i: int|
            uv_exe_entry(blob@, i) && (forall|j: int|
                i < j < zip_count(blob@) && uv_exe_entry(blob@, j) ==> uv_dest(root@, blob@, j)
                    != uv_dest(root@, blob@, i)) ==> final(fs).has_file(uv_dest(root@, blob@, i))
                && final(fs).file_data(uv_dest(root@, blob@, i)) == zip_entry_data(blob@, i),
{
    let blob_copy = crate::fs::copy_bytes(blob);
    let mut archive = match crate::payload::zip_open(blob_copy) {
        Some(a) => a,
        None => {
            return Err(LibError::BadPayload);
        },
    };
    let n = crate::payload::zip_len(&archive);
    let ghost b = blob@;
    let ghost rootv = root@;
    let mut i: usize = 0;
    while i < n
        invariant
            fs.inv(),
            i <= n,
            n == zip_count(b),
            zip_blob(archive) == b,
            b == blob@,
            zip_ok(b),
            rootv == root@,
            forall|q: Seq<char>|
                (forall|k: int|
                    uv_exe_entry(b, k) && k < i ==> uv_dest(rootv, b, k) != q) ==> fs.has_file(q)
                    == old(fs).has_file(q) && (old(fs).has_file(q) ==> fs.file_data(q) == old(fs).file_data(q) && fs.file_stamp(q) == old(fs).file_stamp(q)),
            forall|q: Seq<char>| fs.has_dir(q) == old(fs).has_dir(q),
            forall|k: int|
                uv_exe_entry(b, k) && k < i && (forall|j: int|
                    k < j < i && uv_exe_entry(b, j) ==> uv_dest(rootv, b, j) != uv_dest(
                        rootv,
                        b,
                        k,
                    )) ==> fs.has_file(uv_dest(rootv, b, k)) && fs.file_data(uv_dest(rootv, b, k))
                    == zip_entry_data(b, k),
        decreases n - i,
    {
        let entry = match crate::payload::zip_entry(&mut archive, i) {
            Some(e) => e,
            None => {
                proof {
                    assert(!zip_entry_ok(b, i as int));
                }
                return Err(LibError::BadPayload);
            },
        };
        let (name, data, is_dir) = entry;
        let is_exe = crate::payload::ends_with(name.as_str(), ".exe");
        let ghost pre = *fs;
        let ghost this_dest = uv_dest(rootv, b, i as int);
        if !is_dir && is_exe {
            let conv = crate::payload::convert_seps_exec(name.as_str());
            let m = conv.unicode_len();
            // base name: after the last separator of the converted name
            let mut bpos: usize = m;
            while bpos > 0
                invariant
                    bpos <= m,
                    m == conv@.len(),
                    forall|k: int| bpos <= k < m ==> !is_sep(conv@[k]),
                ensures
                    bpos <= m,
                    forall|k: int| bpos <= k < m ==> !is_sep(conv@[k]),
                    bpos > 0 ==> is_sep(conv@[bpos - 1]),
                decreases bpos,
            {
                let c = conv.get_char(bpos - 1);
                if c == '\\' || c == '/' {
                    break ;
                }
                bpos -= 1;
            }
            proof {
                crate::paths::lemma_base_start_at(conv@, bpos as int);
            }
            if bpos == m {
                // the entry name ends in a separator: no base name
                proof {
                    assert(!uv_zip_wf(b)) by {
                        if uv_zip_wf(b) {
                            assert(base_start(convert_seps(zip_entry_name(b, i as int)))
                                < convert_seps(zip_entry_name(b, i as int)).len());
                        }
                    }
                }
                return Err(LibError::BadPayloadPath);
            }
            let fname = crate::strutil::suffix_from(conv.as_str(), bpos);
            let dest = crate::paths::join(root, fname.as_str());
            proof {
                assert(dest@ == this_dest);
                assert(uv_exe_entry(b, i as int));
            }
            fs.write_file(dest.as_str(), data);
            proof {
                assert forall|q: Seq<char>|
                    (forall|k: int|
                        uv_exe_entry(b, k) && k < i + 1 ==> uv_dest(rootv, b, k)
                            != q) implies fs.has_file(q) == old(fs).has_file(q) && (old(fs).has_file(q) ==> fs.file_data(q) == old(fs).file_data(q) && fs.file_stamp(q)
                    == old(fs).file_stamp(q)) by {
                    assert(uv_dest(rootv, b, i as int) != q);
                    assert(forall|k: int|
                        uv_exe_entry(b, k) && k < i ==> uv_dest(rootv, b, k) != q);
                }
                assert forall|k: int|
                    uv_exe_entry(b, k) && k < i + 1 && (forall|j: int|
                        k < j < i + 1 && uv_exe_entry(b, j) ==> uv_dest(rootv, b, j) != uv_dest(
                            rootv,
                            b,
                            k,
                        )) implies fs.has_file(uv_dest(rootv, b, k)) && fs.file_data(
                    uv_dest(rootv, b, k),
                ) == zip_entry_data(b, k) by {
                    if k < i {
                        assert(forall|j: int|
                            k < j < i && uv_exe_entry(b, j) ==> uv_dest(rootv, b, j) != uv_dest(
                                rootv,
                                b,
                                k,
                            ));
                        assert(pre.has_file(uv_dest(rootv, b, k)) && pre.file_data(
                            uv_dest(rootv, b, k),
                        ) == zip_entry_data(b, k));
                        if uv_dest(rootv, b, k) == this_dest {
                            assert(uv_dest(rootv, b, i as int) != uv_dest(rootv, b, k));
                        }
                    }
                }
            }
        }
        i += 1;
    }
    Ok(())
}

/// The downloaded archive carries the primary executable: some entry
/// flattens to `uv.exe` directly in the root.
pub open spec fn uv_primary_present(root: Seq<char>, blob: Seq<u8>) -> bool {
    exists|i: int|
        uv_exe_entry(blob, i) && uv_dest(root, blob, i) == joined(root, "uv.exe"@)
}

/// Among the entries that flatten to `uv.exe`, a last one exists.
proof fn lemma_last_primary_hit(root: Seq<char>, blob: Seq<u8>, n: int)
    requires
        exists|i: int|
            0 <= i < n && uv_exe_entry(blob, i) && uv_dest(root, blob, i) == joined(
                root,
                "uv.exe"@,
            ),
    ensures
        exists|i: int|
            0 <= i < n && uv_exe_entry(blob, i) && uv_dest(root, blob, i) == joined(
                root,
                "uv.exe"@,
            ) && (forall|j: int|
                i < j < n && uv_exe_entry(blob, j) ==> uv_dest(root, blob, j) != joined(
                    root,
                    "uv.exe"@,
                )),
    decreases n,
{
    let up = joined(root, "uv.exe"@);
    let w = choose|i: int| 0 <= i < n && uv_exe_entry(blob, i) && uv_dest(root, blob, i) == up;
    if uv_exe_entry(blob, n - 1) && uv_dest(root, blob, n - 1) == up {
        let i = n - 1;
        assert(0 <= i < n && uv_exe_entry(blob, i) && uv_dest(root, blob, i) == up && (forall|
            j: int,
        |
            i < j < n && uv_exe_entry(blob, j) ==> uv_dest(root, blob, j) != up));
    } else {
        assert(0 <= w < n - 1);
        lemma_last_primary_hit(root, blob, n - 1);
        let i = choose|i: int|
            0 <= i < n - 1 && uv_exe_entry(blob, i) && uv_dest(root, blob, i) == up && (forall|
                j: int,
            |
                i < j < n - 1 && uv_exe_entry(blob, j) ==> uv_dest(root, blob, j) != up);
        assert(0 <= i < n && uv_exe_entry(blob, i) && uv_dest(root, blob, i) == up && (forall|
            j: int,
        |
            i < j < n && uv_exe_entry(blob, j) ==> uv_dest(root, blob, j) != up));
    }
}

/// Ensures the runtime's primary executable is present under `root`:
/// a no-op when it already is, otherwise the platform asset is
/// downloaded and its executables installed.
pub fn ensure_uv<F: Fetcher>(fs: &mut Fs, fx: &mut F, root: &str, arch: &str) -> (r: Result<
    (),
    LibError,
>)
    requires
        old(fs).inv(),
        old(fx).fetch_plan().len() > 0,
    ensures
        // on the download path the fetched body decides the outcome
        !old(fs).has_file(joined(root@, "uv.exe"@)) && (arch@ == "x86_64"@ || arch@ == "aarch64"@)
            ==> {
            &&& final(fx).fetch_plan() == old(fx).fetch_plan().drop_first()
            &&& (match old(fx).fetch_plan()[0] {
                None => r == Result::<(), LibError>::Err(LibError::FetchFailed) && *final(fs)
                    == *old(fs),
                Some(b) => {
                    &&& (!zip_ok(b) ==> r == Result::<(), LibError>::Err(LibError::BadPayload)
                        && *final(fs) == *old(fs))
                    &&& (uv_zip_wf(b) ==> (r is Ok <==> uv_primary_present(root@, b)) && (
                    !uv_primary_present(root@, b) ==> r == Result::<(), LibError>::Err(
                        LibError::MissingUv,
                    )))
                },
            })
        },
        final(fs).inv(),
        old(fs).has_file(joined(root@, "uv.exe"@)) ==> r is Ok && *final(fs) == *old(fs) && *final(fx) == *old(fx),
        r is Ok ==> final(fs).has_file(joined(root@, "uv.exe"@)),
        !old(fs).has_file(joined(root@, "uv.exe"@)) && arch@ != "x86_64"@ && arch@ != "aarch64"@
            ==> r == Result::<(), LibError>::Err(LibError::UnsupportedArch) && *final(fs) == *old(fs) && *final(fx) == *old(fx),
        forall|q: Seq<char>| !immediate_child(root@, q) ==> final(fs).has_file(q) == old(fs).has_file(q) && (old(fs).has_file(q) ==> final(fs).file_data(q) == old(fs).file_data(q)
            && final(fs).file_stamp(q) == old(fs).file_stamp(q)),
        // only executable-named paths are ever written
        forall|q: Seq<char>|
            !ends_with_spec(q, ".exe"@) ==> final(fs).has_file(q) == old(fs).has_file(q)
                && (old(fs).has_file(q) ==> final(fs).file_data(q) == old(fs).file_data(q)
                && final(fs).file_stamp(q) == old(fs).file_stamp(q)),
        forall|q: Seq<char>| final(fs).has_dir(q) == old(fs).has_dir(q),
        r == Result::<(), LibError>::Err(LibError::MissingUv) ==> !final(fs).has_file(
            joined(root@, "uv.exe"@),
        ),
        r matches Err(e) ==> e is UnsupportedArch || e is FetchFailed || e is BadPayload
            || e is BadPayloadPath || e is MissingUv,
{
    let uv = crate::paths::join(root, "uv.exe");
    if fs.file_exists(uv.as_str()) {
        return Ok(());
    }
    let asset = match asset_name_for_arch(arch) {
        Ok(a) => a,
        Err(e) => {
            return Err(e);
        },
    };
    let base = "https://github.com/astral-sh/uv/releases/latest/download/";
    let url = crate::strutil::concat2(base, asset);
    let body = match fx.fetch(url.as_str()) {
        Ok(b) => b,
        Err(e) => {
            return Err(e);
        },
    };
    let ghost mid = *fs;
    match install_from_zip(fs, root, &body) {
        Ok(()) => {},
        Err(e) => {
            proof {
                uv_untouched(mid, *fs, root@, body@);
                uv_exe_only(mid, *fs, root@, body@);
            }
            return Err(e);
        },
    }
    proof {
        uv_untouched(mid, *fs, root@, body@);
        uv_exe_only(mid, *fs, root@, body@);
        let up = joined(root@, "uv.exe"@);
        if uv_zip_wf(body@) && uv_primary_present(root@, body@) {
            lemma_last_primary_hit(root@, body@, zip_count(body@) as int);
            let i = choose|i: int|
                0 <= i < zip_count(body@) && uv_exe_entry(body@, i) && uv_dest(root@, body@, i)
                    == up && (forall|j: int|
                    i < j < zip_count(body@) && uv_exe_entry(body@, j) ==> uv_dest(
                        root@,
                        body@,
                        j,
                    ) != up);
            assert(forall|j: int|
                i < j < zip_count(body@) && uv_exe_entry(body@, j) ==> uv_dest(root@, body@, j)
                    != uv_dest(root@, body@, i));
            assert(fs.has_file(up));
        }
        if uv_zip_wf(body@) && !uv_primary_present(root@, body@) {
            assert(forall|i: int|
                uv_exe_entry(body@, i) ==> uv_dest(root@, body@, i) != up);
            assert(fs.has_file(up) == mid.has_file(up));
        }
    }
    if !fs.file_exists(uv.as_str()) {
        return Err(LibError::MissingUv);
    }
    Ok(())
}

/// Whatever the archive held, only executable-named paths were
/// touched.
proof fn uv_exe_only(pre: Fs, post: Fs, root: Seq<char>, blob: Seq<u8>)
    requires
        forall|q: Seq<char>|
            (forall|i: int| uv_exe_entry(blob, i) ==> uv_dest(root, blob, i) != q) ==> post.has_file(
                q,
            ) == pre.has_file(q) && (pre.has_file(q) ==> post.file_data(q) == pre.file_data(q)
                && post.file_stamp(q) == pre.file_stamp(q)),
    ensures
        forall|q: Seq<char>|
            !ends_with_spec(q, ".exe"@) ==> post.has_file(q) == pre.has_file(q) && (pre.has_file(q)
                ==> post.file_data(q) == pre.file_data(q) && post.file_stamp(q) == pre.file_stamp(
                q,
            )),
{
    assert forall|q: Seq<char>| !ends_with_spec(q, ".exe"@) implies post.has_file(q)
        == pre.has_file(q) && (pre.has_file(q) ==> post.file_data(q) == pre.file_data(q)
        && post.file_stamp(q) == pre.file_stamp(q)) by {
        assert forall|i: int| uv_exe_entry(blob, i) implies uv_dest(root, blob, i) != q by {
            lemma_uv_dest_exe(root, blob, i);
        }
    }
}

/// Whatever the archive held, only direct children of the root were
/// touched.
proof fn uv_untouched(pre: Fs, post: Fs, root: Seq<char>, blob: Seq<u8>)
    requires
        forall|q: Seq<char>|
            (forall|i: int| uv_exe_entry(blob, i) ==> uv_dest(root, blob, i) != q) ==> post.has_file(
                q,
            ) == pre.has_file(q) && (pre.has_file(q) ==> post.file_data(q) == pre.file_data(q)
                && post.file_stamp(q) == pre.file_stamp(q)),
    ensures
        forall|q: Seq<char>|
            !immediate_child(root, q) ==> post.has_file(q) == pre.has_file(q) && (pre.has_file(q)
                ==> post.file_data(q) == pre.file_data(q) && post.file_stamp(q) == pre.file_stamp(
                q,
            )),
{
    assert forall|q: Seq<char>| !immediate_child(root, q) implies post.has_file(q) == pre.has_file(
        q,
    ) && (pre.has_file(q) ==> post.file_data(q) == pre.file_data(q) && post.file_stamp(q)
        == pre.file_stamp(q)) by {
        assert forall|i: int| uv_exe_entry(blob, i) implies uv_dest(root, blob, i) != q by {
            lemma_uv_dest_immediate(root, blob, i);
        }
    }
}

} // verus!
