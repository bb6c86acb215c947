//! The self-update pass: fetch the remote manifest, compare versions,
//! download and hash-check the new installer, and launch it.
//!
//! Every failure along the way degrades to "no update"; only a
//! verified installer is ever started.

use sha2::Digest;
use vstd::prelude::*;
use vstd::string::*;
use crate::errors::LibError;
use crate::fs::Fs;
use crate::json::{json_str, spec_expect, spec_parse_string, expect_lit, parse_string_at};
use crate::ports::{CmdSpec, Executor, Fetcher};
use crate::strutil::{
    lower_spec, starts_with, starts_with_spec, str_to_chars, to_ascii_lower, trim, trim_spec,
    utf8_decode, utf8_of,
};
use crate::version::{should_update, should_update_spec};

verus! {

/// What one updater pass decided.
pub enum UpdateOutcome {
    /// Nothing to do; the caller continues normally.
    NoUpdate,
    /// A verified installer was started; the caller must exit.
    InstallerLaunched,
}

/// The SHA-256 digest of a byte string.
pub uninterp spec fn sha256_of(data: Seq<u8>) -> Seq<u8>;

/// Relies on `sha2::Sha256`: the digest is a function of the bytes
/// alone, 32 bytes long.
#[verifier::external_body]
fn sha256_digest(data: &Vec<u8>) -> (r: Vec<u8>)
    ensures
        r@ == sha256_of(data@),
        r@.len() == 32,
{
    let mut hasher = sha2::Sha256::new();
    hasher.update(data.as_slice());
    hasher.finalize().to_vec()
}

/// The lower-case hexadecimal rendering of a byte string.
pub uninterp spec fn hex_of(data: Seq<u8>) -> Seq<char>;

/// A lower-case hexadecimal digit.
pub open spec fn is_lower_hex(c: char) -> bool {
    ('0' <= c <= '9') || ('a' <= c <= 'f')
}

/// Relies on `hex::encode`: two digits per byte from its lower-case
/// table, a function of the bytes alone.
#[verifier::external_body]
fn hex_encode(data: &Vec<u8>) -> (r: String)
    ensures
        r@ == hex_of(data@),
        r@.len() == 2 * data@.len(),
        forall|k: int| 0 <= k < r@.len() ==> is_lower_hex(#[trigger] r@[k]),
{
    hex::encode(data.as_slice())
}

/// Strips every leading algorithm-name prefix of a configured digest.
pub open spec fn strip_sha_prefix(s: Seq<char>) -> Seq<char>
    decreases s.len(),
{
    if starts_with_spec(s, "sha256:"@) && "sha256:"@.len() > 0 {
        strip_sha_prefix(s.skip("sha256:"@.len() as int))
    } else {
        s
    }
}

/// The digest text as compared: trimmed, lower-cased, and with the
/// algorithm prefix dropped — lower-casing first makes the prefix
/// strip case-insensitive.
pub open spec fn normalize_hex_spec(s: Seq<char>) -> Seq<char> {
    strip_sha_prefix(lower_spec(trim_spec(s)))
}

/// Normalizes a configured digest for case-insensitive comparison.
pub fn normalize_hex(value: &str) -> (r: String)
    ensures
        r@ == normalize_hex_spec(value@),
{
    proof {
        reveal_strlit("sha256:");
    }
    let lowered = to_ascii_lower(trim(value).as_str());
    let mut t = lowered;
    proof {
        assert("sha256:"@.len() == 7);
    }
    while starts_with(t.as_str(), "sha256:")
        invariant
            strip_sha_prefix(t@) == strip_sha_prefix(lower_spec(trim_spec(value@))),
            "sha256:"@.len() == 7,
        decreases t@.len(),
    {
        let rest = crate::strutil::suffix_from(t.as_str(), 7);
        proof {
            assert(rest@ == t@.skip(7));
        }
        t = rest;
    }
    t
}

/// Whether the downloaded bytes carry the digest the manifest named.
pub fn digest_matches(expected: &str, data: &Vec<u8>) -> (r: bool)
    ensures
        r == (normalize_hex_spec(expected@) == hex_of(sha256_of(data@))),
{
    let digest = sha256_digest(data);
    let actual = hex_encode(&digest);
    let exp = normalize_hex(expected);
    crate::strutil::str_eq(exp.as_str(), actual.as_str())
}

/// The update manifest: the latest version, where its installer lives,
/// and an optional content digest.
#[derive(Debug, Clone, PartialEq, Eq)]
pub struct Manifest {
    pub version: String,
    pub installer_url: String,
    pub sha256: String,
}

pub struct ManifestView {
    pub version: Seq<char>,
    pub installer_url: Seq<char>,
    pub sha256: Seq<char>,
}

impl View for Manifest {
    type V = ManifestView;

    open spec fn view(&self) -> ManifestView {
        ManifestView {
            version: self.version@,
            installer_url: self.installer_url@,
            sha256: self.sha256@,
        }
    }
}

/// One pass over the manifest object's members: the three known keys
/// take string values, later occurrences winning; any other member is
/// skipped by shape. Yields the gathered fields and the position after
/// the closing brace.
pub open spec fn spec_manifest_members(
    s: Seq<char>,
    i: int,
    first: bool,
    ver: Option<Seq<char>>,
    url: Option<Seq<char>>,
    sha: Seq<char>,
) -> Option<(Option<Seq<char>>, Option<Seq<char>>, Seq<char>, int)>
    decreases s.len() - i,
{
    if i < 0 || i > s.len() {
        None
    } else {
        let j = crate::json::ws_end(s, i);
        if j < i || j >= s.len() {
            None
        } else if first && s[j] == '}' {
            Some((ver, url, sha, j + 1))
        } else {
            match spec_parse_string(s, j) {
                None => None,
                Some((key, k)) => if k <= j {
                    None
                } else {
                    let l = crate::json::ws_end(s, k);
                    if l < k || l >= s.len() || s[l] != ':' {
                        None
                    } else {
                        let v = crate::json::ws_end(s, l + 1);
                        if v < l + 1 || v > s.len() {
                            None
                        } else if key == "version"@ || key == "installer_url"@ || key
                            == "sha256"@ {
                            match spec_parse_string(s, v) {
                                None => None,
                                Some((val, e)) => if e <= v {
                                    None
                                } else {
                                    let ver2 = if key == "version"@ {
                                        Some(val)
                                    } else {
                                        ver
                                    };
                                    let url2 = if key == "installer_url"@ {
                                        Some(val)
                                    } else {
                                        url
                                    };
                                    let sha2 = if key == "sha256"@ {
                                        val
                                    } else {
                                        sha
                                    };
                                    let m = crate::json::ws_end(s, e);
                                    if m < e || m >= s.len() {
                                        None
                                    } else if s[m] == ',' {
                                        spec_manifest_members(s, m + 1, false, ver2, url2, sha2)
                                    } else if s[m] == '}' {
                                        Some((ver2, url2, sha2, m + 1))
                                    } else {
                                        None
                                    }
                                },
                            }
                        } else {
                            match crate::json::spec_skip_value(s, v) {
                                None => None,
                                Some(e) => if e <= v {
                                    None
                                } else {
                                    let m = crate::json::ws_end(s, e);
                                    if m < e || m >= s.len() {
                                        None
                                    } else if s[m] == ',' {
                                        spec_manifest_members(s, m + 1, false, ver, url, sha)
                                    } else if s[m] == '}' {
                                        Some((ver, url, sha, m + 1))
                                    } else {
                                        None
                                    }
                                },
                            }
                        }
                    }
                },
            }
        }
    }
}

/// The manifest encoded in `s`: one JSON object, in any field order
/// and spacing, whose `version` and `installer_url` members are
/// required strings and whose `sha256` member is an optional string;
/// unknown members of any shape are ignored.
pub open spec fn spec_parse_manifest(s: Seq<char>) -> Option<ManifestView> {
    let j = crate::json::ws_end(s, 0);
    if j < 0 || j >= s.len() || s[j] != '{' {
        None
    } else {
        match spec_manifest_members(s, j + 1, true, None, None, Seq::empty()) {
            None => None,
            Some((ver, url, sha, e)) => if crate::json::ws_end(s, e) == s.len() && ver is Some
                && url is Some {
                Some(ManifestView { version: ver->0, installer_url: url->0, sha256: sha })
            } else {
                None
            },
        }
    }
}

fn manifest_members_at(
    s: &Vec<char>,
    i: usize,
    first: bool,
    ver: Option<String>,
    url: Option<String>,
    sha: String,
) -> (r: Option<(Option<String>, Option<String>, String, usize)>)
    requires
        i <= s@.len(),
    ensures
        match r {
            Some(p) => spec_manifest_members(
                s@,
                i as int,
                first,
                match ver {
                    Some(x) => Some(x@),
                    None => None,
                },
                match url {
                    Some(x) => Some(x@),
                    None => None,
                },
                sha@,
            ) == Some(
                (
                    match p.0 {
                        Some(x) => Some(x@),
                        None => None,
                    },
                    match p.1 {
                        Some(x) => Some(x@),
                        None => None,
                    },
                    p.2@,
                    p.3 as int,
                ),
            ) && p.3 <= s@.len(),
            None => spec_manifest_members(
                s@,
                i as int,
                first,
                match ver {
                    Some(x) => Some(x@),
                    None => None,
                },
                match url {
                    Some(x) => Some(x@),
                    None => None,
                },
                sha@,
            ) is None,
        },
    decreases s@.len() - i,
{
    proof {
        reveal_strlit("version");
        reveal_strlit("installer_url");
        reveal_strlit("sha256");
        assert("version"@.len() == 7);
        assert("installer_url"@.len() == 13);
        assert("sha256"@.len() == 6);
    }
    let n = s.len();
    let j = crate::json::skip_ws(s, i);
    if j >= n {
        return None;
    }
    if first && s[j] == '}' {
        return Some((ver, url, sha, j + 1));
    }
    let (key, k) = match crate::json::parse_string_at(s, j) {
        None => {
            return None;
        },
        Some(p) => p,
    };
    if k <= j {
        return None;
    }
    let l = crate::json::skip_ws(s, k);
    if l >= n || s[l] != ':' {
        return None;
    }
    let v = crate::json::skip_ws(s, l + 1);
    let known = crate::strutil::str_eq(key.as_str(), "version") || crate::strutil::str_eq(
        key.as_str(),
        "installer_url",
    ) || crate::strutil::str_eq(key.as_str(), "sha256");
    if known {
        let (val, e) = match crate::json::parse_string_at(s, v) {
            None => {
                return None;
            },
            Some(p) => p,
        };
        if e <= v {
            return None;
        }
        let is_ver = crate::strutil::str_eq(key.as_str(), "version");
        let is_url = crate::strutil::str_eq(key.as_str(), "installer_url");
        let ver2: Option<String> = if is_ver {
            Some(val.clone())
        } else {
            ver
        };
        let url2: Option<String> = if is_url {
            Some(val.clone())
        } else {
            url
        };
        let sha2: String = if !is_ver && !is_url {
            val
        } else {
            sha
        };
        let m = crate::json::skip_ws(s, e);
        if m >= n {
            return None;
        }
        if s[m] == ',' {
            return manifest_members_at(s, m + 1, false, ver2, url2, sha2);
        }
        if s[m] == '}' {
            return Some((ver2, url2, sha2, m + 1));
        }
        return None;
    }
    let e = match crate::json::skip_value_at(s, v) {
        None => {
            return None;
        },
        Some(e) => e,
    };
    let m = crate::json::skip_ws(s, e);
    if m >= n {
        return None;
    }
    if s[m] == ',' {
        return manifest_members_at(s, m + 1, false, ver, url, sha);
    }
    if s[m] == '}' {
        return Some((ver, url, sha, m + 1));
    }
    None
}

/// Parses a manifest: ordinary JSON, any field order and spacing; the
/// digest field may be absent and unknown fields are ignored.
pub fn parse_manifest(text: &str) -> (r: Option<Manifest>)
    ensures
        match spec_parse_manifest(text@) {
            None => r is None,
            Some(v) => r matches Some(m) && m@ == v,
        },
{
    let s = str_to_chars(text);
    let n = s.len();
    let j = crate::json::skip_ws(&s, 0);
    if j >= n {
        return None;
    }
    if s[j] != '{' {
        return None;
    }
    let (ver, url, sha, e) = match manifest_members_at(&s, j + 1, true, None, None, String::new()) {
        None => {
            return None;
        },
        Some(p) => p,
    };
    let t = crate::json::skip_ws(&s, e);
    if t != n {
        return None;
    }
    match (ver, url) {
        (Some(version), Some(installer_url)) => Some(
            Manifest { version, installer_url, sha256: sha },
        ),
        _ => None,
    }
}

/// A base link with its trailing slashes dropped.
pub open spec fn strip_trailing_slashes(s: Seq<char>) -> Seq<char>
    decreases s.len(),
{
    if s.len() > 0 && s[s.len() - 1] == '/' {
        strip_trailing_slashes(s.drop_last())
    } else {
        s
    }
}

proof fn lemma_strip_slashes_at(s: Seq<char>, e: int)
    requires
        0 <= e <= s.len(),
        forall|k: int| e <= k < s.len() ==> s[k] == '/',
        e > 0 ==> s[e - 1] != '/',
    ensures
        strip_trailing_slashes(s) == s.subrange(0, e),
    decreases s.len(),
{
    if s.len() > e {
        assert(s[s.len() - 1] == '/');
        lemma_strip_slashes_at(s.drop_last(), e);
        assert(s.drop_last().subrange(0, e) =~= s.subrange(0, e));
    } else {
        assert(s.subrange(0, e) =~= s);
    }
}

/// The manifest location: the configured one, else derived from the
/// configured base link (its trailing slashes dropped, the fixed
/// release-asset path appended); empty when neither is set.
pub fn resolve_manifest_url(configured: &str, instance_link: &str) -> (r: String)
    ensures
        trim_spec(configured@).len() > 0 ==> r@ == trim_spec(configured@),
        trim_spec(configured@).len() == 0 && trim_spec(instance_link@).len() == 0 ==> r@.len()
            == 0,
        trim_spec(configured@).len() == 0 && trim_spec(instance_link@).len() > 0 ==> r@
            == strip_trailing_slashes(trim_spec(instance_link@)) + "/latest/download/latest.json"@,
{
    proof {
        reveal_strlit("/latest/download/latest.json");
    }
    let c = trim(configured);
    if c.unicode_len() > 0 {
        return c;
    }
    let base = trim(instance_link);
    if base.unicode_len() == 0 {
        return String::new();
    }
    // drop trailing slashes of the base link
    let n = base.unicode_len();
    let mut e: usize = n;
    while e > 0
        invariant
            e <= n,
            n == base@.len(),
            forall|k: int| e <= k < n ==> base@[k] == '/',
        ensures
            e <= n,
            forall|k: int| e <= k < n ==> base@[k] == '/',
            e > 0 ==> base@[e - 1] != '/',
        decreases e,
    {
        if base.as_str().get_char(e - 1) != '/' {
            break ;
        }
        e -= 1;
    }
    proof {
        lemma_strip_slashes_at(base@, e as int);
    }
    let head = base.as_str().substring_char(0, e).to_owned();
    crate::strutil::concat2(head.as_str(), "/latest/download/latest.json")
}

/// The hand-off command of a verified update: the staged installer
/// file, told that it runs on behalf of an update.
pub open spec fn installer_launch_cmd(nonce: u64) -> crate::ports::CmdModel {
    crate::ports::CmdModel {
        program: crate::fs_ops::temp_path_spec("installer"@, nonce),
        args: seq!["--from-update"@],
        cwd: None,
        envs: Seq::empty(),
    }
}

/// One updater pass over the ports.
///
/// A manifest whose version string equals the running version, or is
/// not strictly newer, ends the pass without a second fetch; a digest
/// mismatch ends it before any installer is started.
pub fn run_inner<E: Executor, F: Fetcher>(
    fs: &mut Fs,
    ex: &mut E,
    fx: &mut F,
    ui_cmd: &CmdSpec,
    auto_update_enabled: bool,
    version: &str,
    manifest_url_cfg: &str,
    instance_link: &str,
    nonce: u64,
) -> (r: Result<UpdateOutcome, LibError>)
    requires
        old(fs).inv(),
        old(fx).fetch_plan().len() >= 2,
        old(ex).spawn_plan().len() >= 2,
    ensures
        final(fs).inv(),
        !auto_update_enabled ==> (r matches Ok(o) && o is NoUpdate) && *final(fx) == *old(fx)
            && *final(ex) == *old(ex) && *final(fs) == *old(fs),
        // no manifest location configured or derivable: nothing to do
        auto_update_enabled && trim_spec(manifest_url_cfg@).len() == 0 && trim_spec(
            instance_link@,
        ).len() == 0 ==> (r matches Ok(o) && o is NoUpdate) && *final(fx) == *old(fx) && *final(ex)
            == *old(ex) && *final(fs) == *old(fs),
        // a manifest that is not strictly newer ends the pass after the
        // single manifest fetch
        auto_update_enabled && (trim_spec(manifest_url_cfg@).len() > 0 || trim_spec(
            instance_link@,
        ).len() > 0) && (old(fx).fetch_plan()[0] matches Some(body) && (exists|c: Seq<char>|
            body == #[trigger] utf8_of(c) && (spec_parse_manifest(c) matches Some(m)
                && m.version.len() > 0 && m.installer_url.len() > 0 && !should_update_spec(
                version@,
                m.version,
            )))) ==> (r
            matches Ok(o) && o is NoUpdate) && final(fx).fetch_plan() == old(fx).fetch_plan().drop_first() && *final(ex) == *old(ex) && *final(fs) == *old(fs),
        // a digest mismatch aborts before any installer is started
        r == Result::<UpdateOutcome, LibError>::Err(LibError::HashMismatch) ==> final(ex).spawn_plan().len() >= old(ex).spawn_plan().len() - 1,
        r matches Ok(o) && o is InstallerLaunched ==> final(ex).spawn_plan().len() == old(ex).spawn_plan().len() - 2,
        // a failed manifest fetch ends the pass
        auto_update_enabled && (trim_spec(manifest_url_cfg@).len() > 0 || trim_spec(
            instance_link@,
        ).len() > 0) && old(fx).fetch_plan()[0] is None ==> r == Result::<
            UpdateOutcome,
            LibError,
        >::Err(LibError::FetchFailed),
        // what the fetched manifest says decides the rest of the pass
        auto_update_enabled && (trim_spec(manifest_url_cfg@).len() > 0 || trim_spec(
            instance_link@,
        ).len() > 0) && (old(fx).fetch_plan()[0] matches Some(b0)) ==> forall|c: Seq<char>|
            (old(fx).fetch_plan()[0] matches Some(b0) && b0 == #[trigger] utf8_of(c))
                ==> match spec_parse_manifest(c) {
                None => r == Result::<UpdateOutcome, LibError>::Err(LibError::ManifestCorrupt),
                Some(m) => {
                    &&& (m.version.len() == 0 ==> r == Result::<UpdateOutcome, LibError>::Err(
                        LibError::ManifestEmptyVersion,
                    ))
                    &&& (m.version.len() > 0 && m.installer_url.len() == 0 ==> r == Result::<
                        UpdateOutcome,
                        LibError,
                    >::Err(LibError::ManifestEmptyUrl))
                    &&& (m.version.len() > 0 && m.installer_url.len() > 0 && should_update_spec(
                        version@,
                        m.version,
                    ) ==> match old(fx).fetch_plan()[1] {
                        None => r == Result::<UpdateOutcome, LibError>::Err(LibError::FetchFailed),
                        Some(b1) => {
                            &&& (trim_spec(m.sha256).len() > 0 && normalize_hex_spec(m.sha256)
                                != hex_of(sha256_of(b1)) ==> r == Result::<
                                UpdateOutcome,
                                LibError,
                            >::Err(LibError::HashMismatch) && final(ex).spawn_plan() == old(ex).spawn_plan().drop_first() && final(ex).spawned() == old(ex).spawned().push(
                                crate::ports::cmd_model(*ui_cmd),
                            ))
                            &&& ((trim_spec(m.sha256).len() == 0 || normalize_hex_spec(m.sha256)
                                == hex_of(sha256_of(b1))) ==> final(ex).spawned() == old(ex).spawned().push(crate::ports::cmd_model(*ui_cmd)).push(
                                installer_launch_cmd(nonce),
                            ) && (if old(ex).spawn_plan()[1] {
                                (r matches Ok(o) && o is InstallerLaunched) && final(fs).has_file(
                                    crate::fs_ops::temp_path_spec("installer"@, nonce),
                                ) && final(fs).file_data(
                                    crate::fs_ops::temp_path_spec("installer"@, nonce),
                                ) == b1
                            } else {
                                r == Result::<UpdateOutcome, LibError>::Err(LibError::SpawnFailed)
                            }))
                        },
                    })
                },
            },
{
    if !auto_update_enabled {
        return Ok(UpdateOutcome::NoUpdate);
    }
    let url = resolve_manifest_url(manifest_url_cfg, instance_link);
    proof {
        if trim_spec(manifest_url_cfg@).len() == 0 && trim_spec(instance_link@).len() > 0 {
            reveal_strlit("/latest/download/latest.json");
            assert(url@.len() > 0);
        }
    }
    if url.unicode_len() == 0 {
        return Ok(UpdateOutcome::NoUpdate);
    }
    let body = match fx.fetch(url.as_str()) {
        Ok(b) => b,
        Err(e) => {
            return Err(e);
        },
    };
    let text = match utf8_decode(body) {
        Some(t) => t,
        None => {
            return Err(LibError::ManifestCorrupt);
        },
    };
    let manifest = match parse_manifest(text.as_str()) {
        Some(m) => m,
        None => {
            return Err(LibError::ManifestCorrupt);
        },
    };
    if manifest.version.unicode_len() == 0 {
        return Err(LibError::ManifestEmptyVersion);
    }
    if manifest.installer_url.unicode_len() == 0 {
        return Err(LibError::ManifestEmptyUrl);
    }
    if !should_update(version, manifest.version.as_str()) {
        return Ok(UpdateOutcome::NoUpdate);
    }
    // best-effort progress indicator; its failure never stops the
    // update, and the caller tears the window down on every exit path
    let _ = ex.spawn(ui_cmd);
    let installer_bytes = match fx.fetch(manifest.installer_url.as_str()) {
        Ok(b) => b,
        Err(e) => {
            return Err(e);
        },
    };
    let sha_trim = trim(manifest.sha256.as_str());
    if sha_trim.unicode_len() > 0 {
        if !digest_matches(manifest.sha256.as_str(), &installer_bytes) {
            return Err(LibError::HashMismatch);
        }
    }
    let tmp = crate::fs_ops::temp_path_for("installer", nonce);
    fs.write_file(tmp.as_str(), installer_bytes);
    let mut launch = CmdSpec::new(tmp.as_str());
    launch.arg("--from-update");
    proof {
        assert(crate::ports::cmd_model(launch).args =~= seq!["--from-update"@]);
        assert(crate::ports::cmd_model(launch).envs =~= Seq::<(Seq<char>, Seq<char>)>::empty());
        assert(crate::ports::cmd_model(launch) == installer_launch_cmd(nonce));
    }
    match ex.spawn(&launch) {
        Ok(()) => Ok(UpdateOutcome::InstallerLaunched),
        Err(e) => Err(e),
    }
}

/// The updater's top level: every failure is caught and surfaced as
/// "no update".
pub fn run<E: Executor, F: Fetcher>(
    fs: &mut Fs,
    ex: &mut E,
    fx: &mut F,
    ui_cmd: &CmdSpec,
    auto_update_enabled: bool,
    version: &str,
    manifest_url_cfg: &str,
    instance_link: &str,
    nonce: u64,
) -> (r: UpdateOutcome)
    requires
        old(fs).inv(),
        old(fx).fetch_plan().len() >= 2,
        old(ex).spawn_plan().len() >= 2,
    ensures
        final(fs).inv(),
        r is InstallerLaunched ==> final(ex).spawn_plan().len() == old(ex).spawn_plan().len() - 2,
        // every inner failure surfaces as "no update"; only a verified
        // installer ever reports the launched outcome
        !auto_update_enabled ==> r is NoUpdate && *final(fx) == *old(fx) && *final(ex) == *old(ex)
            && *final(fs) == *old(fs),
        auto_update_enabled && trim_spec(manifest_url_cfg@).len() == 0 && trim_spec(
            instance_link@,
        ).len() == 0 ==> r is NoUpdate && *final(fx) == *old(fx) && *final(ex) == *old(ex)
            && *final(fs) == *old(fs),
        // a manifest that is not strictly newer: no update, one fetch
        auto_update_enabled && (trim_spec(manifest_url_cfg@).len() > 0 || trim_spec(
            instance_link@,
        ).len() > 0) && (old(fx).fetch_plan()[0] matches Some(body) && (exists|c: Seq<char>|
            body == #[trigger] utf8_of(c) && (spec_parse_manifest(c) matches Some(m)
                && m.version.len() > 0 && m.installer_url.len() > 0 && !should_update_spec(
                version@,
                m.version,
            )))) ==> r is NoUpdate && final(fx).fetch_plan() == old(fx).fetch_plan().drop_first()
            && *final(ex) == *old(ex) && *final(fs) == *old(fs),
        // the fetched manifest decides the rest; failures degrade
        auto_update_enabled && (trim_spec(manifest_url_cfg@).len() > 0 || trim_spec(
            instance_link@,
        ).len() > 0) && (old(fx).fetch_plan()[0] matches Some(b0)) ==> forall|c: Seq<char>|
            (old(fx).fetch_plan()[0] matches Some(b0) && b0 == #[trigger] utf8_of(c))
                ==> match spec_parse_manifest(c) {
                None => r is NoUpdate,
                Some(m) => {
                    &&& (m.version.len() == 0 || m.installer_url.len() == 0 ==> r is NoUpdate)
                    &&& (m.version.len() > 0 && m.installer_url.len() > 0 && should_update_spec(
                        version@,
                        m.version,
                    ) ==> match old(fx).fetch_plan()[1] {
                        None => r is NoUpdate,
                        Some(b1) => {
                            &&& (trim_spec(m.sha256).len() > 0 && normalize_hex_spec(m.sha256)
                                != hex_of(sha256_of(b1)) ==> r is NoUpdate && final(ex).spawn_plan() == old(ex).spawn_plan().drop_first() && final(ex).spawned() == old(ex).spawned().push(crate::ports::cmd_model(*ui_cmd)))
                            &&& ((trim_spec(m.sha256).len() == 0 || normalize_hex_spec(m.sha256)
                                == hex_of(sha256_of(b1))) && old(ex).spawn_plan()[1]
                                ==> r is InstallerLaunched && final(fs).has_file(
                                crate::fs_ops::temp_path_spec("installer"@, nonce),
                            ) && final(fs).file_data(
                                crate::fs_ops::temp_path_spec("installer"@, nonce),
                            ) == b1 && final(ex).spawned() == old(ex).spawned().push(
                                crate::ports::cmd_model(*ui_cmd),
                            ).push(installer_launch_cmd(nonce)))
                        },
                    })
                },
            },
{
    match run_inner(
        fs,
        ex,
        fx,
        ui_cmd,
        auto_update_enabled,
        version,
        manifest_url_cfg,
        instance_link,
        nonce,
    ) {
        Ok(o) => o,
        Err(_) => UpdateOutcome::NoUpdate,
    }
}

/// The application's display name as the updater shows it: the
/// product name, else the plain name, else a fixed fallback.
pub fn app_display_name(product_name: &str, name: &str) -> (r: String)
    ensures
        trim_spec(product_name@).len() > 0 ==> r@ == trim_spec(product_name@),
        trim_spec(product_name@).len() == 0 && trim_spec(name@).len() > 0 ==> r@ == trim_spec(
            name@,
        ),
        trim_spec(product_name@).len() == 0 && trim_spec(name@).len() == 0 ==> r@
            == "UvesselApp"@,
{
    let p = trim(product_name);
    if p.unicode_len() > 0 {
        return p;
    }
    let n = trim(name);
    if n.unicode_len() > 0 {
        return n;
    }
    "UvesselApp".to_owned()
}

/// The exit code the updater process reports: the reserved code for
/// "installer launched, exit now", or plain success.
pub fn updater_exit_code(outcome: &UpdateOutcome) -> (r: i32)
    ensures
        outcome is InstallerLaunched <==> r == 10,
        outcome is NoUpdate <==> r == 0,
{
    match outcome {
        UpdateOutcome::InstallerLaunched => 10,
        UpdateOutcome::NoUpdate => 0,
    }
}

} // verus!
