//! The persisted installed-version record: its JSON encoding, a parser
//! proved to read back exactly what the encoder writes, and the store
//! that keeps one record per install root.
//!
//! The record is rendered in a single-line canonical form rather than
//! indented text: the store reads what it writes, and one fixed
//! rendering is what the round-trip proof pins down. A record written
//! before versions were stored (no version field) still parses, with
//! an empty version.

use vstd::prelude::*;
use vstd::string::*;
use crate::dec::{dec_spec, spec_parse_u64, u64_to_dec};
use crate::errors::LibError;
use crate::fs::Fs;
use crate::json::{
    expect_lit, json_str, lemma_expect_canonical, lemma_parse_string_canonical,
    lemma_parse_u64_canonical, parse_bool_at, parse_string_at, push_json_str, push_str_chars,
    spec_expect, spec_parse_bool, spec_parse_string,
};
use crate::paths::parent_dir;
use crate::strutil::{
    chars_to_string, starts_with, str_eq, str_to_chars, suffix_from, trim, trim_spec, utf8_decode,
    utf8_encode, utf8_of,
};

verus! {

/// How the installed application is started.
#[derive(Debug, Clone, PartialEq, Eq)]
pub enum EntryPoint {
    /// A script file, relative to the project directory.
    PythonFile(String),
    /// A dotted module name.
    Module(String),
    /// A command on the project environment's path.
    Command(String),
}

/// The persisted record: one per install root.
#[derive(Debug, Clone, PartialEq, Eq)]
pub struct State {
    /// Path of the project directory, relative to the install root.
    pub project_rel: String,
    /// How the application is started.
    pub entry: EntryPoint,
    /// Write stamp of the dependency lock file at the last bootstrap;
    /// `0` means unknown or never bootstrapped.
    pub lock_mtime_unix: u64,
    pub installed: bool,
    /// The launcher version that performed the last install.
    pub launcher_version: String,
}

pub enum EntryPointView {
    PythonFile(Seq<char>),
    Module(Seq<char>),
    Command(Seq<char>),
}

pub struct StateView {
    pub project_rel: Seq<char>,
    pub entry: EntryPointView,
    pub lock_mtime_unix: u64,
    pub installed: bool,
    pub launcher_version: Seq<char>,
}

impl View for EntryPoint {
    type V = EntryPointView;

    open spec fn view(&self) -> EntryPointView {
        match self {
            EntryPoint::PythonFile(f) => EntryPointView::PythonFile(f@),
            EntryPoint::Module(m) => EntryPointView::Module(m@),
            EntryPoint::Command(c) => EntryPointView::Command(c@),
        }
    }
}

impl View for State {
    type V = StateView;

    open spec fn view(&self) -> StateView {
        StateView {
            project_rel: self.project_rel@,
            entry: self.entry@,
            lock_mtime_unix: self.lock_mtime_unix,
            installed: self.installed,
            launcher_version: self.launcher_version@,
        }
    }
}

pub open spec fn entry_kind_text(e: EntryPointView) -> Seq<char> {
    match e {
        EntryPointView::PythonFile(_) => "python_file"@,
        EntryPointView::Module(_) => "module"@,
        EntryPointView::Command(_) => "command"@,
    }
}

pub open spec fn entry_value_text(e: EntryPointView) -> Seq<char> {
    match e {
        EntryPointView::PythonFile(v) => v,
        EntryPointView::Module(v) => v,
        EntryPointView::Command(v) => v,
    }
}

/// The JSON rendering of a record.
pub open spec fn state_text(v: StateView) -> Seq<char> {
    "{\"project_rel\":"@ + json_str(v.project_rel) + ",\"entry\":{\"kind\":"@ + json_str(
        entry_kind_text(v.entry),
    ) + ",\"value\":"@ + json_str(entry_value_text(v.entry)) + "},\"lock_mtime_unix\":"@
        + dec_spec(v.lock_mtime_unix as nat) + ",\"installed\":"@ + (if v.installed {
        "true"@
    } else {
        "false"@
    }) + ",\"launcher_version\":"@ + json_str(v.launcher_version) + "}"@
}

/// Serializes a record to its JSON text.
pub fn state_to_json(st: &State) -> (r: String)
    ensures
        r@ == state_text(st@),
{
    let mut out: Vec<char> = Vec::new();
    push_str_chars(&mut out, "{\"project_rel\":");
    push_json_str(&mut out, st.project_rel.as_str());
    push_str_chars(&mut out, ",\"entry\":{\"kind\":");
    match &st.entry {
        EntryPoint::PythonFile(_) => push_str_chars(&mut out, "\"python_file\""),
        EntryPoint::Module(_) => push_str_chars(&mut out, "\"module\""),
        EntryPoint::Command(_) => push_str_chars(&mut out, "\"command\""),
    }
    proof {
        reveal_strlit("python_file");
        reveal_strlit("module");
        reveal_strlit("command");
        reveal_strlit("\"python_file\"");
        reveal_strlit("\"module\"");
        reveal_strlit("\"command\"");
        lemma_ident_json_str("python_file"@, "\"python_file\""@);
        lemma_ident_json_str("module"@, "\"module\""@);
        lemma_ident_json_str("command"@, "\"command\""@);
    }
    push_str_chars(&mut out, ",\"value\":");
    match &st.entry {
        EntryPoint::PythonFile(v) => push_json_str(&mut out, v.as_str()),
        EntryPoint::Module(v) => push_json_str(&mut out, v.as_str()),
        EntryPoint::Command(v) => push_json_str(&mut out, v.as_str()),
    }
    push_str_chars(&mut out, "},\"lock_mtime_unix\":");
    let digits = u64_to_dec(st.lock_mtime_unix);
    push_str_chars(&mut out, digits.as_str());
    push_str_chars(&mut out, ",\"installed\":");
    if st.installed {
        push_str_chars(&mut out, "true");
    } else {
        push_str_chars(&mut out, "false");
    }
    push_str_chars(&mut out, ",\"launcher_version\":");
    push_json_str(&mut out, st.launcher_version.as_str());
    push_str_chars(&mut out, "}");
    proof {
        assert(out@ =~= state_text(st@));
    }
    chars_to_string(&out)
}

/// A quoted identifier made only of letters and underscores is its own
/// JSON string.
proof fn lemma_ident_json_str(ident: Seq<char>, quoted: Seq<char>)
    requires
        quoted.len() == ident.len() + 2,
        quoted[0] == '"',
        quoted[quoted.len() - 1] == '"',
        forall|k: int| 0 <= k < ident.len() ==> quoted[k + 1] == ident[k],
        forall|k: int|
            0 <= k < ident.len() ==> ident[k] != '"' && ident[k] != '\\' && ident[k] != '\n'
                && ident[k] != '\r' && ident[k] != '\t',
    ensures
        quoted == json_str(ident),
{
    lemma_escape_plain(ident);
    assert(quoted =~= json_str(ident));
}

/// Escaping text without special characters leaves it unchanged.
proof fn lemma_escape_plain(s: Seq<char>)
    requires
        forall|k: int|
            0 <= k < s.len() ==> s[k] != '"' && s[k] != '\\' && s[k] != '\n' && s[k] != '\r'
                && s[k] != '\t',
    ensures
        crate::json::escape(s) == s,
    decreases s.len(),
{
    if s.len() == 0 {
        assert(crate::json::escape(s) =~= s);
    } else {
        assert(forall|k: int| 0 <= k < s.drop_first().len() ==> s.drop_first()[k] == s[k + 1]);
        lemma_escape_plain(s.drop_first());
        assert(crate::json::escape(s) =~= seq![s[0]] + s.drop_first());
        assert(seq![s[0]] + s.drop_first() =~= s);
    }
}

pub open spec fn entry_of(kind: Seq<char>, value: Seq<char>) -> Option<EntryPointView> {
    if kind == "python_file"@ {
        Some(EntryPointView::PythonFile(value))
    } else if kind == "module"@ {
        Some(EntryPointView::Module(value))
    } else if kind == "command"@ {
        Some(EntryPointView::Command(value))
    } else {
        None
    }
}

/// Stage one of parsing: the opening brace and project path.
pub open spec fn sps_project(s: Seq<char>) -> Option<(Seq<char>, int)> {
    match spec_expect(s, 0, "{\"project_rel\":"@) {
        None => None,
        Some(p1) => match spec_parse_string(s, p1) {
            None => None,
            Some((pr, p2)) => Some((pr, p2)),
        },
    }
}

/// Stage two: the entry object's kind and value.
pub open spec fn sps_entry(s: Seq<char>, pos: int) -> Option<(Seq<char>, Seq<char>, int)> {
    match spec_expect(s, pos, ",\"entry\":{\"kind\":"@) {
        None => None,
        Some(p3) => match spec_parse_string(s, p3) {
            None => None,
            Some((kind, p4)) => match spec_expect(s, p4, ",\"value\":"@) {
                None => None,
                Some(p5) => match spec_parse_string(s, p5) {
                    None => None,
                    Some((val, p6)) => Some((kind, val, p6)),
                },
            },
        },
    }
}

/// Stage three: the lock stamp and installed flag.
pub open spec fn sps_stamps(s: Seq<char>, pos: int) -> Option<(u64, bool, int)> {
    match spec_expect(s, pos, "},\"lock_mtime_unix\":"@) {
        None => None,
        Some(p7) => match spec_parse_u64(s, p7) {
            None => None,
            Some((lock, p8)) => match spec_expect(s, p8, ",\"installed\":"@) {
                None => None,
                Some(p9) => match spec_parse_bool(s, p9) {
                    None => None,
                    Some((inst, p10)) => Some((lock, inst, p10)),
                },
            },
        },
    }
}

/// Stage four: the launcher version and closing brace. A record
/// written before versions were stored lacks the field; it reads back
/// with an empty version, which the engine then heals by upgrading.
pub open spec fn sps_version(s: Seq<char>, pos: int) -> Option<(Seq<char>, int)> {
    match spec_expect(s, pos, ",\"launcher_version\":"@) {
        None => match spec_expect(s, pos, "}"@) {
            None => None,
            Some(p) => if p == s.len() {
                Some((Seq::empty(), p))
            } else {
                None
            },
        },
        Some(p11) => match spec_parse_string(s, p11) {
            None => None,
            Some((ver, p12)) => match spec_expect(s, p12, "}"@) {
                None => None,
                Some(p13) => if p13 == s.len() {
                    Some((ver, p13))
                } else {
                    None
                },
            },
        },
    }
}

/// The record encoded in `s`, when `s` is a well-formed rendering.
pub open spec fn spec_parse_state(s: Seq<char>) -> Option<StateView> {
    match sps_project(s) {
        None => None,
        Some((pr, p2)) => match sps_entry(s, p2) {
            None => None,
            Some((kind, val, p6)) => match sps_stamps(s, p6) {
                None => None,
                Some((lock, inst, p10)) => match sps_version(s, p10) {
                    None => None,
                    Some((ver, _p13)) => match entry_of(kind, val) {
                        None => None,
                        Some(e) => Some(
                            StateView {
                                project_rel: pr,
                                entry: e,
                                lock_mtime_unix: lock,
                                installed: inst,
                                launcher_version: ver,
                            },
                        ),
                    },
                },
            },
        },
    }
}

/// Parses a record's JSON text: exactly what [`spec_parse_state`]
/// yields.
pub fn state_from_json(text: &str) -> (r: Option<State>)
    ensures
        match spec_parse_state(text@) {
            None => r is None,
            Some(v) => r matches Some(st) && st@ == v,
        },
{
    let s = str_to_chars(text);
    let p1 = match expect_lit(&s, 0, "{\"project_rel\":") {
        Some(p) => p,
        None => {
            return None;
        },
    };
    let (pr, p2) = match parse_string_at(&s, p1) {
        Some(p) => p,
        None => {
            return None;
        },
    };
    let p3 = match expect_lit(&s, p2, ",\"entry\":{\"kind\":") {
        Some(p) => p,
        None => {
            return None;
        },
    };
    let (kind, p4) = match parse_string_at(&s, p3) {
        Some(p) => p,
        None => {
            return None;
        },
    };
    let p5 = match expect_lit(&s, p4, ",\"value\":") {
        Some(p) => p,
        None => {
            return None;
        },
    };
    let (val, p6) = match parse_string_at(&s, p5) {
        Some(p) => p,
        None => {
            return None;
        },
    };
    let p7 = match expect_lit(&s, p6, "},\"lock_mtime_unix\":") {
        Some(p) => p,
        None => {
            return None;
        },
    };
    let (lock, p8) = match crate::dec::parse_u64_at(&s, p7) {
        Some(p) => p,
        None => {
            return None;
        },
    };
    let p9 = match expect_lit(&s, p8, ",\"installed\":") {
        Some(p) => p,
        None => {
            return None;
        },
    };
    let (inst, p10) = match parse_bool_at(&s, p9) {
        Some(p) => p,
        None => {
            return None;
        },
    };
    let ver: String;
    match expect_lit(&s, p10, ",\"launcher_version\":") {
        Some(p11) => {
            let (v, p12) = match parse_string_at(&s, p11) {
                Some(p) => p,
                None => {
                    return None;
                },
            };
            let p13 = match expect_lit(&s, p12, "}") {
                Some(p) => p,
                None => {
                    return None;
                },
            };
            if p13 != s.len() {
                return None;
            }
            ver = v;
        },
        None => {
            // a record from before versions were stored
            let p11 = match expect_lit(&s, p10, "}") {
                Some(p) => p,
                None => {
                    return None;
                },
            };
            if p11 != s.len() {
                return None;
            }
            ver = String::new();
        },
    }
    let entry: EntryPoint = if str_eq(kind.as_str(), "python_file") {
        EntryPoint::PythonFile(val)
    } else if str_eq(kind.as_str(), "module") {
        EntryPoint::Module(val)
    } else if str_eq(kind.as_str(), "command") {
        EntryPoint::Command(val)
    } else {
        return None;
    };
    Some(
        State {
            project_rel: pr,
            entry,
            lock_mtime_unix: lock,
            installed: inst,
            launcher_version: ver,
        },
    )
}

/// What the encoder writes, the parser reads back unchanged.
#[verifier::rlimit(100)]
#[verifier::spinoff_prover]
pub proof fn lemma_state_roundtrip(v: StateView)
    ensures
        spec_parse_state(state_text(v)) == Some(v),
{
    reveal_strlit("python_file");
    reveal_strlit("module");
    reveal_strlit("command");
    reveal_strlit("true");
    reveal_strlit("false");
    let s = state_text(v);
    let l1 = "{\"project_rel\":"@;
    let j1 = json_str(v.project_rel);
    let l2 = ",\"entry\":{\"kind\":"@;
    let j2 = json_str(entry_kind_text(v.entry));
    let l3 = ",\"value\":"@;
    let j3 = json_str(entry_value_text(v.entry));
    let l4 = "},\"lock_mtime_unix\":"@;
    let d = dec_spec(v.lock_mtime_unix as nat);
    let l5 = ",\"installed\":"@;
    let b = if v.installed {
        "true"@
    } else {
        "false"@
    };
    let l6 = ",\"launcher_version\":"@;
    let j4 = json_str(v.launcher_version);
    let l7 = "}"@;
    let o1 = l1.len() as int;
    let o2 = o1 + j1.len();
    let o3 = o2 + l2.len();
    let o4 = o3 + j2.len();
    let o5 = o4 + l3.len();
    let o6 = o5 + j3.len();
    let o7 = o6 + l4.len();
    let o8 = o7 + d.len();
    let o9 = o8 + l5.len();
    let o10 = o9 + b.len();
    let o11 = o10 + l6.len();
    let o12 = o11 + j4.len();
    let o13 = o12 + l7.len();
    assert(s.len() == o13);
    assert(s.subrange(0, o1) =~= l1);
    lemma_expect_canonical(s, 0, l1);
    assert(s.subrange(o1, o2) =~= j1);
    lemma_parse_string_canonical(s, o1, v.project_rel);
    assert(s.subrange(o2, o3) =~= l2);
    lemma_expect_canonical(s, o2, l2);
    assert(s.subrange(o3, o4) =~= j2);
    lemma_parse_string_canonical(s, o3, entry_kind_text(v.entry));
    assert(s.subrange(o4, o5) =~= l3);
    lemma_expect_canonical(s, o4, l3);
    assert(s.subrange(o5, o6) =~= j3);
    lemma_parse_string_canonical(s, o5, entry_value_text(v.entry));
    assert(s.subrange(o6, o7) =~= l4);
    lemma_expect_canonical(s, o6, l4);
    assert(s.subrange(o7, o8) =~= d);
    reveal_strlit(",\"installed\":");
    assert(s[o8] == ',');
    assert(!crate::dec::is_digit(',')) by {
        assert(',' as int == 44);
        assert('0' as int == 48);
    }
    lemma_parse_u64_canonical(s, o7, v.lock_mtime_unix);
    assert(s.subrange(o8, o9) =~= l5);
    lemma_expect_canonical(s, o8, l5);
    assert(s.subrange(o9, o10) =~= b);
    lemma_expect_canonical(s, o9, b);
    if v.installed {
        assert(spec_parse_bool(s, o9) == Some((true, o10)));
    } else {
        assert(spec_expect(s, o9, "true"@) is None) by {
            if spec_expect(s, o9, "true"@) is Some {
                assert(s.subrange(o9, o9 + 4) == "true"@);
                assert(s.subrange(o9, o9 + 4)[0] == "true"@[0]);
                assert(s[o9] == 't');
                assert(s.subrange(o9, o10)[0] == b[0]);
                assert(s[o9] == 'f');
            }
        }
        assert(spec_parse_bool(s, o9) == Some((false, o10)));
    }
    assert(s.subrange(o10, o11) =~= l6);
    lemma_expect_canonical(s, o10, l6);
    assert(s.subrange(o11, o12) =~= j4);
    lemma_parse_string_canonical(s, o11, v.launcher_version);
    assert(s.subrange(o12, o13) =~= l7);
    lemma_expect_canonical(s, o12, l7);
    assert(entry_of(entry_kind_text(v.entry), entry_value_text(v.entry)) == Some(v.entry)) by {
        match v.entry {
            EntryPointView::PythonFile(_) => {},
            EntryPointView::Module(_) => {
                assert("module"@ != "python_file"@);
            },
            EntryPointView::Command(_) => {
                assert("command"@ != "python_file"@);
                assert("command"@ != "module"@);
            },
        }
    }
}

/// Whether a state record lies under `root`.
pub fn state_exists(fs: &Fs, root: &str) -> (r: bool)
    requires
        fs.inv(),
    ensures
        r == fs.has_file(crate::paths::state_path_spec(root@)),
{
    let p = crate::paths::state_path(root);
    fs.file_exists(p.as_str())
}

/// The write stamp of a file; absence is an error for the caller.
pub fn file_mtime_unix(fs: &Fs, path: &str) -> (r: Result<u64, LibError>)
    requires
        fs.inv(),
    ensures
        r is Ok <==> fs.has_file(path@),
        r matches Ok(t) ==> t == fs.file_stamp(path@),
        r matches Err(e) ==> e is MissingFile,
{
    match fs.file_mtime(path) {
        Some(t) => Ok(t),
        None => Err(LibError::MissingFile(path.to_owned())),
    }
}

/// Reads the record at `state_path`: absent files and text that does
/// not parse are told apart.
pub fn read_state(fs: &Fs, state_path: &str) -> (r: Result<State, LibError>)
    requires
        fs.inv(),
    ensures
        !fs.has_file(state_path@) <==> r == Result::<State, LibError>::Err(LibError::StateNotFound),
        fs.has_file(state_path@) ==> forall|c: Seq<char>|
            fs.file_data(state_path@) == crate::strutil::utf8_of(c) ==> match spec_parse_state(c) {
                Some(v) => r matches Ok(st) && st@ == v,
                None => r == Result::<State, LibError>::Err(LibError::StateCorrupt),
            },
{
    let bytes = match fs.read_file(state_path) {
        Some(b) => b,
        None => {
            return Err(LibError::StateNotFound);
        },
    };
    let text = match utf8_decode(bytes) {
        Some(t) => t,
        None => {
            return Err(LibError::StateCorrupt);
        },
    };
    match state_from_json(text.as_str()) {
        Some(st) => Ok(st),
        None => Err(LibError::StateCorrupt),
    }
}

/// Writes the record at `state_path`, creating the parent directory.
///
/// Deliberately not routed through the temp-file-and-rename
/// discipline: a torn record reads back as corrupt, and the engine
/// heals that by a fresh bootstrap, so the extra rename buys nothing
/// here.
pub fn write_state(fs: &mut Fs, state_path: &str, st: &State)
    requires
        old(fs).inv(),
    ensures
        final(fs).inv(),
        final(fs).has_file(state_path@),
        final(fs).file_data(state_path@) == crate::strutil::utf8_of(state_text(st@)),
        forall|q: Seq<char>|
            q != state_path@ ==> final(fs).has_file(q) == old(fs).has_file(q),
        forall|q: Seq<char>|
            q != state_path@ && old(fs).has_file(q) ==> final(fs).file_data(q) == old(
                fs,
            ).file_data(q) && final(fs).file_stamp(q) == old(fs).file_stamp(q),
        forall|q: Seq<char>|
            q != crate::paths::parent_dir_spec(state_path@) ==> final(fs).has_dir(q) == old(
                fs,
            ).has_dir(q),
{
    let json = state_to_json(st);
    match parent_dir(state_path) {
        Some(d) => {
            fs.create_dir(d.as_str());
            proof {
                assert(d@ == crate::paths::parent_dir_spec(state_path@));
            }
        },
        None => {},
    }
    let ghost mid = *fs;
    let bytes = utf8_encode(json.as_str());
    fs.write_file(state_path, bytes);
    proof {
        assert forall|q: Seq<char>|
            q != crate::paths::parent_dir_spec(state_path@) implies fs.has_dir(q) == old(
            fs,
        ).has_dir(q) by {
            assert(fs.has_dir(q) == mid.has_dir(q));
            assert(mid.has_dir(q) == old(fs).has_dir(q));
        }
    }
}

/// Reads the record when one lies at `state_path`, otherwise derives a
/// fresh one for the project and persists it.
pub fn read_or_init_state(fs: &mut Fs, state_path: &str, root: &str, proj: &str, entry_point_cfg: &str, version: &str) -> (r: Result<State, LibError>)
    requires
        old(fs).inv(),
    ensures
        final(fs).inv(),
        // a present record is read, told apart from a corrupt one, and
        // left untouched
        old(fs).has_file(state_path@) ==> *final(fs) == *old(fs) && (forall|c: Seq<char>|
            old(fs).file_data(state_path@) == crate::strutil::utf8_of(c)
                ==> match spec_parse_state(c) {
                Some(v) => r matches Ok(st) && st@ == v,
                None => r == Result::<State, LibError>::Err(LibError::StateCorrupt),
            }),
        // a fresh record is derived from the project and persisted
        !old(fs).has_file(state_path@) && r is Ok ==> final(fs).has_file(state_path@),
        !old(fs).has_file(state_path@) ==> (r matches Ok(st) ==> final(fs).file_data(
            state_path@,
        ) == crate::strutil::utf8_of(state_text(st@)) && st@.project_rel == project_rel_spec(
            root@,
            proj@,
        ) && st@.lock_mtime_unix == 0 && st@.installed && st@.launcher_version == version@),
        // the configured entry decides the fresh path: a valid entry
        // source always yields a record, an invalid one its exact error
        !old(fs).has_file(state_path@) ==> (match spec_fresh_entry(
            *old(fs),
            proj@,
            entry_point_cfg@,
        ) {
            Ok(ev) => r matches Ok(st) && st@.entry == ev,
            Err(e) => r == Result::<State, LibError>::Err(e) && *final(fs) == *old(fs),
        }),
        r != Result::<State, LibError>::Err(LibError::StateNotFound),
{
    if fs.file_exists(state_path) {
        return read_state(fs, state_path);
    }
    let st = match default_state_for_project(fs, root, proj, entry_point_cfg, version) {
        Ok(st) => st,
        Err(e) => {
            return Err(e);
        },
    };
    write_state(fs, state_path, &st);
    Ok(st)
}

/// Reads a configured entry point: `module:` and `command:` prefixes
/// pick those kinds, anything else names a script file; blank names
/// are rejected.
pub fn parse_entry_point(raw: &str) -> (r: Result<EntryPoint, LibError>)
    ensures
        ({
            let t = trim_spec(raw@);
            if crate::strutil::starts_with_spec(t, "module:"@) {
                let v = trim_spec(t.skip(7));
                if v.len() == 0 {
                    r == Result::<EntryPoint, LibError>::Err(LibError::EmptyEntryModule)
                } else {
                    r matches Ok(e) && e@ == EntryPointView::Module(v)
                }
            } else if crate::strutil::starts_with_spec(t, "command:"@) {
                let v = trim_spec(t.skip(8));
                if v.len() == 0 {
                    r == Result::<EntryPoint, LibError>::Err(LibError::EmptyEntryCommand)
                } else {
                    r matches Ok(e) && e@ == EntryPointView::Command(v)
                }
            } else if t.len() == 0 {
                r == Result::<EntryPoint, LibError>::Err(LibError::EmptyEntryPoint)
            } else {
                r matches Ok(e) && e@ == EntryPointView::PythonFile(t)
            }
        }),
{
    proof {
        reveal_strlit("module:");
        reveal_strlit("command:");
    }
    let t = trim(raw);
    if starts_with(t.as_str(), "module:") {
        let rest = suffix_from(t.as_str(), 7);
        let v = trim(rest.as_str());
        if v.unicode_len() == 0 {
            return Err(LibError::EmptyEntryModule);
        }
        return Ok(EntryPoint::Module(v));
    }
    if starts_with(t.as_str(), "command:") {
        let rest = suffix_from(t.as_str(), 8);
        let v = trim(rest.as_str());
        if v.unicode_len() == 0 {
            return Err(LibError::EmptyEntryCommand);
        }
        return Ok(EntryPoint::Command(v));
    }
    if t.unicode_len() == 0 {
        return Err(LibError::EmptyEntryPoint);
    }
    Ok(EntryPoint::PythonFile(t))
}

/// The project path relative to the install root, when it lies under
/// it.
pub open spec fn project_rel_spec(root: Seq<char>, proj: Seq<char>) -> Seq<char> {
    if crate::strutil::starts_with_spec(proj, root + crate::paths::sep_seq()) {
        proj.skip(root.len() + 1 as int)
    } else {
        proj
    }
}

/// The entry point a fresh record gets, decided by the configured
/// setting against the project's files: a blank setting takes the
/// default script when it exists, `module:` and `command:` settings
/// take their non-blank values, and a script setting must name a file
/// of the project.
pub open spec fn spec_fresh_entry(fsv: Fs, proj: Seq<char>, cfgv: Seq<char>) -> Result<
    EntryPointView,
    LibError,
> {
    let t = trim_spec(cfgv);
    if t.len() == 0 {
        if fsv.has_file(crate::paths::joined(proj, "main.py"@)) {
            Ok(EntryPointView::PythonFile("main.py"@))
        } else {
            Err(LibError::MissingDefaultEntry)
        }
    } else if crate::strutil::starts_with_spec(t, "module:"@) {
        let v = trim_spec(t.skip(7));
        if v.len() == 0 {
            Err(LibError::EmptyEntryModule)
        } else {
            Ok(EntryPointView::Module(v))
        }
    } else if crate::strutil::starts_with_spec(t, "command:"@) {
        let v = trim_spec(t.skip(8));
        if v.len() == 0 {
            Err(LibError::EmptyEntryCommand)
        } else {
            Ok(EntryPointView::Command(v))
        }
    } else {
        if fsv.has_file(crate::paths::joined(proj, t)) {
            Ok(EntryPointView::PythonFile(t))
        } else {
            Err(LibError::MissingConfiguredEntry)
        }
    }
}

/// Derives the initial record for a discovered project directory: a
/// configured entry point is validated (a script file must exist in
/// the project), and with none configured the default entry file must
/// be there.
pub fn default_state_for_project(fs: &Fs, root: &str, proj: &str, entry_point_cfg: &str, version: &str) -> (r: Result<State, LibError>)
    requires
        fs.inv(),
    ensures
        // the configured entry decides success and the entry stored
        (match spec_fresh_entry(*fs, proj@, entry_point_cfg@) {
            Ok(ev) => r matches Ok(st) && st@.entry == ev,
            Err(e) => r == Result::<State, LibError>::Err(e),
        }),
        r matches Ok(st) ==> {
            &&& st@.project_rel == project_rel_spec(root@, proj@)
            &&& st@.lock_mtime_unix == 0
            &&& st@.installed
            &&& st@.launcher_version == version@
            &&& (st@.entry matches EntryPointView::PythonFile(f) ==> fs.has_file(
                crate::paths::joined(proj@, f),
            ))
        },
        trim_spec(entry_point_cfg@).len() == 0 && !fs.has_file(
            crate::paths::joined(proj@, "main.py"@),
        ) ==> r == Result::<State, LibError>::Err(LibError::MissingDefaultEntry),
        trim_spec(entry_point_cfg@).len() == 0 && fs.has_file(
            crate::paths::joined(proj@, "main.py"@),
        ) ==> (r matches Ok(st) && st@.entry == EntryPointView::PythonFile("main.py"@)),
        r matches Err(e) ==> e is MissingDefaultEntry || e is MissingConfiguredEntry
            || e is EmptyEntryPoint || e is EmptyEntryModule || e is EmptyEntryCommand,
{
    let rel: String = {
        // `root` followed by the separator
        let rootsep = {
            let mut v = root.to_owned();
            v.append("\\");
            v
        };
        proof {
            reveal_strlit("\\");
            assert(rootsep@ =~= root@ + crate::paths::sep_seq());
        }
        if starts_with(proj, rootsep.as_str()) {
            let n = rootsep.unicode_len();
            suffix_from(proj, n)
        } else {
            proj.to_owned()
        }
    };
    let cfg = trim(entry_point_cfg);
    let entry: EntryPoint = if cfg.unicode_len() > 0 {
        proof {
            lemma_trim_idempotent(entry_point_cfg@);
        }
        let e = match parse_entry_point(cfg.as_str()) {
            Ok(e) => e,
            Err(err) => {
                return Err(err);
            },
        };
        if let EntryPoint::PythonFile(f) = &e {
            let p = crate::paths::join(proj, f.as_str());
            if !fs.file_exists(p.as_str()) {
                return Err(LibError::MissingConfiguredEntry);
            }
        }
        e
    } else {
        let main_py = crate::paths::join(proj, "main.py");
        if !fs.file_exists(main_py.as_str()) {
            return Err(LibError::MissingDefaultEntry);
        }
        EntryPoint::PythonFile("main.py".to_owned())
    };
    Ok(
        State {
            project_rel: rel,
            entry,
            lock_mtime_unix: 0,
            installed: true,
            launcher_version: version.to_owned(),
        },
    )
}

/// Trimming is idempotent.
pub proof fn lemma_trim_idempotent(s: Seq<char>)
    ensures
        trim_spec(trim_spec(s)) == trim_spec(s),
{
    let t = trim_spec(s);
    lemma_trim_no_edge_space(s);
    if t.len() > 0 {
        crate::strutil::lemma_trim_front_at(t, 0);
        crate::strutil::lemma_trim_back_at(t, t.len() as int);
        assert(t.subrange(0, t.len() as int) =~= t);
    } else {
        assert(trim_spec(t) =~= t);
    }
}

proof fn lemma_trim_no_edge_space(s: Seq<char>)
    ensures
        trim_spec(s).len() > 0 ==> !crate::strutil::is_space_char(trim_spec(s)[0])
            && !crate::strutil::is_space_char(trim_spec(s)[trim_spec(s).len() - 1]),
{
    lemma_trim_front_no_space(s);
    lemma_trim_back_no_space(trim_front_spec_of(s));
}

pub open spec fn trim_front_spec_of(s: Seq<char>) -> Seq<char> {
    crate::strutil::trim_front_spec(s)
}

proof fn lemma_trim_front_no_space(s: Seq<char>)
    ensures
        crate::strutil::trim_front_spec(s).len() > 0 ==> !crate::strutil::is_space_char(
            crate::strutil::trim_front_spec(s)[0],
        ),
    decreases s.len(),
{
    if s.len() > 0 && crate::strutil::is_space_char(s[0]) {
        lemma_trim_front_no_space(s.drop_first());
    }
}

proof fn lemma_trim_back_no_space(s: Seq<char>)
    ensures
        crate::strutil::trim_back_spec(s).len() > 0 ==> !crate::strutil::is_space_char(
            crate::strutil::trim_back_spec(s)[crate::strutil::trim_back_spec(s).len() - 1],
        ),
        crate::strutil::trim_back_spec(s).len() > 0 && s.len() > 0 && !crate::strutil::is_space_char(
            s[0],
        ) ==> !crate::strutil::is_space_char(crate::strutil::trim_back_spec(s)[0]),
    decreases s.len(),
{
    if s.len() > 0 && crate::strutil::is_space_char(s[s.len() - 1]) {
        lemma_trim_back_no_space(s.drop_last());
    }
}

} // verus!

