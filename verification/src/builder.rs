//! Build-side helpers: command-line argument lookup, configuration
//! validation and executable-name sanitization.

use vstd::prelude::*;
use vstd::string::*;
use crate::errors::LibError;
use crate::fs::Fs;
use crate::strutil::{str_eq, trim_spec};

verus! {

/// The packaging configuration read at build time.
pub struct Config {
    pub app_id: String,
    pub name: String,
    pub product_name: String,
    pub company: String,
    pub description: String,
    pub version: String,
    pub entry_point: String,
    pub icon: String,
    pub uvessel_instance_link: String,
    pub install_dir: String,
}

/// First position of `name` among the arguments.
pub open spec fn first_key_at(args: Seq<String>, name: Seq<char>) -> int
    decreases args.len(),
{
    if args.len() == 0 {
        0
    } else if args[0]@ == name {
        0
    } else {
        1 + first_key_at(args.drop_first(), name)
    }
}

/// The value following the first occurrence of the flag `name`.
pub fn parse_arg(args: &Vec<String>, name: &str) -> (r: Option<String>)
    ensures
        ({
            let k = first_key_at(args@, name@);
            if k + 1 < args@.len() {
                r matches Some(v) && v@ == args@[k + 1]@
            } else {
                r is None
            }
        }),
{
    let n = args.len();
    let mut i: usize = 0;
    while i < n
        invariant
            i <= n,
            n == args@.len(),
            forall|j: int| 0 <= j < i ==> args@[j]@ != name@,
        decreases n - i,
    {
        if str_eq(args[i].as_str(), name) {
            proof {
                lemma_first_key(args@, name@, i as int);
            }
            if i + 1 < n {
                return Some(args[i + 1].clone());
            }
            return None;
        }
        i += 1;
    }
    proof {
        lemma_first_key_missing(args@, name@);
    }
    None
}

proof fn lemma_first_key(args: Seq<String>, name: Seq<char>, i: int)
    requires
        0 <= i < args.len(),
        args[i]@ == name,
        forall|j: int| 0 <= j < i ==> args[j]@ != name,
    ensures
        first_key_at(args, name) == i,
    decreases i,
{
    if i > 0 {
        assert(forall|j: int| 0 <= j < args.drop_first().len() ==> args.drop_first()[j] == args[j
            + 1]);
        lemma_first_key(args.drop_first(), name, i - 1);
    }
}

proof fn lemma_first_key_missing(args: Seq<String>, name: Seq<char>)
    requires
        forall|j: int| 0 <= j < args.len() ==> args[j]@ != name,
    ensures
        first_key_at(args, name) >= args.len(),
    decreases args.len(),
{
    if args.len() > 0 {
        assert(forall|j: int| 0 <= j < args.drop_first().len() ==> args.drop_first()[j] == args[j
            + 1]);
        lemma_first_key_missing(args.drop_first(), name);
    }
}

/// A mandatory configuration field must not be blank.
pub fn require_field(name: &str, value: &str) -> (r: Result<(), LibError>)
    ensures
        trim_spec(value@).len() == 0 <==> r is Err,
        r matches Err(e) ==> e matches LibError::RequiredField(f) && f@ == name@,
{
    let t = crate::strutil::trim(value);
    if t.unicode_len() == 0 {
        return Err(LibError::RequiredField(name.to_owned()));
    }
    Ok(())
}

/// Checks every mandatory field; the first blank one is reported.
pub fn validate_config(config: &Config) -> (r: Result<(), LibError>)
    ensures
        r is Ok <==> trim_spec(config.app_id@).len() > 0 && trim_spec(config.name@).len() > 0
            && trim_spec(config.product_name@).len() > 0 && trim_spec(config.company@).len() > 0
            && trim_spec(config.description@).len() > 0 && trim_spec(config.version@).len() > 0
            && trim_spec(config.entry_point@).len() > 0,
{
    match require_field("app_id", config.app_id.as_str()) {
        Ok(()) => {},
        Err(e) => {
            return Err(e);
        },
    }
    match require_field("name", config.name.as_str()) {
        Ok(()) => {},
        Err(e) => {
            return Err(e);
        },
    }
    match require_field("product_name", config.product_name.as_str()) {
        Ok(()) => {},
        Err(e) => {
            return Err(e);
        },
    }
    match require_field("company", config.company.as_str()) {
        Ok(()) => {},
        Err(e) => {
            return Err(e);
        },
    }
    match require_field("description", config.description.as_str()) {
        Ok(()) => {},
        Err(e) => {
            return Err(e);
        },
    }
    match require_field("version", config.version.as_str()) {
        Ok(()) => {},
        Err(e) => {
            return Err(e);
        },
    }
    match require_field("entry_point", config.entry_point.as_str()) {
        Ok(()) => {},
        Err(e) => {
            return Err(e);
        },
    }
    Ok(())
}

/// One character of a sanitized executable name.
pub open spec fn sanitize_char(c: char) -> char {
    if ('a' <= c <= 'z') || ('A' <= c <= 'Z') || ('0' <= c <= '9') || c == ' ' || c == '-' || c
        == '_' || c == '.' {
        c
    } else {
        '_'
    }
}

pub open spec fn drop_trailing(s: Seq<char>, c: char) -> Seq<char>
    decreases s.len(),
{
    if s.len() > 0 && s[s.len() - 1] == c {
        drop_trailing(s.drop_last(), c)
    } else {
        s
    }
}

/// The sanitized executable name: disallowed characters replaced,
/// edges trimmed, trailing dots then trailing spaces dropped, with a
/// fixed fallback when nothing is left.
pub open spec fn sanitize_spec(name: Seq<char>) -> Seq<char> {
    let mapped = trim_spec(name).map_values(|c: char| sanitize_char(c));
    let cleaned = drop_trailing(drop_trailing(trim_spec(mapped), '.'), ' ');
    if cleaned.len() == 0 {
        "UvesselApp"@
    } else {
        cleaned
    }
}

proof fn lemma_drop_trailing_at(s: Seq<char>, c: char, j: int)
    requires
        0 <= j <= s.len(),
        forall|k: int| j <= k < s.len() ==> s[k] == c,
        j > 0 ==> s[j - 1] != c,
    ensures
        drop_trailing(s, c) == s.subrange(0, j),
    decreases s.len() - j,
{
    if j == s.len() {
        if s.len() > 0 && s[s.len() - 1] == c {
            assert(false);
        }
        assert(s.subrange(0, j) =~= s);
    } else {
        lemma_drop_trailing_at(s.drop_last(), c, j);
        assert(s.drop_last().subrange(0, j) =~= s.subrange(0, j));
    }
}

fn drop_trailing_exec(s: &str, c: char) -> (r: String)
    ensures
        r@ == drop_trailing(s@, c),
{
    let n = s.unicode_len();
    let mut j: usize = n;
    while j > 0
        invariant
            j <= n,
            n == s@.len(),
            forall|k: int| j <= k < n ==> s@[k] == c,
        ensures
            j <= n,
            forall|k: int| j <= k < n ==> s@[k] == c,
            j > 0 ==> s@[j - 1] != c,
        decreases j,
    {
        if s.get_char(j - 1) != c {
            break ;
        }
        j -= 1;
    }
    proof {
        lemma_drop_trailing_at(s@, c, j as int);
    }
    s.substring_char(0, j).to_owned()
}

/// Maps an executable name to a safe file name.
pub fn sanitize_exe_name(name: &str) -> (r: String)
    ensures
        r@ == sanitize_spec(name@),
{
    let t = crate::strutil::trim(name);
    let n = t.as_str().unicode_len();
    let mut out: Vec<char> = Vec::new();
    let mut i: usize = 0;
    while i < n
        invariant
            i <= n,
            n == t@.len(),
            out@ == t@.subrange(0, i as int).map_values(|c: char| sanitize_char(c)),
        decreases n - i,
    {
        let c = t.as_str().get_char(i);
        let mc: char = if ('a' <= c && c <= 'z') || ('A' <= c && c <= 'Z') || ('0' <= c && c
            <= '9') || c == ' ' || c == '-' || c == '_' || c == '.' {
            c
        } else {
            '_'
        };
        out.push(mc);
        proof {
            assert(out@ =~= t@.subrange(0, i + 1).map_values(|c: char| sanitize_char(c)));
        }
        i += 1;
    }
    proof {
        assert(t@.subrange(0, n as int) =~= t@);
    }
    let mapped = crate::strutil::chars_to_string(&out);
    let trimmed = crate::strutil::trim(mapped.as_str());
    let nodots = drop_trailing_exec(trimmed.as_str(), '.');
    let cleaned = drop_trailing_exec(nodots.as_str(), ' ');
    if cleaned.unicode_len() == 0 {
        return "UvesselApp".to_owned();
    }
    cleaned
}

/// Walks from `start` upwards for the directory that holds the
/// packaging configuration and the installer sources.
pub fn find_upwards(fs: &Fs, start: &str) -> (r: Option<String>)
    requires
        fs.inv(),
    ensures
        r matches Some(d) ==> fs.has_file(crate::paths::joined(d@, "config.toml"@)) && fs.has_dir(
            crate::paths::joined(d@, "installer-rust"@),
        ),
{
    let mut cur = start.to_owned();
    loop
        invariant
            fs.inv(),
        decreases cur@.len(),
    {
        let cfgf = crate::paths::join(cur.as_str(), "config.toml");
        let inst = crate::paths::join(cur.as_str(), "installer-rust");
        if fs.file_exists(cfgf.as_str()) && fs.dir_exists(inst.as_str()) {
            return Some(cur);
        }
        match crate::paths::parent_dir(cur.as_str()) {
            Some(p) => {
                proof {
                    assert(p@.len() < cur@.len());
                }
                cur = p;
            },
            None => {
                return None;
            },
        }
    }
}

} // verus!
