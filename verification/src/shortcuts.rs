//! Program-menu shortcuts, created through the shell automation
//! command run by an [`Executor`].

use vstd::prelude::*;
use vstd::string::*;
use crate::errors::LibError;
use crate::paths::joined;
use crate::ports::{CmdSpec, Executor};
use crate::strutil::{chars_to_string, concat2};

verus! {

/// One character inside a single-quoted shell string.
pub open spec fn ps_quote_char(c: char) -> Seq<char> {
    if c == '\'' {
        seq!['\'', '\'']
    } else {
        seq![c]
    }
}

pub open spec fn ps_quoted_body(s: Seq<char>) -> Seq<char>
    decreases s.len(),
{
    if s.len() == 0 {
        Seq::empty()
    } else {
        ps_quote_char(s[0]) + ps_quoted_body(s.drop_first())
    }
}

/// A value as a single-quoted shell literal, quotes doubled.
pub open spec fn ps_quote_spec(s: Seq<char>) -> Seq<char> {
    seq!['\''] + ps_quoted_body(s) + seq!['\'']
}

proof fn lemma_ps_body_snoc(s: Seq<char>, c: char)
    ensures
        ps_quoted_body(s.push(c)) == ps_quoted_body(s) + ps_quote_char(c),
    decreases s.len(),
{
    if s.len() == 0 {
        assert(s.push(c)[0] == c);
        assert(s.push(c).drop_first() =~= Seq::<char>::empty());
        assert(ps_quoted_body(Seq::<char>::empty()) == Seq::<char>::empty());
        assert(ps_quoted_body(s.push(c)) == ps_quote_char(c) + ps_quoted_body(
            s.push(c).drop_first(),
        ));
        assert(ps_quoted_body(s.push(c)) =~= ps_quote_char(c));
        assert(ps_quoted_body(s) + ps_quote_char(c) =~= ps_quote_char(c));
    } else {
        assert(s.push(c).drop_first() =~= s.drop_first().push(c));
        lemma_ps_body_snoc(s.drop_first(), c);
        assert(ps_quoted_body(s.push(c)) == ps_quote_char(s[0]) + (ps_quoted_body(s.drop_first())
            + ps_quote_char(c)));
        assert(ps_quote_char(s[0]) + (ps_quoted_body(s.drop_first()) + ps_quote_char(c)) =~= (
        ps_quote_char(s[0]) + ps_quoted_body(s.drop_first())) + ps_quote_char(c));
    }
}

/// Quotes a value for the shell automation script.
pub fn ps_quote(value: &str) -> (r: String)
    ensures
        r@ == ps_quote_spec(value@),
{
    let n = value.unicode_len();
    let mut out: Vec<char> = Vec::new();
    out.push('\'');
    let ghost base = out@;
    proof {
        assert(ps_quoted_body(value@.subrange(0, 0)) =~= Seq::<char>::empty());
        assert(out@ =~= base + ps_quoted_body(value@.subrange(0, 0)));
    }
    let mut k: usize = 0;
    while k < n
        invariant
            k <= n,
            n == value@.len(),
            out@ == base + ps_quoted_body(value@.subrange(0, k as int)),
        decreases n - k,
    {
        let c = value.get_char(k);
        if c == '\'' {
            out.push('\'');
            out.push('\'');
        } else {
            out.push(c);
        }
        proof {
            lemma_ps_body_snoc(value@.subrange(0, k as int), c);
            assert(value@.subrange(0, k as int).push(c) =~= value@.subrange(0, k + 1));
            assert(out@ =~= base + ps_quoted_body(value@.subrange(0, k + 1)));
        }
        k += 1;
    }
    out.push('\'');
    proof {
        assert(value@.subrange(0, n as int) =~= value@);
        assert(out@ =~= ps_quote_spec(value@));
    }
    chars_to_string(&out)
}

/// Creates (or refreshes) a program-menu shortcut for `target` under
/// `name`, via the shell automation command; an empty name is
/// rejected before anything runs.
pub fn create_start_menu_shortcut<E: Executor>(
    ex: &mut E,
    start_menu_dir: &str,
    name: &str,
    target: &str,
    icon: Option<&String>,
) -> (r: Result<String, LibError>)
    ensures
        final(ex).spawned() == old(ex).spawned(),
        old(ex).plan().len() > 0 ==> (r matches Err(e) ==> e is EmptyShortcutName
            || e is ToolFailed || e is SpawnFailed),
        name@.len() == 0 ==> r == Result::<String, LibError>::Err(LibError::EmptyShortcutName)
            && *final(ex) == *old(ex),
        name@.len() > 0 && old(ex).plan().len() > 0 ==> {
            &&& final(ex).plan() == old(ex).plan().drop_first()
            &&& final(ex).spawn_plan() == old(ex).spawn_plan()
            &&& (match old(ex).plan()[0] {
                Some(c) => if c == 0 {
                    r matches Ok(p) && p@ == joined(start_menu_dir@, name@ + ".lnk"@)
                } else {
                    r == Result::<String, LibError>::Err(LibError::ToolFailed(c))
                },
                None => r == Result::<String, LibError>::Err(LibError::SpawnFailed),
            })
        },
{
    let lnk = match crate::paths::shortcut_path(start_menu_dir, name) {
        Ok(p) => p,
        Err(e) => {
            return Err(e);
        },
    };
    let qlnk = ps_quote(lnk.as_str());
    let qtgt = ps_quote(target);
    let mut script = concat2(
        "$WshShell = New-Object -ComObject WScript.Shell; $Shortcut = $WshShell.CreateShortcut(",
        qlnk.as_str(),
    );
    let part2 = concat2("); $Shortcut.TargetPath = ", qtgt.as_str());
    script = concat2(script.as_str(), part2.as_str());
    script = concat2(script.as_str(), "; ");
    match icon {
        Some(ip) => {
            let qicon = ps_quote(ip.as_str());
            let part3 = concat2("$Shortcut.IconLocation = ", qicon.as_str());
            script = concat2(script.as_str(), part3.as_str());
            script = concat2(script.as_str(), "; ");
        },
        None => {},
    }
    script = concat2(script.as_str(), "$Shortcut.Save();");
    let mut cmd = CmdSpec::new("powershell");
    cmd.arg("-NoProfile");
    cmd.arg("-Command");
    cmd.arg(script.as_str());
    match ex.exec(&cmd) {
        Ok(c) => {
            if c == 0 {
                Ok(lnk)
            } else {
                Err(LibError::ToolFailed(c))
            }
        },
        Err(e) => Err(e),
    }
}

} // verus!
