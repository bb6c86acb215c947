//! The compact JSON encoding used for the persisted state record and
//! the update manifest: string escaping, decimal numbers and booleans,
//! with a specification-level parser that the executable parser is
//! proved to mirror, and a proof that the parser reads back exactly
//! what the encoder writes.

use vstd::prelude::*;
use vstd::string::*;
use crate::dec::{dec_spec, digit_run_end, is_digit, lemma_dec_spec_digits, lemma_digit_run_end_props, spec_parse_u64};
use crate::strutil::chars_to_string;

verus! {

/// The escape sequence for one character inside a JSON string.
pub open spec fn escape_char(c: char) -> Seq<char> {
    if c == '"' {
        seq!['\\', '"']
    } else if c == '\\' {
        seq!['\\', '\\']
    } else if c == '\n' {
        seq!['\\', 'n']
    } else if c == '\r' {
        seq!['\\', 'r']
    } else if c == '\t' {
        seq!['\\', 't']
    } else {
        seq![c]
    }
}

pub open spec fn escape(s: Seq<char>) -> Seq<char>
    decreases s.len(),
{
    if s.len() == 0 {
        Seq::empty()
    } else {
        escape_char(s[0]) + escape(s.drop_first())
    }
}

/// A quoted, escaped JSON string.
pub open spec fn json_str(s: Seq<char>) -> Seq<char> {
    seq!['"'] + escape(s) + seq!['"']
}

pub open spec fn unescape_char(c: char) -> Option<char> {
    if c == '"' {
        Some('"')
    } else if c == '\\' {
        Some('\\')
    } else if c == 'n' {
        Some('\n')
    } else if c == 'r' {
        Some('\r')
    } else if c == 't' {
        Some('\t')
    } else {
        None
    }
}

/// Escaping appends one escape sequence per character.
proof fn lemma_escape_snoc(s: Seq<char>, c: char)
    ensures
        escape(s.push(c)) == escape(s) + escape_char(c),
    decreases s.len(),
{
    if s.len() == 0 {
        assert(s.push(c)[0] == c);
        assert(s.push(c).drop_first() =~= Seq::<char>::empty());
        assert(escape(Seq::<char>::empty()) == Seq::<char>::empty());
        assert(escape(s.push(c)) =~= escape_char(c));
        assert(escape(s) + escape_char(c) =~= escape_char(c));
    } else {
        assert(s.push(c).drop_first() =~= s.drop_first().push(c));
        lemma_escape_snoc(s.drop_first(), c);
        assert(escape(s.push(c)) == escape_char(s[0]) + (escape(s.drop_first()) + escape_char(c)));
        assert(escape_char(s[0]) + (escape(s.drop_first()) + escape_char(c)) =~= (escape_char(s[0])
            + escape(s.drop_first())) + escape_char(c));
    }
}

/// The matched literal and position after it, or `None`.
pub open spec fn spec_expect(s: Seq<char>, pos: int, lit: Seq<char>) -> Option<int> {
    if 0 <= pos && pos + lit.len() <= s.len() && s.subrange(pos, pos + lit.len() as int) == lit {
        Some(pos + lit.len() as int)
    } else {
        None
    }
}

/// The contents of a quoted string starting at `pos`, and the position
/// after its closing quote.
pub open spec fn spec_parse_string(s: Seq<char>, pos: int) -> Option<(Seq<char>, int)> {
    if 0 <= pos < s.len() && s[pos] == '"' {
        spec_parse_str_body(s, pos + 1)
    } else {
        None
    }
}

pub open spec fn spec_parse_str_body(s: Seq<char>, i: int) -> Option<(Seq<char>, int)>
    recommends
        0 <= i,
    decreases s.len() - i,
{
    if i < 0 || i >= s.len() {
        None
    } else if s[i] == '"' {
        Some((Seq::empty(), i + 1))
    } else if s[i] == '\\' {
        if i + 1 >= s.len() {
            None
        } else {
            match unescape_char(s[i + 1]) {
                None => None,
                Some(c) => match spec_parse_str_body(s, i + 2) {
                    None => None,
                    Some(p) => Some((seq![c] + p.0, p.1)),
                },
            }
        }
    } else {
        match spec_parse_str_body(s, i + 1) {
            None => None,
            Some(p) => Some((seq![s[i]] + p.0, p.1)),
        }
    }
}

/// A JSON boolean starting at `pos`.
pub open spec fn spec_parse_bool(s: Seq<char>, pos: int) -> Option<(bool, int)> {
    if spec_expect(s, pos, "true"@) is Some {
        Some((true, spec_expect(s, pos, "true"@)->Some_0))
    } else if spec_expect(s, pos, "false"@) is Some {
        Some((false, spec_expect(s, pos, "false"@)->Some_0))
    } else {
        None
    }
}

/// Consumes `lit` at `pos`.
pub fn expect_lit(s: &Vec<char>, pos: usize, lit: &str) -> (r: Option<usize>)
    requires
        pos <= s@.len(),
    ensures
        match r {
            Some(p) => spec_expect(s@, pos as int, lit@) == Some(p as int),
            None => spec_expect(s@, pos as int, lit@) is None,
        },
{
    let n = s.len();
    let m = lit.unicode_len();
    if m > n - pos {
        return None;
    }
    let mut k: usize = 0;
    while k < m
        invariant
            k <= m,
            pos + m <= n,
            n == s@.len(),
            m == lit@.len(),
            forall|j: int| 0 <= j < k ==> s@[pos + j] == lit@[j],
        decreases m - k,
    {
        if s[pos + k] != lit.get_char(k) {
            proof {
                assert(s@.subrange(pos as int, pos + lit@.len() as int)[k as int] != lit@[k as int]);
            }
            return None;
        }
        k += 1;
    }
    proof {
        assert(s@.subrange(pos as int, pos + lit@.len() as int) =~= lit@);
    }
    Some(pos + m)
}

fn unescape_char_exec(c: char) -> (r: Option<char>)
    ensures
        r == unescape_char(c),
{
    if c == '"' {
        Some('"')
    } else if c == '\\' {
        Some('\\')
    } else if c == 'n' {
        Some('\n')
    } else if c == 'r' {
        Some('\r')
    } else if c == 't' {
        Some('\t')
    } else {
        None
    }
}

fn parse_str_body(s: &Vec<char>, i: usize) -> (r: Option<(Vec<char>, usize)>)
    ensures
        match r {
            Some(p) => spec_parse_str_body(s@, i as int) == Some((p.0@, p.1 as int)) && p.1
                <= s@.len(),
            None => spec_parse_str_body(s@, i as int) is None,
        },
    decreases s@.len() - i,
{
    let n = s.len();
    if i >= n {
        return None;
    }
    let c = s[i];
    if c == '"' {
        let v: Vec<char> = Vec::new();
        proof {
            assert(v@ =~= Seq::<char>::empty());
        }
        return Some((v, i + 1));
    }
    if c == '\\' {
        if i + 1 >= n {
            return None;
        }
        let u = unescape_char_exec(s[i + 1]);
        match u {
            None => return None,
            Some(uc) => {
                match parse_str_body(s, i + 2) {
                    None => return None,
                    Some((mut v, end)) => {
                        v.insert(0, uc);
                        proof {
                            let p = spec_parse_str_body(s@, i + 2)->Some_0;
                            assert(v@ =~= seq![uc] + p.0);
                        }
                        return Some((v, end));
                    },
                }
            },
        }
    }
    match parse_str_body(s, i + 1) {
        None => None,
        Some((mut v, end)) => {
            v.insert(0, c);
            proof {
                let p = spec_parse_str_body(s@, i + 1)->Some_0;
                assert(v@ =~= seq![c] + p.0);
            }
            Some((v, end))
        },
    }
}

/// Reads a quoted string at `pos`.
pub fn parse_string_at(s: &Vec<char>, pos: usize) -> (r: Option<(String, usize)>)
    ensures
        match r {
            Some(p) => spec_parse_string(s@, pos as int) == Some((p.0@, p.1 as int)) && p.1
                <= s@.len(),
            None => spec_parse_string(s@, pos as int) is None,
        },
{
    let n = s.len();
    if pos >= n {
        return None;
    }
    if s[pos] != '"' {
        return None;
    }
    match parse_str_body(s, pos + 1) {
        None => None,
        Some((v, end)) => Some((chars_to_string(&v), end)),
    }
}

/// Reads `true` or `false` at `pos`.
pub fn parse_bool_at(s: &Vec<char>, pos: usize) -> (r: Option<(bool, usize)>)
    requires
        pos <= s@.len(),
    ensures
        match r {
            Some(p) => spec_parse_bool(s@, pos as int) == Some((p.0, p.1 as int)) && p.1
                <= s@.len(),
            None => spec_parse_bool(s@, pos as int) is None,
        },
{
    match expect_lit(s, pos, "true") {
        Some(p) => Some((true, p)),
        None => match expect_lit(s, pos, "false") {
            Some(p) => Some((false, p)),
            None => None,
        },
    }
}

// ---------------------------------------------------------------------
// writing
// ---------------------------------------------------------------------

/// Appends the characters of `lit` to `out`.
pub fn push_str_chars(out: &mut Vec<char>, lit: &str)
    ensures
        final(out)@ == old(out)@ + lit@,
{
    let m = lit.unicode_len();
    let mut k: usize = 0;
    while k < m
        invariant
            k <= m,
            m == lit@.len(),
            out@ == old(out)@ + lit@.subrange(0, k as int),
        decreases m - k,
    {
        out.push(lit.get_char(k));
        proof {
            assert(out@ =~= old(out)@ + lit@.subrange(0, k + 1));
        }
        k += 1;
    }
    proof {
        assert(out@ =~= old(out)@ + lit@);
    }
}

/// Appends the quoted, escaped form of `s` to `out`.
pub fn push_json_str(out: &mut Vec<char>, s: &str)
    ensures
        final(out)@ == old(out)@ + json_str(s@),
{
    let n = s.unicode_len();
    out.push('"');
    let ghost base = out@;
    proof {
        assert(escape(s@.subrange(0, 0)) =~= Seq::<char>::empty());
        assert(out@ =~= base + escape(s@.subrange(0, 0)));
    }
    let mut k: usize = 0;
    while k < n
        invariant
            k <= n,
            n == s@.len(),
            out@ == base + escape(s@.subrange(0, k as int)),
        decreases n - k,
    {
        let c = s.get_char(k);
        if c == '"' {
            out.push('\\');
            out.push('"');
        } else if c == '\\' {
            out.push('\\');
            out.push('\\');
        } else if c == '\n' {
            out.push('\\');
            out.push('n');
        } else if c == '\r' {
            out.push('\\');
            out.push('r');
        } else if c == '\t' {
            out.push('\\');
            out.push('t');
        } else {
            out.push(c);
        }
        proof {
            lemma_escape_snoc(s@.subrange(0, k as int), c);
            assert(s@.subrange(0, k as int).push(c) =~= s@.subrange(0, k + 1));
            assert(out@ =~= base + escape(s@.subrange(0, k + 1)));
        }
        k += 1;
    }
    out.push('"');
    proof {
        assert(s@.subrange(0, n as int) =~= s@);
        assert(out@ =~= old(out)@ + json_str(s@));
    }
}

// ---------------------------------------------------------------------
// the canonical text parses back
// ---------------------------------------------------------------------

/// A literal at its own position in a longer text is matched.
pub proof fn lemma_expect_canonical(s: Seq<char>, pos: int, lit: Seq<char>)
    requires
        0 <= pos,
        pos + lit.len() <= s.len(),
        s.subrange(pos, pos + lit.len() as int) == lit,
    ensures
        spec_expect(s, pos, lit) == Some(pos + lit.len() as int),
{
}

proof fn lemma_parse_str_body_canonical(s: Seq<char>, i: int, v: Seq<char>)
    requires
        0 <= i,
        i + escape(v).len() + 1 <= s.len(),
        s.subrange(i, i + escape(v).len() + 1) == escape(v) + seq!['"'],
    ensures
        spec_parse_str_body(s, i) == Some((v, i + escape(v).len() + 1)),
    decreases v.len(),
{
    let t = escape(v) + seq!['"'];
    assert forall|k: int| 0 <= k < t.len() implies s[i + k] == t[k] by {
        assert(s.subrange(i, i + escape(v).len() + 1)[k] == t[k]);
    }
    if v.len() == 0 {
        assert(escape(v) =~= Seq::<char>::empty());
        assert(t[0] == '"');
        assert(s[i] == '"');
    } else {
        let c = v[0];
        let rest = v.drop_first();
        assert(escape(v) == escape_char(c) + escape(rest));
        let ec = escape_char(c);
        let er = escape(rest);
        if c == '"' || c == '\\' || c == '\n' || c == '\r' || c == '\t' {
            assert(ec.len() == 2);
            assert(t[0] == ec[0] && t[1] == ec[1]);
            assert(s[i] == '\\');
            assert(s[i + 1] == ec[1]);
            assert(unescape_char(s[i + 1]) == Some(c));
            assert forall|k: int|
                0 <= k < er.len() + 1 implies s.subrange(i + 2, i + 2 + er.len() + 1)[k] == (er
                + seq!['"'])[k] by {
                assert(s.subrange(i + 2, i + 2 + er.len() + 1)[k] == s[i + 2 + k]);
                assert(t[2 + k] == (er + seq!['"'])[k]);
                assert(s[i + (2 + k)] == t[2 + k]);
            }
            assert(s.subrange(i + 2, i + 2 + er.len() + 1) =~= er + seq!['"']);
            lemma_parse_str_body_canonical(s, i + 2, rest);
            assert(seq![c] + rest =~= v);
        } else {
            assert(ec.len() == 1);
            assert(t[0] == ec[0]);
            assert(s[i] == c);
            assert(s[i] != '"' && s[i] != '\\');
            assert forall|k: int|
                0 <= k < er.len() + 1 implies s.subrange(i + 1, i + 1 + er.len() + 1)[k] == (er
                + seq!['"'])[k] by {
                assert(s.subrange(i + 1, i + 1 + er.len() + 1)[k] == s[i + 1 + k]);
                assert(t[1 + k] == (er + seq!['"'])[k]);
                assert(s[i + (1 + k)] == t[1 + k]);
            }
            assert(s.subrange(i + 1, i + 1 + er.len() + 1) =~= er + seq!['"']);
            lemma_parse_str_body_canonical(s, i + 1, rest);
            assert(seq![c] + rest =~= v);
        }
    }
}

/// A quoted string at its own position in a longer text parses to
/// exactly its contents.
pub proof fn lemma_parse_string_canonical(s: Seq<char>, pos: int, v: Seq<char>)
    requires
        0 <= pos,
        pos + json_str(v).len() <= s.len(),
        s.subrange(pos, pos + json_str(v).len() as int) == json_str(v),
    ensures
        spec_parse_string(s, pos) == Some((v, pos + json_str(v).len() as int)),
{
    let t = json_str(v);
    assert forall|k: int| 0 <= k < t.len() implies s[pos + k] == t[k] by {
        assert(s.subrange(pos, pos + t.len() as int)[k] == t[k]);
    }
    assert(t[0] == '"');
    assert(s[pos] == '"');
    assert forall|k: int|
        0 <= k < escape(v).len() + 1 implies s.subrange(pos + 1, pos + 1 + escape(v).len() + 1)[k]
        == (escape(v) + seq!['"'])[k] by {
        assert(s.subrange(pos + 1, pos + 1 + escape(v).len() + 1)[k] == s[pos + 1 + k]);
        assert(t[1 + k] == (escape(v) + seq!['"'])[k]);
        assert(s[pos + (1 + k)] == t[1 + k]);
    }
    assert(s.subrange(pos + 1, pos + 1 + escape(v).len() + 1) =~= escape(v) + seq!['"']);
    lemma_parse_str_body_canonical(s, pos + 1, v);
}

/// A decimal rendering at its own position, followed by a non-digit,
/// parses to exactly its value.
pub proof fn lemma_parse_u64_canonical(s: Seq<char>, pos: int, n: u64)
    requires
        0 <= pos,
        pos + dec_spec(n as nat).len() <= s.len(),
        s.subrange(pos, pos + dec_spec(n as nat).len() as int) == dec_spec(n as nat),
        pos + dec_spec(n as nat).len() < s.len() ==> !is_digit(s[pos + dec_spec(n as nat).len()]),
    ensures
        spec_parse_u64(s, pos) == Some((n, pos + dec_spec(n as nat).len() as int)),
{
    let d = dec_spec(n as nat);
    let end0 = pos + d.len() as int;
    lemma_dec_spec_digits(n as nat);
    lemma_digit_run_end_props(s, pos);
    assert forall|k: int| 0 <= k < d.len() implies s[pos + k] == d[k] by {
        assert(s.subrange(pos, pos + d.len() as int)[k] == d[k]);
    }
    let end = digit_run_end(s, pos);
    assert(end == end0) by {
        if end < end0 {
            assert(is_digit(d[end - pos]));
            assert(is_digit(s[end]));
        }
        if end > end0 {
            assert(is_digit(s.subrange(pos, end)[end0 - pos]));
            assert(is_digit(s[end0]));
        }
    }
    assert(s.subrange(pos, end) =~= d);
    crate::dec::lemma_dec_value_of_spec(n as nat);
}

/// First index at or after `i` that holds no whitespace.
pub open spec fn ws_end(s: Seq<char>, i: int) -> int
    decreases s.len() - i,
{
    if 0 <= i < s.len() && crate::strutil::is_space_char(s[i]) {
        ws_end(s, i + 1)
    } else {
        i
    }
}


/// Skips whitespace.
pub fn skip_ws(s: &Vec<char>, i: usize) -> (r: usize)
    requires
        i <= s@.len(),
    ensures
        r as int == ws_end(s@, i as int),
        i <= r <= s@.len(),
{
    let n = s.len();
    let mut k = i;
    while k < n
        invariant
            i <= k <= n,
            n == s@.len(),
            ws_end(s@, i as int) == ws_end(s@, k as int),
        ensures
            i <= k <= n,
            ws_end(s@, i as int) == ws_end(s@, k as int),
            k == n || !crate::strutil::is_space_char(s@[k as int]),
        decreases n - k,
    {
        let c = s[k];
        if !(c == ' ' || c == '\t' || c == '\n' || c == '\r') {
            break ;
        }
        k += 1;
    }
    k
}

/// A character that can appear in a JSON number.
pub open spec fn is_num_char(c: char) -> bool {
    crate::dec::is_digit(c) || c == '-' || c == '+' || c == '.' || c == 'e' || c == 'E'
}

pub open spec fn num_end(s: Seq<char>, i: int) -> int
    decreases s.len() - i,
{
    if 0 <= i < s.len() && is_num_char(s[i]) {
        num_end(s, i + 1)
    } else {
        i
    }
}


fn skip_num(s: &Vec<char>, i: usize) -> (r: usize)
    requires
        i <= s@.len(),
    ensures
        r as int == num_end(s@, i as int),
        i <= r <= s@.len(),
{
    let n = s.len();
    let mut k = i;
    while k < n
        invariant
            i <= k <= n,
            n == s@.len(),
            num_end(s@, i as int) == num_end(s@, k as int),
        ensures
            i <= k <= n,
            num_end(s@, i as int) == num_end(s@, k as int),
            k == n || !is_num_char(s@[k as int]),
        decreases n - k,
    {
        let c = s[k];
        let numc = ('0' <= c && c <= '9') || c == '-' || c == '+' || c == '.' || c == 'e' || c
            == 'E';
        if !numc {
            break ;
        }
        k += 1;
    }
    k
}

/// The position after one JSON value of any kind starting at `i`;
/// `None` when nothing well-formed starts there. Only shapes are
/// checked: this is what lets unknown manifest fields be skipped.
pub open spec fn spec_skip_value(s: Seq<char>, i: int) -> Option<int>
    decreases s.len() - i, 0int,
{
    if i < 0 || i >= s.len() {
        None
    } else if s[i] == '"' {
        match spec_parse_string(s, i) {
            None => None,
            Some((_, e)) => if e > i {
                Some(e)
            } else {
                None
            },
        }
    } else if is_num_char(s[i]) {
        if num_end(s, i) > i {
            Some(num_end(s, i))
        } else {
            None
        }
    } else if s[i] == 't' {
        spec_expect(s, i, "true"@)
    } else if s[i] == 'f' {
        spec_expect(s, i, "false"@)
    } else if s[i] == 'n' {
        spec_expect(s, i, "null"@)
    } else if s[i] == '{' {
        spec_skip_members(s, i + 1, true)
    } else if s[i] == '[' {
        spec_skip_elements(s, i + 1, true)
    } else {
        None
    }
}

/// The position after the members and closing brace of an object whose
/// opening brace sits just before `i`.
pub open spec fn spec_skip_members(s: Seq<char>, i: int, first: bool) -> Option<int>
    decreases s.len() - i, 1int,
{
    if i < 0 || i > s.len() {
        None
    } else {
        let j = ws_end(s, i);
        if j < i || j >= s.len() {
            None
        } else if first && s[j] == '}' {
            Some(j + 1)
        } else {
            match spec_parse_string(s, j) {
                None => None,
                Some((_, k)) => if k <= j {
                    None
                } else {
                    let l = ws_end(s, k);
                    if l < k || l >= s.len() || s[l] != ':' {
                        None
                    } else {
                        let v = ws_end(s, l + 1);
                        if v < l + 1 || v <= i || v > s.len() {
                            None
                        } else {
                            match spec_skip_value(s, v) {
                                None => None,
                                Some(e) => if e < v {
                                    None
                                } else {
                                    let m = ws_end(s, e);
                                    if m < e || m >= s.len() {
                                        None
                                    } else if s[m] == ',' {
                                        spec_skip_members(s, m + 1, false)
                                    } else if s[m] == '}' {
                                        Some(m + 1)
                                    } else {
                                        None
                                    }
                                },
                            }
                        }
                    }
                },
            }
        }
    }
}

/// The position after the elements and closing bracket of an array
/// whose opening bracket sits just before `i`.
pub open spec fn spec_skip_elements(s: Seq<char>, i: int, first: bool) -> Option<int>
    decreases s.len() - i, 1int,
{
    if i < 0 || i > s.len() {
        None
    } else {
        let j = ws_end(s, i);
        if j < i || j >= s.len() {
            None
        } else if first && s[j] == ']' {
            Some(j + 1)
        } else {
            match spec_skip_value(s, j) {
                None => None,
                Some(e) => if e <= j {
                    None
                } else {
                    let m = ws_end(s, e);
                    if m < e || m >= s.len() {
                        None
                    } else if s[m] == ',' {
                        spec_skip_elements(s, m + 1, false)
                    } else if s[m] == ']' {
                        Some(m + 1)
                    } else {
                        None
                    }
                },
            }
        }
    }
}
/// Skips one JSON value; exactly what [`spec_skip_value`] yields.
pub fn skip_value_at(s: &Vec<char>, i: usize) -> (r: Option<usize>)
    ensures
        match r {
            Some(e) => spec_skip_value(s@, i as int) == Some(e as int) && i < e <= s@.len(),
            None => spec_skip_value(s@, i as int) is None,
        },
    decreases s@.len() - i, 0int,
{
    proof {
        reveal_strlit("true");
        reveal_strlit("false");
        reveal_strlit("null");
    }
    let n = s.len();
    if i >= n {
        return None;
    }
    let c = s[i];
    if c == '"' {
        return match parse_string_at(s, i) {
            None => None,
            Some((_, e)) => if e > i {
                Some(e)
            } else {
                None
            },
        };
    }
    let numc = ('0' <= c && c <= '9') || c == '-' || c == '+' || c == '.' || c == 'e' || c == 'E';
    if numc {
        let e = skip_num(s, i);
        if e > i {
            return Some(e);
        }
        return None;
    }
    if c == 't' {
        return expect_lit(s, i, "true");
    }
    if c == 'f' {
        return expect_lit(s, i, "false");
    }
    if c == 'n' {
        return expect_lit(s, i, "null");
    }
    if c == '{' {
        return skip_members_at(s, i + 1, true);
    }
    if c == '[' {
        return skip_elements_at(s, i + 1, true);
    }
    None
}

/// Skips an object's members; exactly what [`spec_skip_members`]
/// yields.
pub fn skip_members_at(s: &Vec<char>, i: usize, first: bool) -> (r: Option<usize>)
    requires
        i <= s@.len(),
    ensures
        match r {
            Some(e) => spec_skip_members(s@, i as int, first) == Some(e as int) && i < e
                <= s@.len(),
            None => spec_skip_members(s@, i as int, first) is None,
        },
    decreases s@.len() - i, 1int,
{
    let n = s.len();
    let j = skip_ws(s, i);
    if j >= n {
        return None;
    }
    if first && s[j] == '}' {
        return Some(j + 1);
    }
    let (_, k) = match parse_string_at(s, j) {
        None => {
            return None;
        },
        Some(p) => p,
    };
    if k <= j {
        return None;
    }
    let l = skip_ws(s, k);
    if l >= n || s[l] != ':' {
        return None;
    }
    let v = skip_ws(s, l + 1);
    let e = match skip_value_at(s, v) {
        None => {
            return None;
        },
        Some(e) => e,
    };
    let m = skip_ws(s, e);
    if m >= n {
        return None;
    }
    if s[m] == ',' {
        return skip_members_at(s, m + 1, false);
    }
    if s[m] == '}' {
        return Some(m + 1);
    }
    None
}

/// Skips an array's elements; exactly what [`spec_skip_elements`]
/// yields.
pub fn skip_elements_at(s: &Vec<char>, i: usize, first: bool) -> (r: Option<usize>)
    requires
        i <= s@.len(),
    ensures
        match r {
            Some(e) => spec_skip_elements(s@, i as int, first) == Some(e as int) && i < e
                <= s@.len(),
            None => spec_skip_elements(s@, i as int, first) is None,
        },
    decreases s@.len() - i, 1int,
{
    let n = s.len();
    let j = skip_ws(s, i);
    if j >= n {
        return None;
    }
    if first && s[j] == ']' {
        return Some(j + 1);
    }
    let e = match skip_value_at(s, j) {
        None => {
            return None;
        },
        Some(e) => e,
    };
    let m = skip_ws(s, e);
    if m >= n {
        return None;
    }
    if s[m] == ',' {
        return skip_elements_at(s, m + 1, false);
    }
    if s[m] == ']' {
        return Some(m + 1);
    }
    None
}
} // verus!


