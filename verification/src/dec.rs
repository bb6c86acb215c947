//! Decimal text for `u64` values: exact rendering, and parsing that is
//! proved to invert it.

use vstd::prelude::*;
use vstd::string::*;
use crate::strutil::chars_to_string;

verus! {

pub open spec fn is_digit(c: char) -> bool {
    '0' <= c <= '9'
}

pub open spec fn digit_char(d: int) -> char
    recommends
        0 <= d < 10,
{
    if d == 0 {
        '0'
    } else if d == 1 {
        '1'
    } else if d == 2 {
        '2'
    } else if d == 3 {
        '3'
    } else if d == 4 {
        '4'
    } else if d == 5 {
        '5'
    } else if d == 6 {
        '6'
    } else if d == 7 {
        '7'
    } else if d == 8 {
        '8'
    } else {
        '9'
    }
}

pub open spec fn digit_val(c: char) -> int
    recommends
        is_digit(c),
{
    if c == '0' {
        0
    } else if c == '1' {
        1
    } else if c == '2' {
        2
    } else if c == '3' {
        3
    } else if c == '4' {
        4
    } else if c == '5' {
        5
    } else if c == '6' {
        6
    } else if c == '7' {
        7
    } else if c == '8' {
        8
    } else {
        9
    }
}

/// The decimal rendering of `n`, without leading zeros (`0` for zero).
pub open spec fn dec_spec(n: nat) -> Seq<char>
    decreases n,
{
    if n < 10 {
        seq![digit_char(n as int)]
    } else {
        dec_spec(n / 10) + seq![digit_char((n % 10) as int)]
    }
}

/// The value of a digit string, most significant digit first.
pub open spec fn dec_value(s: Seq<char>) -> int
    decreases s.len(),
{
    if s.len() == 0 {
        0
    } else {
        dec_value(s.drop_last()) * 10 + digit_val(s.last())
    }
}

pub open spec fn all_digits(s: Seq<char>) -> bool {
    forall|k: int| 0 <= k < s.len() ==> is_digit(#[trigger] s[k])
}

pub proof fn lemma_dec_spec_digits(n: nat)
    ensures
        dec_spec(n).len() >= 1,
        all_digits(dec_spec(n)),
    decreases n,
{
    if n < 10 {
        assert(is_digit(digit_char(n as int)));
    } else {
        lemma_dec_spec_digits(n / 10);
        assert(is_digit(digit_char((n % 10) as int)));
        assert forall|k: int| 0 <= k < dec_spec(n).len() implies is_digit(#[trigger] dec_spec(n)[k]) by {
            if k < dec_spec(n / 10).len() {
                assert(dec_spec(n)[k] == dec_spec(n / 10)[k]);
            } else {
                assert(dec_spec(n)[k] == digit_char((n % 10) as int));
            }
        }
    }
}

pub proof fn lemma_dec_value_of_spec(n: nat)
    ensures
        dec_value(dec_spec(n)) == n,
    decreases n,
{
    if n < 10 {
        let s = dec_spec(n);
        assert(s.last() == digit_char(n as int));
        assert(s.drop_last() =~= Seq::<char>::empty());
        assert(dec_value(Seq::<char>::empty()) == 0);
        assert(digit_val(digit_char(n as int)) == n);
    } else {
        lemma_dec_value_of_spec(n / 10);
        let s = dec_spec(n);
        assert(s.drop_last() =~= dec_spec(n / 10));
        assert(s.last() == digit_char((n % 10) as int));
        assert(digit_val(digit_char((n % 10) as int)) == n % 10);
        assert(n / 10 * 10 + n % 10 == n) by (nonlinear_arith);
    }
}

proof fn lemma_dec_value_nonneg(s: Seq<char>)
    requires
        all_digits(s),
    ensures
        dec_value(s) >= 0,
    decreases s.len(),
{
    if s.len() > 0 {
        assert(all_digits(s.drop_last()));
        lemma_dec_value_nonneg(s.drop_last());
        assert(is_digit(s.last()));
        assert(dec_value(s.drop_last()) * 10 >= 0) by (nonlinear_arith)
            requires
                dec_value(s.drop_last()) >= 0,
        ;
    }
}

/// A digit string's value only grows as digits are appended.
proof fn lemma_dec_value_prefix_le(s: Seq<char>, i: int)
    requires
        all_digits(s),
        0 <= i <= s.len(),
    ensures
        dec_value(s.subrange(0, i)) <= dec_value(s),
    decreases s.len() - i,
{
    if i == s.len() {
        assert(s.subrange(0, i) =~= s);
    } else {
        lemma_dec_value_prefix_le(s, i + 1);
        let a = s.subrange(0, i);
        let b = s.subrange(0, i + 1);
        assert(b.drop_last() =~= a);
        assert(all_digits(a));
        lemma_dec_value_nonneg(a);
        assert(is_digit(b.last()));
        assert(dec_value(a) * 10 >= dec_value(a)) by (nonlinear_arith)
            requires
                dec_value(a) >= 0,
        ;
    }
}

/// Renders `x` in decimal.
pub fn u64_to_dec(x: u64) -> (r: String)
    ensures
        r@ == dec_spec(x as nat),
{
    let mut acc: Vec<char> = Vec::new();
    let mut v: u64 = x;
    proof {
        assert(dec_spec(x as nat) =~= dec_spec(v as nat) + acc@.reverse());
    }
    loop
        invariant_except_break
            dec_spec(x as nat) == dec_spec(v as nat) + acc@.reverse(),
        ensures
            dec_spec(x as nat) == acc@.reverse(),
        decreases v,
    {
        let d: u64 = v % 10;
        let c = digit_of(d);
        if v < 10 {
            acc.push(c);
            proof {
                assert(dec_spec(v as nat) =~= seq![c]);
                assert(acc@.reverse() =~= dec_spec(x as nat));
            }
            break ;
        }
        acc.push(c);
        let w = v / 10;
        proof {
            assert(w < v) by (nonlinear_arith)
                requires
                    v >= 10,
                    w == v / 10,
            ;
            assert(dec_spec(x as nat) =~= dec_spec(w as nat) + acc@.reverse());
        }
        v = w;
    }
    let n = acc.len();
    let mut out: Vec<char> = Vec::new();
    let mut i: usize = 0;
    while i < n
        invariant
            i <= n,
            n == acc@.len(),
            out@ =~= acc@.reverse().subrange(0, i as int),
        decreases n - i,
    {
        out.push(acc[n - 1 - i]);
        proof {
            assert(out@ =~= acc@.reverse().subrange(0, i + 1));
        }
        i += 1;
    }
    proof {
        assert(out@ =~= acc@.reverse());
    }
    chars_to_string(&out)
}

fn digit_of(d: u64) -> (c: char)
    requires
        d < 10,
    ensures
        c == digit_char(d as int),
{
    if d == 0 {
        '0'
    } else if d == 1 {
        '1'
    } else if d == 2 {
        '2'
    } else if d == 3 {
        '3'
    } else if d == 4 {
        '4'
    } else if d == 5 {
        '5'
    } else if d == 6 {
        '6'
    } else if d == 7 {
        '7'
    } else if d == 8 {
        '8'
    } else {
        '9'
    }
}

fn digit_value(c: char) -> (r: Option<u64>)
    ensures
        is_digit(c) <==> r is Some,
        r matches Some(v) ==> v == digit_val(c) && v < 10,
{
    match c {
        '0' => Some(0),
        '1' => Some(1),
        '2' => Some(2),
        '3' => Some(3),
        '4' => Some(4),
        '5' => Some(5),
        '6' => Some(6),
        '7' => Some(7),
        '8' => Some(8),
        '9' => Some(9),
        _ => None,
    }
}

/// The end of the run of digits starting at `pos`.
pub open spec fn digit_run_end(s: Seq<char>, pos: int) -> int
    decreases s.len() - pos,
{
    if 0 <= pos < s.len() && is_digit(s[pos]) {
        digit_run_end(s, pos + 1)
    } else {
        pos
    }
}

/// The value and end of the digit run at `pos`: `None` when no digit
/// stands there or the value exceeds the machine range.
pub open spec fn spec_parse_u64(s: Seq<char>, pos: int) -> Option<(u64, int)> {
    let end = digit_run_end(s, pos);
    if end == pos {
        None
    } else if dec_value(s.subrange(pos, end)) <= u64::MAX {
        Some((dec_value(s.subrange(pos, end)) as u64, end))
    } else {
        None
    }
}

pub proof fn lemma_digit_run_end_props(s: Seq<char>, pos: int)
    requires
        0 <= pos <= s.len(),
    ensures
        pos <= digit_run_end(s, pos) <= s.len(),
        all_digits(s.subrange(pos, digit_run_end(s, pos))),
        digit_run_end(s, pos) < s.len() ==> !is_digit(s[digit_run_end(s, pos)]),
    decreases s.len() - pos,
{
    if 0 <= pos < s.len() && is_digit(s[pos]) {
        lemma_digit_run_end_props(s, pos + 1);
        let end = digit_run_end(s, pos);
        assert forall|k: int| 0 <= k < end - pos implies is_digit(
            #[trigger] s.subrange(pos, end)[k],
        ) by {
            if k > 0 {
                assert(is_digit(s.subrange(pos + 1, end)[k - 1]));
            }
        }
    } else {
        assert(s.subrange(pos, pos) =~= Seq::<char>::empty());
    }
}

proof fn lemma_digit_run_ge(s: Seq<char>, pos: int, j: int)
    requires
        0 <= pos <= j <= s.len(),
        forall|k: int| pos <= k < j ==> is_digit(s[k]),
    ensures
        digit_run_end(s, pos) >= j,
    decreases j - pos,
{
    lemma_digit_run_end_props(s, pos);
    if j > pos {
        assert(is_digit(s[pos]));
        lemma_digit_run_ge(s, pos + 1, j);
    }
}

/// Reads a decimal `u64` starting at `pos`: exactly what
/// [`spec_parse_u64`] yields.
pub fn parse_u64_at(s: &Vec<char>, pos: usize) -> (r: Option<(u64, usize)>)
    requires
        pos <= s@.len(),
    ensures
        match r {
            Some(p) => spec_parse_u64(s@, pos as int) == Some((p.0, p.1 as int)) && p.1 <= s@.len(),
            None => spec_parse_u64(s@, pos as int) is None,
        },
{
    let len = s.len();
    let mut i: usize = pos;
    let mut v: u64 = 0;
    while i < len
        invariant
            pos <= i <= len,
            len == s@.len(),
            all_digits(s@.subrange(pos as int, i as int)),
            v as int == dec_value(s@.subrange(pos as int, i as int)),
        ensures
            pos <= i <= len,
            len == s@.len(),
            all_digits(s@.subrange(pos as int, i as int)),
            v as int == dec_value(s@.subrange(pos as int, i as int)),
            i == len || !is_digit(s@[i as int]),
        decreases len - i,
    {
        let dv = digit_value(s[i]);
        if let Some(d) = dv {
            if v > (u64::MAX - d) / 10 {
                // the run's value exceeds the machine range
                proof {
                    assert(is_digit(s@[i as int]));
                    let t = s@.subrange(pos as int, i + 1);
                    assert(t.drop_last() =~= s@.subrange(pos as int, i as int));
                    assert(t.last() == s@[i as int]);
                    assert(all_digits(t)) by {
                        assert forall|k: int| 0 <= k < t.len() implies is_digit(#[trigger] t[k]) by {
                            if k < i - pos {
                                assert(t[k] == s@.subrange(pos as int, i as int)[k]);
                            } else {
                                assert(t[k] == s@[i as int]);
                            }
                        }
                    }
                    lemma_overflow_bound(v, d);
                    assert(dec_value(t) == v * 10 + d);
                    assert(dec_value(t) > u64::MAX);
                    assert forall|k: int| pos <= k < i + 1 implies is_digit(s@[k]) by {
                        if k < i {
                            assert(is_digit(s@.subrange(pos as int, i as int)[k - pos]));
                        }
                    }
                    lemma_digit_run_ge(s@, pos as int, i + 1);
                    lemma_digit_run_end_props(s@, pos as int);
                    let end = digit_run_end(s@, pos as int);
                    let run = s@.subrange(pos as int, end);
                    assert(t =~= run.subrange(0, i + 1 - pos));
                    lemma_dec_value_prefix_le(run, i + 1 - pos);
                }
                return None;
            }
            let w = v * 10 + d;
            proof {
                let t = s@.subrange(pos as int, i + 1);
                assert(t.drop_last() =~= s@.subrange(pos as int, i as int));
                assert(t.last() == s@[i as int]);
            }
            v = w;
            i += 1;
        } else {
            break ;
        }
    }
    if i == pos {
        proof {
            assert(digit_run_end(s@, pos as int) == pos);
        }
        return None;
    }
    proof {
        assert forall|k: int| pos <= k < i implies is_digit(s@[k]) by {
            assert(is_digit(s@.subrange(pos as int, i as int)[k - pos]));
        }
        lemma_digit_run_ge(s@, pos as int, i as int);
        lemma_digit_run_end_props(s@, pos as int);
        let end = digit_run_end(s@, pos as int);
        assert(end == i) by {
            if end > i {
                assert(is_digit(s@.subrange(pos as int, end)[i - pos]));
                assert(is_digit(s@[i as int]));
            }
        }
        assert(s@.subrange(pos as int, end) =~= s@.subrange(pos as int, i as int));
    }
    Some((v, i))
}

proof fn lemma_overflow_bound(v: u64, d: u64)
    requires
        d < 10,
        v > (u64::MAX - d) / 10,
    ensures
        v * 10 + d > u64::MAX,
{
    assert(v * 10 + d > u64::MAX) by (nonlinear_arith)
        requires
            d < 10,
            v > (u64::MAX - d) / 10,
    ;
}

} // verus!
