//! Line-level recognisers shared by the subtitle grammars.

use vstd::prelude::*;
use crate::time::Time;

verus! {

/// A space or a tab.
pub open spec fn is_ws(c: char) -> bool {
    c == ' ' || c == '\t'
}

/// An ASCII decimal digit.
pub open spec fn is_digit(c: char) -> bool {
    '0' <= c && c <= '9'
}

/// A line holding nothing but spaces and tabs.
pub open spec fn blank(l: Seq<char>) -> bool {
    forall|i: int| 0 <= i < l.len() ==> is_ws(#[trigger] l[i])
}

/// A non-empty run of decimal digits.
pub open spec fn all_digits(l: Seq<char>) -> bool {
    l.len() > 0 && forall|i: int| 0 <= i < l.len() ==> is_digit(#[trigger] l[i])
}

/// `p` is a prefix of `l`.
pub open spec fn has_prefix(l: Seq<char>, p: Seq<char>) -> bool {
    p.len() <= l.len() && l.take(p.len() as int) == p
}

/// `l` holds the arrow `-->` somewhere.
pub open spec fn has_arrow(l: Seq<char>) -> bool {
    exists|i: int| 0 <= i && i + 3 <= l.len() && #[trigger] l[i] == '-' && l[i + 1] == '-' && l[i + 2] == '>'
}

/// The value of a run of decimal digits.
pub open spec fn digits_value(s: Seq<char>) -> nat
    decreases s.len(),
{
    if s.len() == 0 {
        0
    } else {
        digits_value(s.drop_last()) * 10 + (s.last() as nat - 48) as nat
    }
}

/// A run of digits whose value is at most `max`.
pub open spec fn bounded_number(s: Seq<char>, max: nat) -> Option<nat> {
    if all_digits(s) && digits_value(s) <= max {
        Some(digits_value(s))
    } else {
        None
    }
}

/// First position at or after `i` that is not a space or tab.
pub open spec fn skip_ws(l: Seq<char>, i: int) -> int
    decreases l.len() - i,
{
    if 0 <= i < l.len() && is_ws(l[i]) {
        skip_ws(l, i + 1)
    } else {
        i
    }
}

/// End of the token starting at `i`: the first space, tab or end of line.
pub open spec fn token_end(l: Seq<char>, i: int) -> int
    decreases l.len() - i,
{
    if 0 <= i < l.len() && !is_ws(l[i]) {
        token_end(l, i + 1)
    } else {
        i
    }
}

/// First position at or after `i` holding `c`, or the length of the line.
pub open spec fn find_char(l: Seq<char>, i: int, c: char) -> int
    decreases l.len() - i,
{
    if i >= l.len() {
        l.len() as int
    } else if 0 <= i && l[i] == c {
        i
    } else {
        find_char(l, i + 1, c)
    }
}

/// A clock reading `[h:]mm:ss<frac_sep>f..f` with `frac_len` fraction
/// digits, each fraction unit worth `unit` milliseconds. Hours take one or
/// more digits and may be left out when `hours_required` is false.
pub open spec fn clock(
    tok: Seq<char>,
    frac_sep: char,
    frac_len: nat,
    unit: nat,
    hours_required: bool,
) -> Option<Time> {
    let n = tok.len() as int;
    let k = n - 6 - frac_len;
    if k < 0 || (k == 0 && hours_required) || (k > 0 && tok[k - 1] != ':') || tok[k + 2] != ':'
        || tok[k + 5] != frac_sep {
        None
    } else {
        let hour = if k == 0 {
            Some(0nat)
        } else {
            bounded_number(tok.take(k - 1), 255)
        };
        let min = bounded_number(tok.subrange(k, k + 2), 59);
        let sec = bounded_number(tok.subrange(k + 3, k + 5), 59);
        let frac = bounded_number(tok.subrange(k + 6, n), 999);
        if hour is Some && min is Some && sec is Some && frac is Some {
            Some(
                Time {
                    hour: hour->0 as u8,
                    min: min->0 as u8,
                    sec: sec->0 as u8,
                    mil: (frac->0 * unit) as u16,
                },
            )
        } else {
            None
        }
    }
}

/// A timing line `<clock> --> <clock>[ settings]`; whatever follows the
/// second clock after a space or tab is ignored.
pub open spec fn timing(
    l: Seq<char>,
    frac_sep: char,
    frac_len: nat,
    unit: nat,
    hours_required: bool,
) -> Option<(Time, Time)> {
    let e1 = token_end(l, 0);
    let a = skip_ws(l, e1);
    if !(a + 3 <= l.len() && l[a] == '-' && l[a + 1] == '-' && l[a + 2] == '>') {
        None
    } else {
        let b = skip_ws(l, a + 3);
        let e2 = token_end(l, b);
        let s = clock(l.take(e1), frac_sep, frac_len, unit, hours_required);
        let e = clock(l.subrange(b, e2), frac_sep, frac_len, unit, hours_required);
        if s is Some && e is Some {
            Some((s->0, e->0))
        } else {
            None
        }
    }
}

pub fn is_blank(l: &Vec<char>) -> (r: bool)
    ensures
        r == blank(l@),
{
    let mut i: usize = 0;
    while i < l.len()
        invariant
            i <= l.len(),
            forall|j: int| 0 <= j < i ==> is_ws(#[trigger] l@[j]),
        decreases l.len() - i,
    {
        if l[i] != ' ' && l[i] != '\t' {
            return false;
        }
        i += 1;
    }
    true
}

pub fn is_all_digits(l: &Vec<char>) -> (r: bool)
    ensures
        r == all_digits(l@),
{
    if l.len() == 0 {
        return false;
    }
    let mut i: usize = 0;
    while i < l.len()
        invariant
            i <= l.len(),
            forall|j: int| 0 <= j < i ==> is_digit(#[trigger] l@[j]),
        decreases l.len() - i,
    {
        if !('0' <= l[i] && l[i] <= '9') {
            return false;
        }
        i += 1;
    }
    true
}

pub fn starts_with(l: &Vec<char>, p: &str) -> (r: bool)
    ensures
        r == has_prefix(l@, p@),
{
    let pv = crate::text::chars_of(p);
    if pv.len() > l.len() {
        return false;
    }
    let mut i: usize = 0;
    while i < pv.len()
        invariant
            i <= pv.len() <= l.len(),
            pv@ == p@,
            forall|j: int| 0 <= j < i ==> l@[j] == pv@[j],
        decreases pv.len() - i,
    {
        if l[i] != pv[i] {
            assert(l@.take(pv.len() as int)[i as int] != p@[i as int]);
            return false;
        }
        i += 1;
    }
    assert(l@.take(pv.len() as int) =~= p@);
    true
}

pub fn contains_arrow(l: &Vec<char>) -> (r: bool)
    ensures
        r == has_arrow(l@),
{
    let mut i: usize = 0;
    while i < l.len() && l.len() - i >= 3
        invariant
            i <= l.len(),
            forall|j: int|
                0 <= j < i && j + 3 <= l.len() ==> !(#[trigger] l@[j] == '-' && l@[j + 1] == '-'
                    && l@[j + 2] == '>'),
        decreases l.len() - i,
    {
        if l[i] == '-' && l[i + 1] == '-' && l[i + 2] == '>' {
            return true;
        }
        i += 1;
    }
    false
}

pub fn skip_spaces(l: &Vec<char>, i: usize) -> (r: usize)
    requires
        i <= l.len(),
    ensures
        r == skip_ws(l@, i as int),
        i <= r <= l.len(),
{
    let mut j = i;
    while j < l.len() && (l[j] == ' ' || l[j] == '\t')
        invariant
            i <= j <= l.len(),
            skip_ws(l@, j as int) == skip_ws(l@, i as int),
        decreases l.len() - j,
    {
        j += 1;
    }
    j
}

pub fn token_stop(l: &Vec<char>, i: usize) -> (r: usize)
    requires
        i <= l.len(),
    ensures
        r == token_end(l@, i as int),
        i <= r <= l.len(),
{
    let mut j = i;
    while j < l.len() && !(l[j] == ' ' || l[j] == '\t')
        invariant
            i <= j <= l.len(),
            token_end(l@, j as int) == token_end(l@, i as int),
        decreases l.len() - j,
    {
        j += 1;
    }
    j
}

pub fn find(l: &Vec<char>, i: usize, c: char) -> (r: usize)
    requires
        i <= l.len(),
    ensures
        r == find_char(l@, i as int, c),
        i <= r <= l.len(),
{
    let mut j = i;
    while j < l.len() && l[j] != c
        invariant
            i <= j <= l.len(),
            find_char(l@, j as int, c) == find_char(l@, i as int, c),
        decreases l.len() - j,
    {
        j += 1;
    }
    j
}

proof fn lemma_prefix_value(s: Seq<char>, i: int)
    requires
        0 <= i <= s.len(),
    ensures
        digits_value(s.take(i)) <= digits_value(s),
    decreases s.len(),
{
    if i < s.len() {
        lemma_prefix_value(s.drop_last(), i);
        assert(s.drop_last().take(i) =~= s.take(i));
    } else {
        assert(s.take(i) =~= s);
    }
}

/// Reads `l[a..b]` as a decimal number no greater than `max`.
pub fn number(l: &Vec<char>, a: usize, b: usize, max: u64) -> (r: Option<u64>)
    requires
        a <= b <= l.len(),
        max <= 1_000_000,
    ensures
        match bounded_number(l@.subrange(a as int, b as int), max as nat) {
            Some(v) => r == Some(v as u64),
            None => r is None,
        },
{
    let ghost s = l@.subrange(a as int, b as int);
    if a == b {
        return None;
    }
    let mut v: u64 = 0;
    let mut i: usize = a;
    while i < b
        invariant
            a <= i <= b <= l.len(),
            s == l@.subrange(a as int, b as int),
            max <= 1_000_000,
            v <= max,
            v == digits_value(s.take(i - a)),
            forall|j: int| 0 <= j < i - a ==> is_digit(#[trigger] s[j]),
        decreases b - i,
    {
        let c = l[i];
        if !('0' <= c && c <= '9') {
            assert(s[i - a] == c);
            return None;
        }
        proof {
            assert(s.take(i - a + 1).drop_last() =~= s.take(i - a));
        }
        v = v * 10 + (c as u64 - 48);
        i += 1;
        if v > max {
            proof {
                lemma_prefix_value(s, i - a);
            }
            return None;
        }
    }
    proof {
        assert(s.take(i - a) =~= s);
    }
    Some(v)
}

/// Reads the clock `l[a..b]`.
pub fn read_clock(
    l: &Vec<char>,
    a: usize,
    b: usize,
    frac_sep: char,
    frac_len: usize,
    unit: u64,
    hours_required: bool,
) -> (r: Option<Time>)
    requires
        a <= b <= l.len(),
        frac_len <= 3,
        unit <= 10,
    ensures
        r == clock(l@.subrange(a as int, b as int), frac_sep, frac_len as nat, unit as nat, hours_required),
{
    let ghost tok = l@.subrange(a as int, b as int);
    let n = b - a;
    if n < 6 + frac_len {
        return None;
    }
    let k = n - 6 - frac_len;
    if (k == 0 && hours_required) || (k > 0 && l[a + k - 1] != ':') || l[a + k + 2] != ':'
        || l[a + k + 5] != frac_sep {
        return None;
    }
    let hour = if k == 0 {
        Some(0u64)
    } else {
        proof {
            assert(tok.take(k - 1) =~= l@.subrange(a as int, a + k - 1));
        }
        number(l, a, a + k - 1, 255)
    };
    proof {
        assert(tok.subrange(k as int, k + 2) =~= l@.subrange(a + k, a + k + 2));
        assert(tok.subrange(k + 3, k + 5) =~= l@.subrange(a + k + 3, a + k + 5));
        assert(tok.subrange(k + 6, n as int) =~= l@.subrange(a + k + 6, b as int));
    }
    let min = number(l, a + k, a + k + 2, 59);
    let sec = number(l, a + k + 3, a + k + 5, 59);
    let frac = number(l, a + k + 6, b, 999);
    match (hour, min, sec, frac) {
        (Some(h), Some(m), Some(s), Some(f)) => {
            assert(f <= 999);
            assert(f * unit <= 9990) by (nonlinear_arith)
                requires
                    f <= 999,
                    unit <= 10,
            ;
            Some(Time { hour: h as u8, min: m as u8, sec: s as u8, mil: (f * unit) as u16 })
        },
        _ => None,
    }
}

/// Reads a timing line.
pub fn read_timing(
    l: &Vec<char>,
    frac_sep: char,
    frac_len: usize,
    unit: u64,
    hours_required: bool,
) -> (r: Option<(Time, Time)>)
    requires
        frac_len <= 3,
        unit <= 10,
    ensures
        r == timing(l@, frac_sep, frac_len as nat, unit as nat, hours_required),
{
    let e1 = token_stop(l, 0);
    let a = skip_spaces(l, e1);
    if !(a < l.len() && l.len() - a >= 3 && l[a] == '-' && l[a + 1] == '-' && l[a + 2] == '>') {
        return None;
    }
    let b = skip_spaces(l, a + 3);
    let e2 = token_stop(l, b);
    proof {
        assert(l@.take(e1 as int) =~= l@.subrange(0, e1 as int));
    }
    let s = read_clock(l, 0, e1, frac_sep, frac_len, unit, hours_required);
    let e = read_clock(l, b, e2, frac_sep, frac_len, unit, hours_required);
    match (s, e) {
        (Some(s), Some(e)) => Some((s, e)),
        _ => None,
    }
}

} // verus!
