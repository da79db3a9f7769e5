//! The tag-rich subtitle script format. A document opens with the
//! `[Script Info]` section header; each `Dialogue:` line holds the fields
//! layer, start, end, style, name, three margins, effect and text, the last
//! taking the rest of the line. Times are `h:mm:ss.cc` in centiseconds.
//! A cue whose text opens with an override block `{\` is a pure styling
//! directive and is left out; other lines are ignored.

use vstd::prelude::*;
use crate::dialogue::{Cue, Dialogue};
use crate::scan::{blank, clock, find, find_char, has_prefix, is_blank, read_clock, starts_with};
use crate::text::{doc_lines, document_lines, string_of};
use crate::time::Time;

verus! {

/// Position of the `n`-th comma after position `i`.
pub open spec fn nth_comma(l: Seq<char>, i: int, n: nat) -> int
    decreases n,
{
    if n == 0 {
        i
    } else {
        find_char(l, nth_comma(l, i, (n - 1) as nat) + 1, ',')
    }
}

pub open spec fn dialogue_tag() -> Seq<char> {
    seq!['D', 'i', 'a', 'l', 'o', 'g', 'u', 'e', ':']
}

pub open spec fn script_info_header() -> Seq<char> {
    seq!['[', 'S', 'c', 'r', 'i', 'p', 't', ' ', 'I', 'n', 'f', 'o', ']']
}

/// The opening of an override block.
pub open spec fn override_open() -> Seq<char> {
    seq!['{', '\\']
}

/// Start, end and text of a `Dialogue:` line, or `None` when it is
/// malformed.
pub open spec fn ass_cue(l: Seq<char>) -> Option<(Time, Time, Seq<char>)> {
    let c1 = find_char(l, 9, ',');
    let c2 = nth_comma(l, c1, 1);
    let c3 = nth_comma(l, c1, 2);
    let c9 = nth_comma(l, c1, 8);
    if c9 >= l.len() {
        None
    } else {
        let s = clock(l.subrange(c1 + 1, c2), '.', 2, 10, true);
        let e = clock(l.subrange(c2 + 1, c3), '.', 2, 10, true);
        if s is Some && e is Some {
            Some((s->0, e->0, l.subrange(c9 + 1, l.len() as int)))
        } else {
            None
        }
    }
}

/// What the reader knows after some lines: whether the header was seen,
/// whether a line was malformed, and the cues so far.
pub struct AssScan {
    pub in_body: bool,
    pub failed: bool,
    pub cues: Seq<Cue>,
}

/// The reader's state after one more line.
pub open spec fn ass_step(st: AssScan, l: Seq<char>) -> AssScan {
    if st.failed {
        st
    } else if !st.in_body {
        if blank(l) {
            st
        } else if l == script_info_header() {
            AssScan { in_body: true, ..st }
        } else {
            AssScan { failed: true, ..st }
        }
    } else if has_prefix(l, dialogue_tag()) {
        match ass_cue(l) {
            Some((a, b, t)) => if has_prefix(t, override_open()) {
                st
            } else {
                AssScan { cues: st.cues.push(Cue { start: a, end: b, text: t }), ..st }
            },
            None => AssScan { failed: true, ..st },
        }
    } else {
        st
    }
}

/// The reader's state after the first `n` lines.
pub open spec fn ass_after(ls: Seq<Seq<char>>, n: int) -> AssScan
    decreases n,
{
    if n <= 0 {
        AssScan { in_body: false, failed: false, cues: Seq::empty() }
    } else {
        ass_step(ass_after(ls, n - 1), ls[n - 1])
    }
}

/// The timeline of a document in this format, or `None` when the document
/// is not one.
pub open spec fn assa_timeline(s: Seq<char>) -> Option<Seq<Cue>> {
    let ls = doc_lines(s);
    let st = ass_after(ls, ls.len() as int);
    if st.failed || !st.in_body {
        None
    } else {
        Some(st.cues)
    }
}

proof fn lemma_failed_stays(ls: Seq<Seq<char>>, n: int, m: int)
    requires
        0 <= n <= m,
        ass_after(ls, n).failed,
    ensures
        ass_after(ls, m).failed,
    decreases m - n,
{
    if n < m {
        lemma_failed_stays(ls, n, m - 1);
    }
}

proof fn lemma_cues_grow(ls: Seq<Seq<char>>, n: int, m: int)
    requires
        0 <= n <= m,
    ensures
        ass_after(ls, n).cues.len() <= ass_after(ls, m).cues.len(),
        ass_after(ls, m).cues.take(ass_after(ls, n).cues.len() as int) == ass_after(ls, n).cues,
    decreases m - n,
{
    if n < m {
        lemma_cues_grow(ls, n, m - 1);
        let c = ass_after(ls, m - 1).cues;
        let d = ass_after(ls, m).cues;
        let k = ass_after(ls, n).cues.len() as int;
        assert(d == c || (d.len() == c.len() + 1 && d.take(c.len() as int) =~= c));
        assert(d.take(k) =~= c.take(k));
    } else {
        assert(ass_after(ls, n).cues.take(ass_after(ls, n).cues.len() as int) =~= ass_after(ls, n).cues);
    }
}

proof fn lemma_no_styling_cues(ls: Seq<Seq<char>>, n: int)
    requires
        0 <= n,
    ensures
        forall|i: int|
            0 <= i < ass_after(ls, n).cues.len() ==> !has_prefix(
                #[trigger] ass_after(ls, n).cues[i].text,
                override_open(),
            ),
    decreases n,
{
    if n > 0 {
        lemma_no_styling_cues(ls, n - 1);
        let c = ass_after(ls, n - 1).cues;
        let d = ass_after(ls, n).cues;
        let l = ls[n - 1];
        assert forall|i: int| 0 <= i < d.len() implies !has_prefix(
            #[trigger] d[i].text,
            override_open(),
        ) by {
            if d != c {
                assert(d == c.push(
                    Cue {
                        start: (ass_cue(l)->0).0,
                        end: (ass_cue(l)->0).1,
                        text: (ass_cue(l)->0).2,
                    },
                ));
                if i < c.len() {
                    assert(d[i] == c[i]);
                }
            }
        }
    }
}

/// A cue whose text opens with an override block is a pure styling
/// directive: no cue of a timeline in this format opens with one.
pub proof fn lemma_styling_cues_absent(s: Seq<char>)
    ensures
        assa_timeline(s) matches Some(cs) ==> forall|i: int|
            0 <= i < cs.len() ==> !has_prefix(#[trigger] cs[i].text, override_open()),
{
    let ls = doc_lines(s);
    lemma_no_styling_cues(ls, ls.len() as int);
}

/// A `Dialogue:` line whose text does not open with an override block gives
/// a cue with that text verbatim, inline override tags included, at its
/// place in file order: after the cues of the lines before it.
pub proof fn lemma_inline_tags_kept(s: Seq<char>, k: int)
    requires
        0 <= k < doc_lines(s).len(),
        has_prefix(doc_lines(s)[k], dialogue_tag()),
        ass_cue(doc_lines(s)[k]) is Some,
        !has_prefix((ass_cue(doc_lines(s)[k])->0).2, override_open()),
    ensures
        assa_timeline(s) matches Some(cs) ==> ({
            let (a, b, t) = ass_cue(doc_lines(s)[k])->0;
            let j = ass_after(doc_lines(s), k).cues.len() as int;
            j < cs.len() && cs[j] == Cue { start: a, end: b, text: t }
        }),
{
    let ls = doc_lines(s);
    let l = ls[k];
    let st = ass_after(ls, k);
    let (a, b, t) = ass_cue(l)->0;
    let n = ls.len() as int;
    assert(l[0] == dialogue_tag()[0]) by {
        assert(l.take(9)[0] == l[0]);
    }
    assert(l != script_info_header()) by {
        assert(script_info_header()[0] == '[');
    }
    assert(!blank(l)) by {
        assert(!crate::scan::is_ws(l[0]));
    }
    if st.failed {
        lemma_failed_stays(ls, k, n);
    } else if !st.in_body {
        assert(ass_after(ls, k + 1).failed);
        lemma_failed_stays(ls, k + 1, n);
    } else {
        let st1 = ass_after(ls, k + 1);
        assert(st1.cues == st.cues.push(Cue { start: a, end: b, text: t }));
        lemma_cues_grow(ls, k + 1, n);
        let fin = ass_after(ls, n).cues;
        assert(fin.take(st1.cues.len() as int)[st.cues.len() as int] == fin[st.cues.len() as int]);
    }
}

proof fn lemma_comma_stuck(l: Seq<char>, i: int, k: nat, m: nat)
    requires
        k <= m,
        nth_comma(l, i, k) == l.len(),
    ensures
        nth_comma(l, i, m) == l.len(),
    decreases m - k,
{
    if k < m {
        lemma_comma_stuck(l, i, k, (m - 1) as nat);
    }
}

fn read_cue(l: &Vec<char>) -> (r: Option<(Time, Time, Vec<char>)>)
    requires
        has_prefix(l@, dialogue_tag()),
    ensures
        match ass_cue(l@) {
            Some((a, b, t)) => r matches Some((ra, rb, rt)) && ra == a && rb == b && rt@ == t,
            None => r is None,
        },
{
    let c1 = find(l, 9, ',');
    if c1 == l.len() {
        proof {
            lemma_comma_stuck(l@, c1 as int, 0, 8);
        }
        return None;
    }
    let mut pos = c1;
    let mut c2: usize = 0;
    let mut c3: usize = 0;
    let mut k: usize = 0;
    while k < 8
        invariant
            k <= 8,
            c1 < l.len(),
            c1 == find_char(l@, 9, ','),
            pos < l.len(),
            pos == nth_comma(l@, c1 as int, k as nat),
            k >= 1 ==> c2 == nth_comma(l@, c1 as int, 1) && c1 < c2 <= pos,
            k >= 2 ==> c3 == nth_comma(l@, c1 as int, 2) && c2 < c3 <= pos,
            k == 0 ==> pos == c1,
        decreases 8 - k,
    {
        let next = find(l, pos + 1, ',');
        k += 1;
        if next == l.len() {
            proof {
                lemma_comma_stuck(l@, c1 as int, k as nat, 8);
            }
            return None;
        }
        pos = next;
        if k == 1 {
            c2 = pos;
        }
        if k == 2 {
            c3 = pos;
        }
    }
    let s = read_clock(l, c1 + 1, c2, '.', 2, 10, true);
    let e = read_clock(l, c2 + 1, c3, '.', 2, 10, true);
    match (s, e) {
        (Some(s), Some(e)) => {
            let mut t: Vec<char> = Vec::new();
            let mut j = pos + 1;
            while j < l.len()
                invariant
                    pos < j <= l.len(),
                    t@ == l@.subrange(pos + 1, j as int),
                decreases l.len() - j,
            {
                t.push(l[j]);
                j += 1;
                proof {
                    assert(t@ =~= l@.subrange(pos + 1, j as int));
                }
            }
            Some((s, e, t))
        },
        _ => None,
    }
}

/// Parses a document in the tag-rich subtitle script format.
pub fn parse_assa_to_dialogue(contents: &str) -> (r: Option<Vec<Dialogue>>)
    ensures
        r.deep_view() == assa_timeline(contents@),
{
    let ls = document_lines(contents);
    let mut in_body = false;
    let mut failed = false;
    let mut cues: Vec<Dialogue> = Vec::new();
    proof {
        assert(cues.deep_view() =~= Seq::<Cue>::empty());
        reveal_strlit("[Script Info]");
        reveal_strlit("Dialogue:");
        reveal_strlit("{\\");
        assert("[Script Info]"@ =~= script_info_header());
        assert("Dialogue:"@ =~= dialogue_tag());
        assert("{\\"@ =~= override_open());
    }
    let mut i: usize = 0;
    while i < ls.len()
        invariant
            i <= ls.len(),
            ls.deep_view() == doc_lines(contents@),
            "[Script Info]"@ == script_info_header(),
            "Dialogue:"@ == dialogue_tag(),
            "{\\"@ == override_open(),
            (AssScan { in_body, failed, cues: cues.deep_view() }) == ass_after(
                ls.deep_view(),
                i as int,
            ),
        decreases ls.len() - i,
    {
        let l = &ls[i];
        let ghost st = AssScan { in_body, failed, cues: cues.deep_view() };
        proof {
            assert(l@ =~= ls.deep_view()[i as int]);
            assert(ass_after(ls.deep_view(), i + 1) == ass_step(st, l@));
            if l@.len() == 13 {
                assert(l@ =~= l@.take(13));
            }
        }
        if failed {
        } else if !in_body {
            if is_blank(l) {
            } else if l.len() == 13 && starts_with(l, "[Script Info]") {
                assert(l@ =~= l@.take(13));
                in_body = true;
            } else {
                failed = true;
            }
        } else if starts_with(l, "Dialogue:") {
            match read_cue(l) {
                Some((a, b, t)) => {
                    if !starts_with(&t, "{\\") {
                        let d = Dialogue { start: a, end: b, text: string_of(&t) };
                        let ghost before = cues.deep_view();
                        cues.push(d);
                        proof {
                            assert(cues.deep_view() =~= before.push(d@));
                        }
                    }
                },
                None => {
                    failed = true;
                },
            }
        }
        i += 1;
    }
    if failed || !in_body {
        None
    } else {
        Some(cues)
    }
}

/// The tag-rich subtitle script format, as one of the parsers the
/// dispatcher tries.
pub struct AssaParser;

impl AssaParser {
    pub fn parse(&self, contents: &str) -> (r: Option<Vec<Dialogue>>)
        ensures
            r.deep_view() == assa_timeline(contents@),
    {
        parse_assa_to_dialogue(contents)
    }
}

} // verus!
