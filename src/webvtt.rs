//! The web caption format: a `WEBVTT` signature line, a header, then blocks
//! separated by blank lines. A cue block holds an optional identifier, a
//! timing line `[hh:]mm:ss.mmm --> [hh:]mm:ss.mmm [settings]` and payload
//! lines, kept verbatim and joined by line feeds. `NOTE`, `STYLE` and
//! `REGION` blocks are skipped.

use vstd::prelude::*;
use crate::dialogue::{Cue, Dialogue};
use crate::scan::{
    blank, contains_arrow, has_arrow, has_prefix, is_blank, is_ws, read_timing, starts_with,
    timing,
};
use crate::text::{doc_lines, document_lines, push_all, string_of};
use crate::time::Time;

verus! {

/// Where the reader stands between two lines.
#[derive(Clone, Copy, PartialEq, Eq, Structural)]
pub enum VttMode {
    /// Nothing read yet: the signature line comes first.
    Signature,
    /// In the header, which ends at the first blank line.
    Header,
    /// Between blocks.
    Between,
    /// After a cue identifier: the timing line comes next.
    Timing,
    /// Inside the payload of a cue.
    Payload,
    /// Inside a block that holds no cue.
    Skip,
}

/// What the reader knows after some lines.
pub struct VttScan {
    pub mode: VttMode,
    pub failed: bool,
    pub start: Time,
    pub end: Time,
    pub text: Seq<char>,
    pub has_text: bool,
    pub cues: Seq<Cue>,
}

/// `l` is the word `w`, alone or followed by a space or tab.
pub open spec fn word_line(l: Seq<char>, w: Seq<char>) -> bool {
    has_prefix(l, w) && (l.len() == w.len() || is_ws(l[w.len() as int]))
}

pub open spec fn signature_line(l: Seq<char>) -> bool {
    word_line(l, seq!['W', 'E', 'B', 'V', 'T', 'T'])
}

/// The first line of a block that holds no cue.
pub open spec fn other_block(l: Seq<char>) -> bool {
    ||| word_line(l, seq!['N', 'O', 'T', 'E'])
    ||| word_line(l, seq!['S', 'T', 'Y', 'L', 'E'])
    ||| word_line(l, seq!['R', 'E', 'G', 'I', 'O', 'N'])
}

pub open spec fn vtt_initial() -> VttScan {
    VttScan {
        mode: VttMode::Signature,
        failed: false,
        start: Time { hour: 0, min: 0, sec: 0, mil: 0 },
        end: Time { hour: 0, min: 0, sec: 0, mil: 0 },
        text: Seq::empty(),
        has_text: false,
        cues: Seq::empty(),
    }
}

/// Opens a cue at a timing line, or fails.
pub open spec fn vtt_open(st: VttScan, l: Seq<char>) -> VttScan {
    match timing(l, '.', 3, 1, false) {
        Some((a, b)) => VttScan {
            mode: VttMode::Payload,
            start: a,
            end: b,
            text: Seq::empty(),
            has_text: false,
            ..st
        },
        None => VttScan { failed: true, ..st },
    }
}

/// The reader's state after one more line.
pub open spec fn vtt_step(st: VttScan, l: Seq<char>) -> VttScan {
    if st.failed {
        st
    } else {
        match st.mode {
            VttMode::Signature => if signature_line(l) {
                VttScan { mode: VttMode::Header, ..st }
            } else {
                VttScan { failed: true, ..st }
            },
            VttMode::Header => if blank(l) {
                VttScan { mode: VttMode::Between, ..st }
            } else if has_arrow(l) {
                VttScan { failed: true, ..st }
            } else {
                st
            },
            VttMode::Between => if blank(l) {
                st
            } else if has_arrow(l) {
                vtt_open(st, l)
            } else if other_block(l) {
                VttScan { mode: VttMode::Skip, ..st }
            } else {
                VttScan { mode: VttMode::Timing, ..st }
            },
            VttMode::Timing => vtt_open(st, l),
            VttMode::Payload => if blank(l) {
                VttScan {
                    mode: VttMode::Between,
                    cues: st.cues.push(Cue { start: st.start, end: st.end, text: st.text }),
                    ..st
                }
            } else {
                VttScan {
                    text: if st.has_text {
                        st.text.push('\n') + l
                    } else {
                        l
                    },
                    has_text: true,
                    ..st
                }
            },
            VttMode::Skip => if blank(l) {
                VttScan { mode: VttMode::Between, ..st }
            } else {
                st
            },
        }
    }
}

/// The reader's state after the first `n` lines.
pub open spec fn vtt_after(ls: Seq<Seq<char>>, n: int) -> VttScan
    decreases n,
{
    if n <= 0 {
        vtt_initial()
    } else {
        vtt_step(vtt_after(ls, n - 1), ls[n - 1])
    }
}

/// The timeline of a document in this format, or `None` when the document
/// is not one.
pub open spec fn webvtt_timeline(s: Seq<char>) -> Option<Seq<Cue>> {
    let ls = doc_lines(s);
    let st = vtt_after(ls, ls.len() as int);
    if st.failed {
        None
    } else {
        match st.mode {
            VttMode::Signature => None,
            VttMode::Timing => None,
            VttMode::Payload => Some(
                st.cues.push(Cue { start: st.start, end: st.end, text: st.text }),
            ),
            _ => Some(st.cues),
        }
    }
}

struct VttReader {
    mode: VttMode,
    failed: bool,
    start: Time,
    end: Time,
    text: Vec<char>,
    has_text: bool,
    cues: Vec<Dialogue>,
}

impl View for VttReader {
    type V = VttScan;

    closed spec fn view(&self) -> VttScan {
        VttScan {
            mode: self.mode,
            failed: self.failed,
            start: self.start,
            end: self.end,
            text: self.text@,
            has_text: self.has_text,
            cues: self.cues.deep_view(),
        }
    }
}

fn is_word_line(l: &Vec<char>, w: &str) -> (r: bool)
    ensures
        r == word_line(l@, w@),
{
    let n = crate::text::chars_of(w).len();
    starts_with(l, w) && (l.len() == n || l[n] == ' ' || l[n] == '\t')
}

impl VttReader {
    fn close_cue(&mut self)
        ensures
            final(self)@ == (VttScan {
                cues: old(self)@.cues.push(
                    Cue { start: old(self).start, end: old(self).end, text: old(self).text@ },
                ),
                ..old(self)@
            }),
    {
        let d = Dialogue { start: self.start, end: self.end, text: string_of(&self.text) };
        let ghost before = self.cues.deep_view();
        self.cues.push(d);
        proof {
            assert(self.cues.deep_view() =~= before.push(d@));
        }
    }

    fn open(&mut self, l: &Vec<char>)
        ensures
            final(self)@ == vtt_open(old(self)@, l@),
    {
        match read_timing(l, '.', 3, 1, false) {
            Some((a, b)) => {
                self.mode = VttMode::Payload;
                self.start = a;
                self.end = b;
                self.text = Vec::new();
                self.has_text = false;
                proof {
                    assert(self.text@ =~= Seq::<char>::empty());
                }
            },
            None => {
                self.failed = true;
            },
        }
    }

    fn step(&mut self, l: &Vec<char>)
        ensures
            final(self)@ == vtt_step(old(self)@, l@),
    {
        if self.failed {
            return;
        }
        match self.mode {
            VttMode::Signature => {
                let sig = is_word_line(l, "WEBVTT");
                proof {
                    reveal_strlit("WEBVTT");
                    assert("WEBVTT"@ =~= seq!['W', 'E', 'B', 'V', 'T', 'T']);
                }
                if sig {
                    self.mode = VttMode::Header;
                } else {
                    self.failed = true;
                }
            },
            VttMode::Header => {
                if is_blank(l) {
                    self.mode = VttMode::Between;
                } else if contains_arrow(l) {
                    self.failed = true;
                }
            },
            VttMode::Between => {
                if is_blank(l) {
                } else if contains_arrow(l) {
                    self.open(l);
                } else {
                    let note = is_word_line(l, "NOTE");
                    let style = is_word_line(l, "STYLE");
                    let region = is_word_line(l, "REGION");
                    proof {
                        reveal_strlit("NOTE");
                        reveal_strlit("STYLE");
                        reveal_strlit("REGION");
                        assert("NOTE"@ =~= seq!['N', 'O', 'T', 'E']);
                        assert("STYLE"@ =~= seq!['S', 'T', 'Y', 'L', 'E']);
                        assert("REGION"@ =~= seq!['R', 'E', 'G', 'I', 'O', 'N']);
                    }
                    if note || style || region {
                        self.mode = VttMode::Skip;
                    } else {
                        self.mode = VttMode::Timing;
                    }
                }
            },
            VttMode::Timing => {
                self.open(l);
            },
            VttMode::Payload => {
                if is_blank(l) {
                    self.close_cue();
                    self.mode = VttMode::Between;
                } else {
                    if self.has_text {
                        self.text.push('\n');
                    } else {
                        self.text = Vec::new();
                    }
                    push_all(&mut self.text, l);
                    self.has_text = true;
                    proof {
                        if old(self).has_text {
                            assert(self.text@ =~= old(self).text@.push('\n') + l@);
                        } else {
                            assert(self.text@ =~= l@);
                        }
                    }
                }
            },
            VttMode::Skip => {
                if is_blank(l) {
                    self.mode = VttMode::Between;
                }
            },
        }
    }
}

/// Parses a document in the web caption format.
pub fn parse_webvtt_to_dialogue(contents: &str) -> (r: Option<Vec<Dialogue>>)
    ensures
        r.deep_view() == webvtt_timeline(contents@),
{
    let ls = document_lines(contents);
    let mut rd = VttReader {
        mode: VttMode::Signature,
        failed: false,
        start: Time { hour: 0, min: 0, sec: 0, mil: 0 },
        end: Time { hour: 0, min: 0, sec: 0, mil: 0 },
        text: Vec::new(),
        has_text: false,
        cues: Vec::new(),
    };
    proof {
        assert(rd.cues.deep_view() =~= Seq::<Cue>::empty());
        assert(rd.text@ =~= Seq::<char>::empty());
        assert(rd@ =~= vtt_initial());
    }
    let mut i: usize = 0;
    while i < ls.len()
        invariant
            i <= ls.len(),
            ls.deep_view() == doc_lines(contents@),
            rd@ == vtt_after(ls.deep_view(), i as int),
        decreases ls.len() - i,
    {
        proof {
            assert(ls[i as int]@ =~= ls.deep_view()[i as int]);
        }
        rd.step(&ls[i]);
        i += 1;
    }
    if rd.failed {
        return None;
    }
    match rd.mode {
        VttMode::Signature => None,
        VttMode::Timing => None,
        VttMode::Payload => {
            rd.close_cue();
            Some(rd.cues)
        },
        _ => Some(rd.cues),
    }
}

/// The web caption format, as one of the parsers the dispatcher tries.
pub struct WebVttParser;

impl WebVttParser {
    pub fn parse(&self, contents: &str) -> (r: Option<Vec<Dialogue>>)
        ensures
            r.deep_view() == webvtt_timeline(contents@),
    {
        parse_webvtt_to_dialogue(contents)
    }
}

} // verus!
