//! The plain sequential-cue format: numbered blocks, each with a timing line
//! `hh:mm:ss,mmm --> hh:mm:ss,mmm` and payload lines, separated by blank lines.

use vstd::prelude::*;
use crate::dialogue::{Cue, Dialogue};
use crate::scan::{all_digits, blank, is_all_digits, is_blank, read_timing, timing};
use crate::text::{doc_lines, document_lines, push_all, string_of};
use crate::time::Time;

verus! {

/// Where the reader stands between two lines.
#[derive(Clone, Copy, PartialEq, Eq, Structural)]
pub enum SrtMode {
    /// Between blocks: blank lines are skipped, a block opens with its number.
    Between,
    /// After the number: the timing line comes next.
    Timing,
    /// Inside the payload of a cue.
    Payload,
}

/// What the reader knows after some lines.
pub struct SrtScan {
    pub mode: SrtMode,
    pub failed: bool,
    pub start: Time,
    pub end: Time,
    pub text: Seq<char>,
    pub has_text: bool,
    pub cues: Seq<Cue>,
}

/// The marker that joins the lines of a payload.
pub open spec fn line_break() -> Seq<char> {
    seq!['<', 'b', 'r', '/', '>']
}

pub open spec fn srt_initial() -> SrtScan {
    SrtScan {
        mode: SrtMode::Between,
        failed: false,
        start: Time { hour: 0, min: 0, sec: 0, mil: 0 },
        end: Time { hour: 0, min: 0, sec: 0, mil: 0 },
        text: Seq::empty(),
        has_text: false,
        cues: Seq::empty(),
    }
}

/// The reader's state after one more line.
pub open spec fn srt_step(st: SrtScan, l: Seq<char>) -> SrtScan {
    if st.failed {
        st
    } else {
        match st.mode {
            SrtMode::Between => if blank(l) {
                st
            } else if all_digits(l) {
                SrtScan { mode: SrtMode::Timing, ..st }
            } else {
                SrtScan { failed: true, ..st }
            },
            SrtMode::Timing => match timing(l, ',', 3, 1, true) {
                Some((a, b)) => SrtScan {
                    mode: SrtMode::Payload,
                    start: a,
                    end: b,
                    text: Seq::empty(),
                    has_text: false,
                    ..st
                },
                None => SrtScan { failed: true, ..st },
            },
            SrtMode::Payload => if blank(l) {
                SrtScan {
                    mode: SrtMode::Between,
                    cues: st.cues.push(Cue { start: st.start, end: st.end, text: st.text }),
                    ..st
                }
            } else {
                SrtScan {
                    text: if st.has_text {
                        st.text + line_break() + l
                    } else {
                        l
                    },
                    has_text: true,
                    ..st
                }
            },
        }
    }
}

/// The reader's state after the first `n` lines.
pub open spec fn srt_after(ls: Seq<Seq<char>>, n: int) -> SrtScan
    decreases n,
{
    if n <= 0 {
        srt_initial()
    } else {
        srt_step(srt_after(ls, n - 1), ls[n - 1])
    }
}

/// The timeline of a document in this format, or `None` when the document
/// is not one: a line out of place, a malformed timing line, or no cue at all.
pub open spec fn subrip_timeline(s: Seq<char>) -> Option<Seq<Cue>> {
    let ls = doc_lines(s);
    let st = srt_after(ls, ls.len() as int);
    if st.failed {
        None
    } else {
        match st.mode {
            SrtMode::Between => if st.cues.len() > 0 {
                Some(st.cues)
            } else {
                None
            },
            SrtMode::Timing => None,
            SrtMode::Payload => Some(
                st.cues.push(Cue { start: st.start, end: st.end, text: st.text }),
            ),
        }
    }
}

struct SrtReader {
    mode: SrtMode,
    failed: bool,
    start: Time,
    end: Time,
    text: Vec<char>,
    has_text: bool,
    cues: Vec<Dialogue>,
}

impl View for SrtReader {
    type V = SrtScan;

    closed spec fn view(&self) -> SrtScan {
        SrtScan {
            mode: self.mode,
            failed: self.failed,
            start: self.start,
            end: self.end,
            text: self.text@,
            has_text: self.has_text,
            cues: self.cues.deep_view(),
        }
    }
}

impl SrtReader {
    fn close_cue(&mut self)
        ensures
            final(self)@ == (SrtScan {
                cues: old(self)@.cues.push(
                    Cue { start: old(self).start, end: old(self).end, text: old(self).text@ },
                ),
                ..old(self)@
            }),
    {
        let d = Dialogue { start: self.start, end: self.end, text: string_of(&self.text) };
        let ghost before = self.cues.deep_view();
        self.cues.push(d);
        proof {
            assert(self.cues.deep_view() =~= before.push(d@));
        }
    }

    fn step(&mut self, l: &Vec<char>)
        ensures
            final(self)@ == srt_step(old(self)@, l@),
    {
        if self.failed {
            return;
        }
        match self.mode {
            SrtMode::Between => {
                if is_blank(l) {
                } else if is_all_digits(l) {
                    self.mode = SrtMode::Timing;
                } else {
                    self.failed = true;
                }
            },
            SrtMode::Timing => {
                match read_timing(l, ',', 3, 1, true) {
                    Some((a, b)) => {
                        self.mode = SrtMode::Payload;
                        self.start = a;
                        self.end = b;
                        self.text = Vec::new();
                        self.has_text = false;
                    },
                    None => {
                        self.failed = true;
                    },
                }
            },
            SrtMode::Payload => {
                if is_blank(l) {
                    self.close_cue();
                    self.mode = SrtMode::Between;
                } else {
                    if self.has_text {
                        self.text.push('<');
                        self.text.push('b');
                        self.text.push('r');
                        self.text.push('/');
                        self.text.push('>');
                    } else {
                        self.text = Vec::new();
                    }
                    let ghost before = self.text@;
                    push_all(&mut self.text, l);
                    self.has_text = true;
                    proof {
                        if old(self).has_text {
                            assert(self.text@ =~= old(self).text@ + line_break() + l@);
                        } else {
                            assert(self.text@ =~= l@);
                        }
                    }
                }
            },
        }
    }
}

/// Parses a document in the plain sequential-cue format.
pub fn parse_subrip_to_dialogue(contents: &str) -> (r: Option<Vec<Dialogue>>)
    ensures
        r.deep_view() == subrip_timeline(contents@),
{
    let ls = document_lines(contents);
    let mut rd = SrtReader {
        mode: SrtMode::Between,
        failed: false,
        start: Time { hour: 0, min: 0, sec: 0, mil: 0 },
        end: Time { hour: 0, min: 0, sec: 0, mil: 0 },
        text: Vec::new(),
        has_text: false,
        cues: Vec::new(),
    };
    proof {
        assert(rd.cues.deep_view() =~= Seq::<Cue>::empty());
        assert(rd.text@ =~= Seq::<char>::empty());
        assert(rd@ =~= srt_initial());
    }
    let mut i: usize = 0;
    while i < ls.len()
        invariant
            i <= ls.len(),
            ls.deep_view() == doc_lines(contents@),
            rd@ == srt_after(ls.deep_view(), i as int),
        decreases ls.len() - i,
    {
        proof {
            assert(ls[i as int]@ =~= ls.deep_view()[i as int]);
        }
        rd.step(&ls[i]);
        i += 1;
    }
    if rd.failed {
        return None;
    }
    match rd.mode {
        SrtMode::Between => if rd.cues.len() > 0 {
            Some(rd.cues)
        } else {
            None
        },
        SrtMode::Timing => None,
        SrtMode::Payload => {
            rd.close_cue();
            Some(rd.cues)
        },
    }
}

/// The plain sequential-cue format, as one of the parsers the dispatcher
/// tries.
pub struct SubripParser;

impl SubripParser {
    pub fn parse(&self, contents: &str) -> (r: Option<Vec<Dialogue>>)
        ensures
            r.deep_view() == subrip_timeline(contents@),
    {
        parse_subrip_to_dialogue(contents)
    }
}

} // verus!
