//! Cues, timelines, and matching of cues between two tracks.

use vstd::prelude::*;
use crate::time::Time;

verus! {

/// What a cue denotes: its interval and its text.
pub struct Cue {
    pub start: Time,
    pub end: Time,
    pub text: Seq<char>,
}

/// One subtitle entry. Downstream logic expects `start` not after `end`;
/// construction does not enforce it.
#[derive(Clone, Debug, PartialEq)]
pub struct Dialogue {
    pub start: Time,
    pub end: Time,
    pub text: String,
}

impl View for Dialogue {
    type V = Cue;

    open spec fn view(&self) -> Cue {
        Cue { start: self.start, end: self.end, text: self.text@ }
    }
}

impl DeepView for Dialogue {
    type V = Cue;

    open spec fn deep_view(&self) -> Cue {
        self.view()
    }
}

/// A secondary cue `s` matches a primary cue `p` when `s` starts inside
/// `[p.start, p.end)`, or starts before `p` and is still running when `p`
/// starts.
pub open spec fn matches_primary(p: Dialogue, s: Dialogue) -> bool {
    ||| (s.start.ms() >= p.start.ms() && s.start.ms() < p.end.ms())
    ||| (s.start.ms() < p.start.ms() && s.end.ms() > p.start.ms())
}

impl Dialogue {
    /// Whether `other`, a cue of the secondary track, matches this cue.
    pub fn overlaps(&self, other: &Dialogue) -> (r: bool)
        ensures
            r == matches_primary(*self, *other),
    {
        let ps = self.start.milliseconds();
        let pe = self.end.milliseconds();
        let ss = other.start.milliseconds();
        let se = other.end.milliseconds();
        (ss >= ps && ss < pe) || (ss < ps && se > ps)
    }
}

/// The cues of `secondary` that match `dialogue`, in the order they have in `secondary`.
pub fn find_secondary_matches<'a>(dialogue: &'a Dialogue, secondary: &'a [Dialogue]) -> (r: Vec<
    &'a Dialogue,
>)
    ensures
        r@.map_values(|d: &Dialogue| *d) == secondary@.filter(
            |s: Dialogue| matches_primary(*dialogue, s),
        ),
{
    let ghost pred = |s: Dialogue| matches_primary(*dialogue, s);
    let mut r: Vec<&'a Dialogue> = Vec::new();
    let mut i: usize = 0;
    proof {
        reveal(Seq::filter);
        assert(secondary@.take(0).filter(pred) =~= Seq::<Dialogue>::empty());
        assert(r@.map_values(|d: &Dialogue| *d) =~= Seq::<Dialogue>::empty());
    }
    while i < secondary.len()
        invariant
            i <= secondary@.len(),
            pred == (|s: Dialogue| matches_primary(*dialogue, s)),
            r@.map_values(|d: &Dialogue| *d) == secondary@.take(i as int).filter(pred),
        decreases secondary.len() - i,
    {
        let s = &secondary[i];
        let ghost before = r@.map_values(|d: &Dialogue| *d);
        proof {
            assert(secondary@.take(i + 1).drop_last() =~= secondary@.take(i as int));
            reveal(Seq::filter);
            assert(secondary@.take(i + 1).last() == *s);
        }
        if dialogue.overlaps(s) {
            r.push(s);
            proof {
                assert(r@.map_values(|d: &Dialogue| *d) =~= before.push(*s));
            }
        }
        i += 1;
    }
    proof {
        assert(secondary@.take(i as int) =~= secondary@);
    }
    r
}

/// `t` moved by `offset_ms` milliseconds, held at zero.
pub open spec fn shifted(t: Time, offset_ms: int) -> Time {
    if t.ms() + offset_ms <= 0 {
        Time::of_ms(0)
    } else {
        Time::of_ms((t.ms() + offset_ms) as nat)
    }
}

fn shift_time(t: &Time, offset_ms: i64) -> (r: Time)
    ensures
        r == shifted(*t, offset_ms as int),
{
    let ms: i128 = t.milliseconds() as i128 + offset_ms as i128;
    if ms <= 0 {
        Time::from_nanos(0)
    } else {
        Time::from_nanos(ms as u64)
    }
}

/// The cues moved by `offset_ms` milliseconds, times held at zero.
pub fn offset_dialogues(cues: &Vec<Dialogue>, offset_ms: i64) -> (r: Vec<Dialogue>)
    ensures
        r@.len() == cues@.len(),
        forall|i: int|
            0 <= i < cues@.len() ==> (#[trigger] r@[i])@ == (Cue {
                start: shifted(cues@[i].start, offset_ms as int),
                end: shifted(cues@[i].end, offset_ms as int),
                text: cues@[i].text@,
            }),
{
    let mut r: Vec<Dialogue> = Vec::new();
    let mut i: usize = 0;
    while i < cues.len()
        invariant
            i <= cues.len(),
            r@.len() == i,
            forall|j: int|
                0 <= j < i ==> (#[trigger] r@[j])@ == (Cue {
                    start: shifted(cues@[j].start, offset_ms as int),
                    end: shifted(cues@[j].end, offset_ms as int),
                    text: cues@[j].text@,
                }),
        decreases cues.len() - i,
    {
        let d = &cues[i];
        let moved = Dialogue {
            start: shift_time(&d.start, offset_ms),
            end: shift_time(&d.end, offset_ms),
            text: d.text.clone(),
        };
        r.push(moved);
        i += 1;
    }
    r
}

} // verus!
