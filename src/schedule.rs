//! When to capture video frames: one still per cue, taken from the first
//! decoded frame past the cue's midpoint. The caller decodes frames in
//! increasing timestamp order and reports each one; the schedule answers
//! what to do with it.

use vstd::prelude::*;
use crate::dialogue::Dialogue;
use crate::text::{push_str, string_of};
use crate::time::{sample_range, window_of, Time};

verus! {

/// Why a schedule could not be made.
#[derive(Clone, Copy, Debug, PartialEq, Eq, Structural)]
pub enum ScheduleError {
    /// There is no cue to capture.
    EmptyTimeline,
}

/// What to do with a decoded frame.
#[derive(Clone, Copy, Debug, PartialEq, Eq, Structural)]
pub enum ShotAction {
    /// Decoding can stop.
    Stop,
    /// The frame is not needed; decode the next one.
    Wait,
    /// Save this frame as the still of cue `i`.
    Capture(usize),
    /// Cue `i` is done with but lies before the sampling window: no still.
    Pass(usize),
}

/// Midpoints of the cues, the cue waited for, and the sampling window.
pub struct ShotSchedule {
    targets: Vec<u64>,
    next: usize,
    done: bool,
    lo: u64,
    hi: u64,
}

/// The abstract state: midpoints, cue waited for, whether all are done,
/// and the window.
pub struct ShotState {
    pub targets: Seq<u64>,
    pub next: nat,
    pub done: bool,
    pub lo: nat,
    pub hi: nat,
}

impl View for ShotSchedule {
    type V = ShotState;

    closed spec fn view(&self) -> ShotState {
        ShotState {
            targets: self.targets@,
            next: self.next as nat,
            done: self.done,
            lo: self.lo as nat,
            hi: self.hi as nat,
        }
    }
}

/// Midpoint of a cue in milliseconds.
pub open spec fn target_of(d: Dialogue) -> nat {
    Time::of_ms(d.start.ms() + ((d.end.ms() - d.start.ms()) as nat) / 2).ms()
}

impl ShotState {
    /// Waiting for a cue that exists, unless done.
    pub open spec fn wf(self) -> bool {
        self.targets.len() > 0 && (!self.done ==> self.next < self.targets.len())
    }

    /// The action for a frame at `ms` milliseconds, and the state after it.
    pub open spec fn on_frame(self, ms: nat) -> (ShotAction, ShotState) {
        if self.done || ms > self.hi {
            (ShotAction::Stop, self)
        } else if ms <= self.targets[self.next as int] {
            (ShotAction::Wait, self)
        } else {
            let act = if ms > self.lo {
                ShotAction::Capture(self.next as usize)
            } else {
                ShotAction::Pass(self.next as usize)
            };
            if self.next < self.targets.len() - 1 {
                (act, ShotState { next: self.next + 1, ..self })
            } else {
                (act, ShotState { done: true, ..self })
            }
        }
    }
}

impl ShotSchedule {
    /// A schedule for `cues` within the sampling window, waiting for the
    /// first cue.
    pub fn new(cues: &Vec<Dialogue>, sample: Option<u32>) -> (r: Result<ShotSchedule, ScheduleError>)
        requires
            forall|i: int| 0 <= i < cues@.len() ==> (#[trigger] cues@[i]).start.ms() <= cues@[i].end.ms(),
        ensures
            cues@.len() == 0 <==> r == Err::<ShotSchedule, ScheduleError>(ScheduleError::EmptyTimeline),
            r matches Ok(s) ==> {
                &&& s@.wf()
                &&& s@.next == 0
                &&& !s@.done
                &&& s@.lo == window_of(sample).0
                &&& s@.hi == window_of(sample).1
                &&& s@.targets.len() == cues@.len()
                &&& forall|i: int| 0 <= i < cues@.len() ==> s@.targets[i] == target_of(#[trigger] cues@[i])
            },
    {
        if cues.len() == 0 {
            return Err(ScheduleError::EmptyTimeline);
        }
        let mut targets: Vec<u64> = Vec::new();
        let mut i: usize = 0;
        while i < cues.len()
            invariant
                i <= cues.len(),
                targets@.len() == i,
                forall|j: int| 0 <= j < cues@.len() ==> (#[trigger] cues@[j]).start.ms() <= cues@[j].end.ms(),
                forall|j: int| 0 <= j < i ==> targets@[j] == target_of(#[trigger] cues@[j]),
            decreases cues.len() - i,
        {
            let d = &cues[i];
            let half = d.start.half_way(&d.end);
            targets.push(half.milliseconds());
            i += 1;
        }
        let (lo, hi) = sample_range(&sample);
        Ok(ShotSchedule { targets, next: 0, done: false, lo, hi })
    }

    /// Takes a decoded frame with timestamp `timestamp` (milliseconds) and
    /// says what to do with it.
    pub fn on_frame(&mut self, timestamp: u64) -> (r: ShotAction)
        requires
            old(self)@.wf(),
        ensures
            final(self)@.wf(),
            (r, final(self)@) == old(self)@.on_frame(Time::of_ms(timestamp as nat).ms()),
    {
        let ms = Time::from_nanos(timestamp).milliseconds();
        if self.done || ms > self.hi {
            return ShotAction::Stop;
        }
        if ms <= self.targets[self.next] {
            return ShotAction::Wait;
        }
        let act = if ms > self.lo {
            ShotAction::Capture(self.next)
        } else {
            ShotAction::Pass(self.next)
        };
        if self.next < self.targets.len() - 1 {
            self.next = self.next + 1;
        } else {
            self.done = true;
        }
        act
    }

    /// Whether every cue has been dealt with.
    pub fn is_done(&self) -> (r: bool)
        ensures
            r == self@.done,
    {
        self.done
    }
}

/// The file name stem of the still of cue `d`: `folder/prefix_<hms>`.
pub open spec fn snapshot_stem(folder: Seq<char>, prefix: Seq<char>, d: Dialogue) -> Seq<char> {
    folder + seq!['/'] + prefix + seq!['_'] + d.start.hms_text()
}

pub fn snapshot_name(folder: &str, prefix: &str, d: &Dialogue) -> (r: String)
    ensures
        r@ == snapshot_stem(folder@, prefix@, *d),
{
    let mut v: Vec<char> = Vec::new();
    push_str(&mut v, folder);
    v.push('/');
    push_str(&mut v, prefix);
    v.push('_');
    let h = d.start.hms();
    push_str(&mut v, h.as_str());
    proof {
        assert(v@ =~= snapshot_stem(folder@, prefix@, *d));
    }
    string_of(&v)
}

} // verus!
