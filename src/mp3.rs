//! Frame-exact slicing of a compressed audio stream, without decoding it.
//!
//! Durations are counted in ticks of 1/14 112 000 s, the least common
//! multiple of the MPEG audio sample rates, so that every frame at one of
//! those rates lasts a whole number of ticks.

use vstd::prelude::*;
use crate::dialogue::Dialogue;
use crate::text::{push_str, string_of};
use crate::time::{sample_range, window_holds, window_of};

verus! {

/// Ticks in one millisecond.
pub const TICKS_PER_MS: u64 = 14_112;

/// Ticks in one second.
pub const TICKS_PER_SECOND: u64 = 14_112_000;

/// An audio frame as found in the stream: where it starts (any garbage
/// skipped before it included), how many samples per channel it holds and
/// at which rate.
#[derive(Clone, Copy, Debug, PartialEq, Eq, Structural)]
pub struct AudioFrame {
    pub offset: usize,
    pub sample_count: u64,
    pub sample_rate: u32,
}

/// Why a slice could not be cut.
#[derive(Clone, Copy, Debug, PartialEq, Eq, Structural)]
pub enum SliceError {
    /// The window does not end after it starts.
    InvalidWindow,
    /// The buffer holds no audio frame.
    NoFrames,
    /// The stream ends before a boundary of the window is reached.
    BoundaryNotFound,
}

/// Duration of a frame in ticks (none for a frame without a rate).
pub open spec fn frame_ticks(f: AudioFrame) -> nat {
    if f.sample_rate == 0 {
        0
    } else {
        (f.sample_count as nat * 14_112_000) / (f.sample_rate as nat)
    }
}

/// Duration of the first `k` frames, in ticks.
pub open spec fn elapsed(fs: Seq<AudioFrame>, k: int) -> nat
    decreases k,
{
    if k <= 0 {
        0
    } else {
        elapsed(fs, k - 1) + frame_ticks(fs[k - 1])
    }
}

/// Whether the stream has reached `ms` milliseconds by the end of frame `k`.
pub open spec fn reached(fs: Seq<AudioFrame>, k: int, ms: nat) -> bool {
    elapsed(fs, k + 1) >= ms * 14_112
}

/// The first frame from `k` on by whose end the stream reaches `ms`.
pub open spec fn first_reaching(fs: Seq<AudioFrame>, k: int, ms: nat) -> Option<int>
    decreases fs.len() - k,
{
    if k < 0 || k >= fs.len() {
        None
    } else if reached(fs, k, ms) {
        Some(k)
    } else {
        first_reaching(fs, k + 1, ms)
    }
}

/// Offsets of frames strictly increase and lie inside a buffer of `n` bytes.
pub open spec fn frames_wf(fs: Seq<AudioFrame>, n: nat) -> bool {
    &&& forall|i: int| 0 <= i < fs.len() ==> (#[trigger] fs[i]).offset < n
    &&& forall|i: int, j: int| 0 <= i < j < fs.len() ==> (#[trigger] fs[i]).offset < (#[trigger] fs[j]).offset
}

/// The byte range of the window `[start_ms, end_ms)`: from the frame by
/// whose end the stream reaches `start_ms`, up to (not including) the first
/// later frame by whose end it reaches `end_ms`.
pub open spec fn slice_bounds(fs: Seq<AudioFrame>, start_ms: nat, end_ms: nat) -> Result<
    (int, int),
    SliceError,
> {
    if start_ms >= end_ms {
        Err(SliceError::InvalidWindow)
    } else if fs.len() == 0 {
        Err(SliceError::NoFrames)
    } else {
        match first_reaching(fs, 0, start_ms) {
            None => Err(SliceError::BoundaryNotFound),
            Some(i) => match first_reaching(fs, i + 1, end_ms) {
                None => Err(SliceError::BoundaryNotFound),
                Some(j) => Ok((fs[i].offset as int, fs[j].offset as int)),
            },
        }
    }
}

/// The bytes of the window `[start_ms, end_ms)`.
pub open spec fn slice_bytes(b: Seq<u8>, fs: Seq<AudioFrame>, start_ms: nat, end_ms: nat) -> Result<
    Seq<u8>,
    SliceError,
> {
    match slice_bounds(fs, start_ms, end_ms) {
        Ok((s, e)) => Ok(b.subrange(s, e)),
        Err(e) => Err(e),
    }
}

proof fn lemma_first_reaching_range(fs: Seq<AudioFrame>, k: int, ms: nat)
    ensures
        first_reaching(fs, k, ms) matches Some(i) ==> k <= i < fs.len() && reached(fs, i, ms),
    decreases fs.len() - k,
{
    if 0 <= k < fs.len() && !reached(fs, k, ms) {
        lemma_first_reaching_range(fs, k + 1, ms);
    }
}

fn ticks_of(f: &AudioFrame) -> (r: u128)
    ensures
        r == frame_ticks(*f),
        r < 0x100_0000_0000_0000_0000_0000,
{
    if f.sample_rate == 0 {
        0
    } else {
        assert(f.sample_count as u128 * 14_112_000 < 0x100_0000_0000_0000_0000_0000) by (nonlinear_arith)
            requires
                f.sample_count < 0x1_0000_0000_0000_0000,
        ;
        let n = f.sample_count as u128 * TICKS_PER_SECOND as u128;
        let r = n / f.sample_rate as u128;
        assert(r <= n) by (nonlinear_arith)
            requires
                r == n / f.sample_rate as u128,
                f.sample_rate >= 1,
        ;
        r
    }
}

/// Finds the first frame from `k` on by whose end the stream reaches `ms`,
/// given the duration `acc` of the frames before `k`; returns it with the
/// duration up to its end.
fn find_reaching(fs: &Vec<AudioFrame>, k: usize, acc: u128, ms: u64) -> (r: Option<(usize, u128)>)
    requires
        k <= fs.len(),
        acc == elapsed(fs@, k as int),
        acc < 0x10_0000_0000_0000_0000_0000_0000,
    ensures
        match first_reaching(fs@, k as int, ms as nat) {
            Some(i) => r matches Some((ri, racc)) && ri == i && racc == elapsed(fs@, i + 1)
                && racc < acc + 0x800_0000_0000_0000_0000_0000,
            None => r is None,
        },
{
    assert(ms as u128 * 14_112 <= 0xFFFF_FFFF_FFFF_FFFF * 14_112);
    let target: u128 = ms as u128 * TICKS_PER_MS as u128;
    let mut i = k;
    let mut a = acc;
    while i < fs.len()
        invariant
            k <= i <= fs.len(),
            a == elapsed(fs@, i as int),
            a <= acc + 0x4000_0000_0000_0000_0000,
            acc < 0x10_0000_0000_0000_0000_0000_0000,
            target == ms as nat * 14_112,
            first_reaching(fs@, k as int, ms as nat) == first_reaching(fs@, i as int, ms as nat),
        decreases fs.len() - i,
    {
        let t = ticks_of(&fs[i]);
        let next = a + t;
        assert(target < 0x4000_0000_0000_0000_0000);
        if next >= target {
            return Some((i, next));
        }
        a = next;
        i += 1;
    }
    None
}

/// The byte range of the window `[start_ms, end_ms)` in a stream with
/// frames `fs`.
pub fn slice_range(fs: &Vec<AudioFrame>, start_ms: u64, end_ms: u64) -> (r: Result<
    (usize, usize),
    SliceError,
>)
    ensures
        match slice_bounds(fs@, start_ms as nat, end_ms as nat) {
            Ok((s, e)) => r == Ok::<(usize, usize), SliceError>((s as usize, e as usize)),
            Err(e) => r == Err::<(usize, usize), SliceError>(e),
        },
{
    if start_ms >= end_ms {
        return Err(SliceError::InvalidWindow);
    }
    if fs.len() == 0 {
        return Err(SliceError::NoFrames);
    }
    match find_reaching(fs, 0, 0, start_ms) {
        None => Err(SliceError::BoundaryNotFound),
        Some((i, acc)) => {
            proof {
                lemma_first_reaching_range(fs@, 0, start_ms as nat);
            }
            match find_reaching(fs, i + 1, acc, end_ms) {
                None => Err(SliceError::BoundaryNotFound),
                Some((j, _)) => {
                    proof {
                        lemma_first_reaching_range(fs@, i + 1, end_ms as nat);
                    }
                    Ok((fs[i].offset, fs[j].offset))
                },
            }
        },
    }
}

proof fn lemma_first_reaching_from(fs: Seq<AudioFrame>, i: int, k: int, ms: nat)
    requires
        first_reaching(fs, 0, ms) == Some(i),
        0 <= k <= i,
    ensures
        first_reaching(fs, k, ms) == Some(i),
    decreases k,
{
    if k > 0 {
        lemma_first_reaching_from(fs, i, k - 1, ms);
    }
}

proof fn lemma_first_reaching_is(fs: Seq<AudioFrame>, k: int, i: int, ms: nat)
    requires
        0 <= k <= i < fs.len(),
        reached(fs, i, ms),
        forall|m: int| k <= m < i ==> !#[trigger] reached(fs, m, ms),
    ensures
        first_reaching(fs, k, ms) == Some(i),
    decreases i - k,
{
    if k < i {
        lemma_first_reaching_is(fs, k + 1, i, ms);
    }
}

/// Windows that meet at a frame boundary cut adjacent byte ranges: when the
/// frames reaching `s`, `m` and `e` come in that order, the slice for
/// `[s, m)` followed by the slice for `[m, e)` is the slice for `[s, e)`.
pub proof fn lemma_adjacent_slices(b: Seq<u8>, fs: Seq<AudioFrame>, s: nat, m: nat, e: nat)
    requires
        frames_wf(fs, b.len()),
        s < m < e,
        first_reaching(fs, 0, s) matches Some(i1) && first_reaching(fs, 0, m) matches Some(i2)
            && first_reaching(fs, 0, e) matches Some(i3) && i1 < i2 < i3,
    ensures
        slice_bytes(b, fs, s, m) is Ok,
        slice_bytes(b, fs, m, e) is Ok,
        slice_bytes(b, fs, s, e) is Ok,
        slice_bytes(b, fs, s, m)->Ok_0 + slice_bytes(b, fs, m, e)->Ok_0 == slice_bytes(
            b,
            fs,
            s,
            e,
        )->Ok_0,
{
    let i1 = first_reaching(fs, 0, s)->0;
    let i2 = first_reaching(fs, 0, m)->0;
    let i3 = first_reaching(fs, 0, e)->0;
    lemma_first_reaching_range(fs, 0, s);
    lemma_first_reaching_range(fs, 0, m);
    lemma_first_reaching_range(fs, 0, e);
    lemma_first_reaching_from(fs, i2, i1 + 1, m);
    lemma_first_reaching_from(fs, i3, i2 + 1, e);
    lemma_first_reaching_from(fs, i3, i1 + 1, e);
    let o1 = fs[i1].offset as int;
    let o2 = fs[i2].offset as int;
    let o3 = fs[i3].offset as int;
    assert(o1 < o2 < o3 <= b.len());
    assert(b.subrange(o1, o2) + b.subrange(o2, o3) =~= b.subrange(o1, o3));
}

proof fn lemma_uniform_elapsed(fs: Seq<AudioFrame>, d: nat, k: int)
    requires
        0 <= k <= fs.len(),
        forall|i: int| 0 <= i < fs.len() ==> #[trigger] frame_ticks(fs[i]) == d,
    ensures
        elapsed(fs, k) == k * d,
    decreases k,
{
    if k > 0 {
        lemma_uniform_elapsed(fs, d, k - 1);
        assert(frame_ticks(fs[k - 1]) == d);
        assert((k - 1) * d + d == k * d) by (nonlinear_arith);
    } else {
        assert(k * d == 0) by (nonlinear_arith)
            requires
                k == 0,
        ;
    }
}

proof fn lemma_scaled_order(x: int, y: int, d: int)
    requires
        d > 0,
    ensures
        x * d >= y * d <==> x >= y,
{
    if x >= y {
        assert(x * d >= y * d) by (nonlinear_arith)
            requires
                x >= y,
                d > 0,
        ;
    } else {
        assert(x * d < y * d) by (nonlinear_arith)
            requires
                x < y,
                d > 0,
        ;
    }
}

/// In a stream of frames of equal duration `d` ticks, a window whose ends
/// fall on frame boundaries `a * d` and `bb * d` is cut exactly at the
/// frames whose cumulative duration lies in `[start_ms, end_ms)`.
pub proof fn lemma_aligned_window(fs: Seq<AudioFrame>, d: nat, a: nat, bb: nat, start_ms: nat, end_ms: nat)
    requires
        d > 0,
        forall|i: int| 0 <= i < fs.len() ==> #[trigger] frame_ticks(fs[i]) == d,
        start_ms * 14_112 == a * d,
        end_ms * 14_112 == bb * d,
        a < bb <= fs.len(),
        a >= 1 || bb >= 2,
    ensures
        ({
            let lo = if a == 0 {
                0
            } else {
                a - 1
            };
            &&& slice_bounds(fs, start_ms, end_ms) == Ok::<(int, int), SliceError>(
                (fs[lo].offset as int, fs[bb - 1].offset as int),
            )
            &&& forall|k: int|
                0 <= k < fs.len() ==> (lo <= k < bb - 1 <==> start_ms * 14_112 <= #[trigger] elapsed(
                    fs,
                    k + 1,
                ) < end_ms * 14_112)
        }),
{
    let lo: int = if a == 0 {
        0
    } else {
        a - 1
    };
    assert forall|k: int| 0 <= k < fs.len() implies (reached(fs, k, start_ms) <==> k + 1 >= a) && (
    reached(fs, k, end_ms) <==> k + 1 >= bb) && elapsed(fs, k + 1) == (k + 1) * d by {
        lemma_uniform_elapsed(fs, d, k + 1);
        lemma_scaled_order(k + 1, a as int, d as int);
        lemma_scaled_order(k + 1, bb as int, d as int);
    }
    assert(start_ms < end_ms) by {
        lemma_scaled_order(a as int, bb as int, d as int);
    }
    lemma_first_reaching_is(fs, 0, lo, start_ms);
    lemma_first_reaching_is(fs, lo + 1, bb - 1, end_ms);
    assert forall|k: int|
        0 <= k < fs.len() implies (lo <= k < bb - 1 <==> start_ms * 14_112 <= #[trigger] elapsed(
        fs,
        k + 1,
    ) < end_ms * 14_112) by {
        lemma_uniform_elapsed(fs, d, k + 1);
        lemma_scaled_order(k + 1, a as int, d as int);
        lemma_scaled_order(k + 1, bb as int, d as int);
    }
}

/// A frame as the decoder reports it while walking the stream: where it
/// starts (garbage before it included), whether it holds audio, and for
/// audio its sample count per channel and sample rate.
#[derive(Clone, Copy, Debug, PartialEq, Eq, Structural)]
pub struct RawFrame {
    pub offset: usize,
    pub audio: bool,
    pub sample_count: u64,
    pub sample_rate: u32,
}

/// The frames that rmp3's decoder reports, in order, when it walks the
/// bytes `b` from the start.
pub uninterp spec fn mp3_frames(b: Seq<u8>) -> Seq<RawFrame>;

/// Offsets strictly increase and lie inside a buffer of `n` bytes.
pub open spec fn raw_wf(fs: Seq<RawFrame>, n: nat) -> bool {
    &&& forall|i: int| 0 <= i < fs.len() ==> (#[trigger] fs[i]).offset < n
    &&& forall|i: int, j: int| 0 <= i < j < fs.len() ==> (#[trigger] fs[i]).offset < (#[trigger] fs[j]).offset
}

/// The audio frames among `fs`, in order.
pub open spec fn audio_frames(fs: Seq<RawFrame>) -> Seq<AudioFrame>
    decreases fs.len(),
{
    if fs.len() == 0 {
        Seq::empty()
    } else if fs.last().audio {
        audio_frames(fs.drop_last()).push(
            AudioFrame {
                offset: fs.last().offset,
                sample_count: fs.last().sample_count,
                sample_rate: fs.last().sample_rate,
            },
        )
    } else {
        audio_frames(fs.drop_last())
    }
}

/// Relies on `rmp3::Decoder`: from a new decoder, `peek` reports the next
/// frame without decoding it (`None` once the input is used up), `position`
/// is the offset it stands at, and `skip` moves past the frame just peeked,
/// which takes up at least one byte. The walk depends on the bytes alone.
#[verifier::external_body]
fn walk_frames(b: &[u8]) -> (r: Vec<RawFrame>)
    ensures
        r@ == mp3_frames(b@),
        raw_wf(r@, b@.len()),
{
    let mut d = rmp3::Decoder::new(b);
    let mut r = Vec::new();
    while let Some(f) = d.peek() {
        let (audio, sample_count, sample_rate) = match f {
            rmp3::Frame::Audio(a) => (true, a.sample_count() as u64, a.sample_rate()),
            rmp3::Frame::Other(_) => (false, 0, 0),
        };
        r.push(RawFrame { offset: d.position(), audio, sample_count, sample_rate });
        d.skip();
    }
    r
}

/// Keeps the audio frames of `fs`.
pub fn keep_audio(fs: &Vec<RawFrame>, n: usize) -> (r: Vec<AudioFrame>)
    requires
        raw_wf(fs@, n as nat),
    ensures
        r@ == audio_frames(fs@),
        frames_wf(r@, n as nat),
{
    let mut r: Vec<AudioFrame> = Vec::new();
    let mut i: usize = 0;
    while i < fs.len()
        invariant
            i <= fs.len(),
            raw_wf(fs@, n as nat),
            r@ == audio_frames(fs@.take(i as int)),
            frames_wf(r@, n as nat),
            i < fs.len() ==> forall|k: int| 0 <= k < r.len() ==> (#[trigger] r@[k]).offset < fs@[i as int].offset,
        decreases fs.len() - i,
    {
        let f = fs[i];
        proof {
            assert(fs@.take(i + 1).drop_last() =~= fs@.take(i as int));
            assert(fs@.take(i + 1).last() == f);
        }
        if f.audio {
            r.push(AudioFrame { offset: f.offset, sample_count: f.sample_count, sample_rate: f.sample_rate });
        }
        i += 1;
        proof {
            if i < fs.len() {
                assert(fs@[i - 1].offset < fs@[i as int].offset);
            }
        }
    }
    proof {
        assert(fs@.take(i as int) =~= fs@);
    }
    r
}

/// The bytes of a result, or its error.
pub open spec fn bytes_view(r: Result<Vec<u8>, SliceError>) -> Result<Seq<u8>, SliceError> {
    match r {
        Ok(v) => Ok(v@),
        Err(e) => Err(e),
    }
}

/// Cuts the window `[start_ms, end_ms)` out of `bytes`, whose frames are `fs`.
pub fn slice_frames(bytes: &Vec<u8>, fs: &Vec<AudioFrame>, start_ms: u64, end_ms: u64) -> (r:
    Result<Vec<u8>, SliceError>)
    requires
        frames_wf(fs@, bytes@.len()),
    ensures
        bytes_view(r) == slice_bytes(bytes@, fs@, start_ms as nat, end_ms as nat),
{
    match slice_range(fs, start_ms, end_ms) {
        Err(e) => Err(e),
        Ok((s, e)) => {
            proof {
                lemma_first_reaching_range(fs@, 0, start_ms as nat);
                let i = first_reaching(fs@, 0, start_ms as nat)->0;
                lemma_first_reaching_range(fs@, i + 1, end_ms as nat);
            }
            let mut out: Vec<u8> = Vec::new();
            let mut k = s;
            while k < e
                invariant
                    s <= k <= e <= bytes@.len(),
                    out@ == bytes@.subrange(s as int, k as int),
                decreases e - k,
            {
                out.push(bytes[k]);
                k += 1;
                proof {
                    assert(out@ =~= bytes@.subrange(s as int, k as int));
                }
            }
            Ok(out)
        },
    }
}

/// A compressed audio file held in memory.
pub struct Mp3 {
    bytes: Vec<u8>,
}

impl View for Mp3 {
    type V = Seq<u8>;

    closed spec fn view(&self) -> Seq<u8> {
        self.bytes@
    }
}

impl Mp3 {
    pub fn new(bytes: Vec<u8>) -> (r: Mp3)
        ensures
            r@ == bytes@,
    {
        Mp3 { bytes }
    }

    pub fn bytes(&self) -> (r: &Vec<u8>)
        ensures
            r@ == self@,
    {
        &self.bytes
    }

    /// Walks the stream from its start and lists its audio frames.
    pub fn frames(&self) -> (r: Vec<AudioFrame>)
        ensures
            r@ == audio_frames(mp3_frames(self@)),
            frames_wf(r@, self@.len()),
    {
        let raw = walk_frames(self.bytes.as_slice());
        keep_audio(&raw, self.bytes.len())
    }

    /// Cuts the window `[start_ms, end_ms)` out of the stream, walking its
    /// frames anew.
    pub fn slice(&self, start_ms: u64, end_ms: u64) -> (r: Result<Vec<u8>, SliceError>)
        ensures
            bytes_view(r) == slice_bytes(
                self@,
                audio_frames(mp3_frames(self@)),
                start_ms as nat,
                end_ms as nat,
            ),
    {
        let fs = self.frames();
        slice_frames(&self.bytes, &fs, start_ms, end_ms)
    }
}

/// How the name of a clip is formed: from the cue's start alone, or from
/// its start and end.
#[derive(Clone, Copy, Debug, PartialEq, Eq, Structural)]
pub enum AudioSuffix {
    StartTime,
    EndTime,
}

/// An audio clip cut for one cue, with the file name it is meant for.
pub struct SoundClip {
    pub name: String,
    pub bytes: Vec<u8>,
}

/// `folder/prefix_<start>.mp3`, or `folder/prefix_<start>-<end>.mp3`, with
/// times in their dotted rendering.
pub open spec fn clip_name(folder: Seq<char>, prefix: Seq<char>, d: Dialogue, suffix: AudioSuffix) -> Seq<char> {
    let stem = folder + seq!['/'] + prefix + seq!['_'] + d.start.joined_text('.', '.');
    let tail = seq!['.', 'm', 'p', '3'];
    match suffix {
        AudioSuffix::StartTime => stem + tail,
        AudioSuffix::EndTime => stem + seq!['-'] + d.end.joined_text('.', '.') + tail,
    }
}

fn make_clip_name(folder: &str, prefix: &str, d: &Dialogue, suffix: AudioSuffix) -> (r: String)
    ensures
        r@ == clip_name(folder@, prefix@, *d, suffix),
{
    let mut v: Vec<char> = Vec::new();
    push_str(&mut v, folder);
    v.push('/');
    push_str(&mut v, prefix);
    v.push('_');
    d.start.push_dot(&mut v);
    match suffix {
        AudioSuffix::StartTime => {},
        AudioSuffix::EndTime => {
            v.push('-');
            d.end.push_dot(&mut v);
        },
    }
    v.push('.');
    v.push('m');
    v.push('p');
    v.push('3');
    proof {
        assert(v@ =~= clip_name(folder@, prefix@, *d, suffix));
    }
    string_of(&v)
}

/// The clips for the first `k` cues, or the error of the first cue whose
/// window could not be cut. Cues starting outside `[lo, hi]` get no clip.
pub open spec fn clips_upto(
    b: Seq<u8>,
    fs: Seq<AudioFrame>,
    folder: Seq<char>,
    prefix: Seq<char>,
    subs: Seq<Dialogue>,
    suffix: AudioSuffix,
    lo: nat,
    hi: nat,
    k: int,
) -> Result<Seq<(Seq<char>, Seq<u8>)>, SliceError>
    decreases k,
{
    if k <= 0 {
        Ok(Seq::empty())
    } else {
        clip_step(
            clips_upto(b, fs, folder, prefix, subs, suffix, lo, hi, k - 1),
            b,
            fs,
            folder,
            prefix,
            subs[k - 1],
            suffix,
            lo,
            hi,
        )
    }
}

/// The clips so far, extended by the clip for cue `d`.
pub open spec fn clip_step(
    prev: Result<Seq<(Seq<char>, Seq<u8>)>, SliceError>,
    b: Seq<u8>,
    fs: Seq<AudioFrame>,
    folder: Seq<char>,
    prefix: Seq<char>,
    d: Dialogue,
    suffix: AudioSuffix,
    lo: nat,
    hi: nat,
) -> Result<Seq<(Seq<char>, Seq<u8>)>, SliceError> {
    match prev {
        Err(e) => Err(e),
        Ok(v) => if !window_holds(d.start.ms(), lo, hi) {
            Ok(v)
        } else {
            match slice_bytes(b, fs, d.start.ms(), d.end.ms()) {
                Ok(x) => Ok(v.push((clip_name(folder, prefix, d, suffix), x))),
                Err(e) => Err(e),
            }
        },
    }
}

proof fn lemma_clips_error_stays(
    b: Seq<u8>,
    fs: Seq<AudioFrame>,
    folder: Seq<char>,
    prefix: Seq<char>,
    subs: Seq<Dialogue>,
    suffix: AudioSuffix,
    lo: nat,
    hi: nat,
    k: int,
    m: int,
)
    requires
        0 < k <= m,
        clips_upto(b, fs, folder, prefix, subs, suffix, lo, hi, k) is Err,
    ensures
        clips_upto(b, fs, folder, prefix, subs, suffix, lo, hi, m) == clips_upto(
            b,
            fs,
            folder,
            prefix,
            subs,
            suffix,
            lo,
            hi,
            k,
        ),
    decreases m - k,
{
    if k < m {
        lemma_clips_error_stays(b, fs, folder, prefix, subs, suffix, lo, hi, k, m - 1);
    }
}

/// Names and bytes of the clips of a result, or its error.
pub open spec fn clips_view(r: Result<Vec<SoundClip>, SliceError>) -> Result<
    Seq<(Seq<char>, Seq<u8>)>,
    SliceError,
> {
    match r {
        Ok(v) => Ok(clip_views(v@)),
        Err(e) => Err(e),
    }
}

/// Names and bytes of clips.
pub open spec fn clip_views(v: Seq<SoundClip>) -> Seq<(Seq<char>, Seq<u8>)> {
    v.map_values(|c: SoundClip| (c.name@, c.bytes@))
}

/// Cuts one clip per cue of `subtitles` that starts inside the sampling
/// window, out of `bytes` whose frames are `fs`.
pub fn clips_from_frames(
    bytes: &Vec<u8>,
    fs: &Vec<AudioFrame>,
    folder: &str,
    prefix: &str,
    subtitles: &Vec<Dialogue>,
    suffix: AudioSuffix,
    sample: Option<u32>,
) -> (r: Result<Vec<SoundClip>, SliceError>)
    requires
        frames_wf(fs@, bytes@.len()),
    ensures
        clips_view(r) == clips_upto(
            bytes@,
            fs@,
            folder@,
            prefix@,
            subtitles@,
            suffix,
            window_of(sample).0,
            window_of(sample).1,
            subtitles@.len() as int,
        ),
{
    let (start, end) = sample_range(&sample);
    let ghost lo = start as nat;
    let ghost hi = end as nat;
    let mut clips: Vec<SoundClip> = Vec::new();
    let mut i: usize = 0;
    proof {
        assert(clip_views(clips@) =~= Seq::<(Seq<char>, Seq<u8>)>::empty());
    }
    while i < subtitles.len()
        invariant
            i <= subtitles.len(),
            frames_wf(fs@, bytes@.len()),
            clips_upto(bytes@, fs@, folder@, prefix@, subtitles@, suffix, lo, hi, i as int) == Ok::<
                Seq<(Seq<char>, Seq<u8>)>,
                SliceError,
            >(clip_views(clips@)),
            lo == start as nat,
            hi == end as nat,
            lo == window_of(sample).0,
            hi == window_of(sample).1,
        decreases subtitles.len() - i,
    {
        let d = &subtitles[i];
        let s = d.start.milliseconds();
        proof {
            assert(subtitles@[i as int] == *d);
            assert(d.start.ms() == s as nat);
        }
        if s < start || s > end {
            i += 1;
            continue;
        }
        let name = make_clip_name(folder, prefix, d, suffix);
        match slice_frames(bytes, fs, s, d.end.milliseconds()) {
            Err(e) => {
                proof {
                    assert(slice_bytes(bytes@, fs@, d.start.ms(), d.end.ms()) == Err::<Seq<u8>, SliceError>(e));
                    assert(clips_upto(bytes@, fs@, folder@, prefix@, subtitles@, suffix, lo, hi, i + 1) == Err::<Seq<(Seq<char>, Seq<u8>)>, SliceError>(e));
                    lemma_clips_error_stays(bytes@, fs@, folder@, prefix@, subtitles@, suffix, lo, hi, i + 1, subtitles@.len() as int);
                }
                return Err(e);
            },
            Ok(b) => {
                let ghost before = clip_views(clips@);
                let clip = SoundClip { name, bytes: b };
                clips.push(clip);
                proof {
                    assert(clip_views(clips@) =~= before.push((clip.name@, clip.bytes@)));
                }
            },
        }
        i += 1;
    }
    Ok(clips)
}

/// Cuts one clip per cue of `subtitles` that starts inside the sampling
/// window; the stream's frames are walked once for the whole batch.
pub fn extract_sound_clips(
    audio: &Mp3,
    folder: &str,
    prefix: &str,
    subtitles: &Vec<Dialogue>,
    suffix: AudioSuffix,
    sample: Option<u32>,
) -> (r: Result<Vec<SoundClip>, SliceError>)
    ensures
        clips_view(r) == clips_upto(
            audio@,
            audio_frames(mp3_frames(audio@)),
            folder@,
            prefix@,
            subtitles@,
            suffix,
            window_of(sample).0,
            window_of(sample).1,
            subtitles@.len() as int,
        ),
{
    let fs = audio.frames();
    clips_from_frames(audio.bytes(), &fs, folder, prefix, subtitles, suffix, sample)
}

} // verus!
