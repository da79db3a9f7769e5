//! Millisecond-resolution timestamps.

use vstd::prelude::*;
use vstd::std_specs::cmp::PartialOrdSpec;
use crate::text::{decimal, pad2, pad3, push_decimal, push_pad2, push_pad3, string_of};
use vstd::arithmetic::div_mod::{
    lemma_div_denominator, lemma_fundamental_div_mod, lemma_fundamental_div_mod_converse,
    lemma_small_mod,
};

verus! {

/// Milliseconds in one hour.
pub const MS_PER_HOUR: u64 = 3_600_000;

/// Milliseconds in one minute.
pub const MS_PER_MINUTE: u64 = 60_000;

/// The hour field holds a `u8`, so canonical times stay below 256 hours.
pub const MS_RANGE: u64 = 921_600_000;

/// A timestamp with millisecond resolution.
///
/// Ordering is by the total number of milliseconds; equality compares the
/// fields, which agrees with the ordering on canonical values.
#[derive(Clone, Copy, Debug, PartialEq, Eq, Structural)]
pub struct Time {
    pub hour: u8,
    pub min: u8,
    pub sec: u8,
    pub mil: u16,
}

impl Time {
    /// Total milliseconds denoted by the fields.
    pub open spec fn ms(self) -> nat {
        (((self.hour as nat) * 60 + self.min as nat) * 60 + self.sec as nat) * 1000
            + self.mil as nat
    }

    /// Every sub-field lies within its unit.
    pub open spec fn canonical(self) -> bool {
        self.min < 60 && self.sec < 60 && self.mil < 1000
    }

    /// The canonical time for a number of milliseconds; hours beyond the
    /// range of the hour field wrap around.
    pub open spec fn of_ms(ms: nat) -> Time {
        Time {
            hour: (ms / 3_600_000 % 256) as u8,
            min: (ms / 60_000 % 60) as u8,
            sec: (ms / 1000 % 60) as u8,
            mil: (ms % 1000) as u16,
        }
    }

    /// Builds the canonical time for `nanos` milliseconds.
    pub fn from_nanos(nanos: u64) -> (t: Time)
        ensures
            t == Time::of_ms(nanos as nat),
            t.canonical(),
            t.ms() == nanos % MS_RANGE,
    {
        let t = Time {
            hour: (nanos / MS_PER_HOUR % 256) as u8,
            min: (nanos / MS_PER_MINUTE % 60) as u8,
            sec: (nanos / 1000 % 60) as u8,
            mil: (nanos % 1000) as u16,
        };
        proof {
            lemma_of_ms_total(nanos as nat);
        }
        t
    }

    /// Total milliseconds, the key of the ordering.
    pub fn milliseconds(&self) -> (r: u64)
        ensures
            r == self.ms(),
    {
        ((self.hour as u64 * 60 + self.min as u64) * 60 + self.sec as u64) * 1000 + self.mil as u64
    }

    /// The time half way between `self` and a time not before it, rounded
    /// down to the millisecond.
    pub fn half_way(&self, later: &Time) -> (t: Time)
        requires
            self.ms() <= later.ms(),
        ensures
            t == Time::of_ms(self.ms() + ((later.ms() - self.ms()) as nat) / 2),
            t.canonical(),
    {
        let a = self.milliseconds();
        let b = later.milliseconds();
        let half = a + (b - a) / 2;
        Time::from_nanos(half)
    }

    /// Hours, minutes and seconds run together: `h` `mm` `ss`.
    pub open spec fn hms_text(self) -> Seq<char> {
        decimal(self.hour as nat) + pad2(self.min as nat) + pad2(self.sec as nat)
    }

    /// The fields joined by `sep`: `h` `mm` `ss` `mmm`, with `frac_sep`
    /// before the milliseconds.
    pub open spec fn joined_text(self, sep: char, frac_sep: char) -> Seq<char> {
        decimal(self.hour as nat) + seq![sep] + pad2(self.min as nat) + seq![sep] + pad2(
            self.sec as nat,
        ) + seq![frac_sep] + pad3(self.mil as nat)
    }

    fn render_joined(&self, sep: char, frac_sep: char) -> (r: Vec<char>)
        ensures
            r@ == self.joined_text(sep, frac_sep),
    {
        let mut v: Vec<char> = Vec::new();
        push_decimal(&mut v, self.hour as u64);
        v.push(sep);
        push_pad2(&mut v, self.min as u64);
        v.push(sep);
        push_pad2(&mut v, self.sec as u64);
        v.push(frac_sep);
        push_pad3(&mut v, self.mil as u64);
        proof {
            assert(v@ =~= self.joined_text(sep, frac_sep));
        }
        v
    }

    /// Compact rendering `hmmss`, as used in image file names.
    pub fn hms(&self) -> (r: String)
        ensures
            r@ == self.hms_text(),
    {
        let mut v: Vec<char> = Vec::new();
        push_decimal(&mut v, self.hour as u64);
        push_pad2(&mut v, self.min as u64);
        push_pad2(&mut v, self.sec as u64);
        proof {
            assert(v@ =~= self.hms_text());
        }
        string_of(&v)
    }

    /// Rendering `h:mm:ss.mmm`, as taken by a media tool's time argument.
    pub fn colon(&self) -> (r: String)
        ensures
            r@ == self.joined_text(':', '.'),
    {
        let v = self.render_joined(':', '.');
        string_of(&v)
    }

    /// File-name-safe rendering `h.mm.ss.mmm`.
    pub fn dot(&self) -> (r: String)
        ensures
            r@ == self.joined_text('.', '.'),
    {
        let v = self.render_joined('.', '.');
        string_of(&v)
    }

    /// Appends the file-name-safe rendering.
    pub fn push_dot(&self, out: &mut Vec<char>)
        ensures
            final(out)@ == old(out)@ + self.joined_text('.', '.'),
    {
        let v = self.render_joined('.', '.');
        crate::text::push_all(out, &v);
    }
}

impl PartialOrd for Time {
    fn partial_cmp(&self, other: &Time) -> (r: Option<core::cmp::Ordering>) {
        let a = self.milliseconds();
        let b = other.milliseconds();
        if a < b {
            Some(core::cmp::Ordering::Less)
        } else if a > b {
            Some(core::cmp::Ordering::Greater)
        } else {
            Some(core::cmp::Ordering::Equal)
        }
    }
}

impl vstd::std_specs::cmp::PartialOrdSpecImpl for Time {
    open spec fn obeys_partial_cmp_spec() -> bool {
        true
    }

    open spec fn partial_cmp_spec(&self, other: &Time) -> Option<core::cmp::Ordering> {
        if self.ms() < other.ms() {
            Some(core::cmp::Ordering::Less)
        } else if self.ms() > other.ms() {
            Some(core::cmp::Ordering::Greater)
        } else {
            Some(core::cmp::Ordering::Equal)
        }
    }
}

/// A canonical time survives the trip through its millisecond count.
pub proof fn lemma_round_trip(t: Time)
    requires
        t.canonical(),
    ensures
        Time::of_ms(t.ms()) == t,
{
    let x = t.ms() as int;
    let s = (t.hour as int * 60 + t.min as int) * 60 + t.sec as int;
    let m = t.hour as int * 60 + t.min as int;
    lemma_fundamental_div_mod_converse(x, 1000, s, t.mil as int);
    lemma_fundamental_div_mod_converse(s, 60, m, t.sec as int);
    lemma_fundamental_div_mod_converse(m, 60, t.hour as int, t.min as int);
    lemma_fundamental_div_mod_converse(t.hour as int, 256, 0, t.hour as int);
    lemma_div_denominator(x, 1000, 60);
    lemma_div_denominator(x, 60000, 60);
}

/// Times built from millisecond counts are ordered as their counts are,
/// and, below the range of the hour field, as the counts given.
pub proof fn lemma_order_of_counts(x: u64, y: u64)
    ensures
        (Time::of_ms(x as nat).partial_cmp_spec(&Time::of_ms(y as nat)) == Some(
            core::cmp::Ordering::Less)) <==> (Time::of_ms(x as nat).ms() < Time::of_ms(
            y as nat,
        ).ms()),
        x < MS_RANGE && y < MS_RANGE ==> ((Time::of_ms(x as nat).partial_cmp_spec(
            &Time::of_ms(y as nat),
        ) == Some(core::cmp::Ordering::Less)) <==> x < y),
{
    lemma_of_ms_total(x as nat);
    lemma_of_ms_total(y as nat);
}

/// The midpoint lies `(b - a) / 2` milliseconds after `a`, for every `b`
/// below the range of the hour field (every canonical time is).
pub proof fn lemma_midpoint(a: Time, b: Time)
    requires
        a.ms() <= b.ms(),
        b.ms() < MS_RANGE,
    ensures
        Time::of_ms(a.ms() + ((b.ms() - a.ms()) as nat) / 2).ms() == a.ms() + ((b.ms()
            - a.ms()) as nat) / 2,
{
    let h = a.ms() + ((b.ms() - a.ms()) as nat) / 2;
    lemma_of_ms_total(h);
    lemma_small_mod(h, 921_600_000);
}

/// Every canonical time lies below the range of the hour field.
pub proof fn lemma_canonical_in_range(t: Time)
    requires
        t.canonical(),
    ensures
        t.ms() < MS_RANGE,
{
    assert(t.ms() < 921_600_000) by (nonlinear_arith)
        requires
            t.min < 60 && t.sec < 60 && t.mil < 1000 && t.hour < 256,
            t.ms() == (((t.hour as nat) * 60 + t.min as nat) * 60 + t.sec as nat) * 1000
                + t.mil as nat,
    ;
}

/// The total milliseconds of the canonical time for `ms`.
pub proof fn lemma_of_ms_total(ms: nat)
    ensures
        Time::of_ms(ms).ms() == ms % 921_600_000,
        Time::of_ms(ms).canonical(),
{
    let x = ms as int;
    let s = x / 1000;
    let m = s / 60;
    let h = m / 60;
    let q = h / 256;
    lemma_fundamental_div_mod(x, 1000);
    lemma_fundamental_div_mod(s, 60);
    lemma_fundamental_div_mod(m, 60);
    lemma_fundamental_div_mod(h, 256);
    let r1 = 1000 * (s % 60) + x % 1000;
    assert(x == m * 60000 + r1 && 0 <= r1 < 60000) by (nonlinear_arith)
        requires
            x == 1000 * s + x % 1000,
            s == 60 * m + s % 60,
            0 <= x % 1000 < 1000,
            0 <= s % 60 < 60,
            r1 == 1000 * (s % 60) + x % 1000,
    ;
    lemma_fundamental_div_mod_converse(x, 60000, m, r1);
    let r2 = 60000 * (m % 60) + r1;
    assert(x == h * 3600000 + r2 && 0 <= r2 < 3600000) by (nonlinear_arith)
        requires
            x == m * 60000 + r1,
            m == 60 * h + m % 60,
            0 <= m % 60 < 60,
            0 <= r1 < 60000,
            r2 == 60000 * (m % 60) + r1,
    ;
    lemma_fundamental_div_mod_converse(x, 3600000, h, r2);
    let r3 = 3600000 * (h % 256) + r2;
    assert(x == q * 921600000 + r3 && 0 <= r3 < 921600000) by (nonlinear_arith)
        requires
            x == h * 3600000 + r2,
            h == 256 * q + h % 256,
            0 <= h % 256 < 256,
            0 <= r2 < 3600000,
            r3 == 3600000 * (h % 256) + r2,
    ;
    lemma_fundamental_div_mod_converse(x, 921600000, q, r3);
}

/// Whether a cue starting at `start_ms` takes part in the window `[lo, hi]`.
pub open spec fn window_holds(start_ms: nat, lo: nat, hi: nat) -> bool {
    lo <= start_ms && start_ms <= hi
}

/// The window of milliseconds a sampling run covers: five minutes from the
/// given minute, or everything.
pub open spec fn window_of(sample: Option<u32>) -> (nat, nat) {
    match sample {
        Some(m) => (m as nat * 60_000, m as nat * 60_000 + 300_000),
        None => (0, u64::MAX as nat),
    }
}

/// The window of milliseconds a sampling run covers.
pub fn sample_range(sample: &Option<u32>) -> (r: (u64, u64))
    ensures
        r.0 as nat == window_of(*sample).0,
        r.1 as nat == window_of(*sample).1,
{
    match sample {
        Some(m) => {
            let start = *m as u64 * MS_PER_MINUTE;
            (start, start + 300_000)
        },
        None => (0, u64::MAX),
    }
}

} // verus!
