//! The tab-separated study deck: one row per primary cue, with the media
//! file names derived from its times and the text of the matching cues of
//! the secondary track.

use vstd::prelude::*;
use crate::dialogue::{find_secondary_matches, matches_primary, Dialogue};
use crate::mp3::AudioSuffix;
use crate::text::{push_all, push_str, string_of};
use crate::time::Time;

verus! {

/// `s` with every line feed, and every `\N` or `\n` marker, turned into a
/// single space.
pub open spec fn flatten_breaks(s: Seq<char>) -> Seq<char>
    decreases s.len(),
{
    if s.len() == 0 {
        Seq::empty()
    } else if s[0] == '\n' {
        seq![' '] + flatten_breaks(s.drop_first())
    } else if s.len() >= 2 && s[0] == '\\' && (s[1] == 'N' || s[1] == 'n') {
        seq![' '] + flatten_breaks(s.subrange(2, s.len() as int))
    } else {
        seq![s[0]] + flatten_breaks(s.drop_first())
    }
}

/// The texts of `ds`, joined by single spaces.
pub open spec fn join_texts(ds: Seq<Dialogue>) -> Seq<char>
    decreases ds.len(),
{
    if ds.len() == 0 {
        Seq::empty()
    } else if ds.len() == 1 {
        ds[0].text@
    } else {
        join_texts(ds.drop_last()) + seq![' '] + ds.last().text@
    }
}

/// The time that names the row's note and image.
pub open spec fn row_time(d: Dialogue, suffix: AudioSuffix) -> Time {
    match suffix {
        AudioSuffix::StartTime => d.start,
        AudioSuffix::EndTime => Time::of_ms(d.start.ms() + ((d.end.ms() - d.start.ms()) as nat) / 2),
    }
}

/// The sound reference `[sound:prefix_<start>.mp3]`, or
/// `[sound:prefix_<start>-<end>.mp3]`.
pub open spec fn sound_ref(prefix: Seq<char>, d: Dialogue, suffix: AudioSuffix) -> Seq<char> {
    let head = seq!['[', 's', 'o', 'u', 'n', 'd', ':'] + prefix + seq!['_'] + d.start.joined_text('.', '.');
    let tail = seq!['.', 'm', 'p', '3', ']'];
    match suffix {
        AudioSuffix::StartTime => head + tail,
        AudioSuffix::EndTime => head + seq!['-'] + d.end.joined_text('.', '.') + tail,
    }
}

/// The image reference `<img src="prefix_<hms>.jpg">`.
pub open spec fn image_ref(prefix: Seq<char>, t: Time) -> Seq<char> {
    seq!['<', 'i', 'm', 'g', ' ', 's', 'r', 'c', '=', '"'] + prefix + seq!['_'] + t.hms_text() + seq![
        '.',
        'j',
        'p',
        'g',
        '"',
        '>',
    ]
}

/// One row: prefix, note id, sound, image, text, matching secondary text,
/// separated by tabs.
pub open spec fn tsv_row(prefix: Seq<char>, d: Dialogue, secondary: Seq<Dialogue>, suffix: AudioSuffix) -> Seq<char> {
    let t = row_time(d, suffix);
    row_head(prefix, t) + sound_ref(prefix, d, suffix) + seq!['\t'] + image_ref(prefix, t) + seq![
        '\t',
    ] + row_texts(d, secondary)
}

/// Prefix and note id, each followed by a tab.
pub open spec fn row_head(prefix: Seq<char>, t: Time) -> Seq<char> {
    prefix + seq!['\t'] + prefix + seq!['_'] + t.joined_text('.', '.') + seq!['\t']
}

/// The cue's text and the matching secondary text, with a tab between.
pub open spec fn row_texts(d: Dialogue, secondary: Seq<Dialogue>) -> Seq<char> {
    flatten_breaks(d.text@) + seq!['\t'] + flatten_breaks(
        join_texts(secondary.filter(|s: Dialogue| matches_primary(d, s))),
    )
}

/// The rows for the first `k` primary cues, each ended by a line feed.
pub open spec fn tsv_upto(
    prefix: Seq<char>,
    primary: Seq<Dialogue>,
    secondary: Seq<Dialogue>,
    suffix: AudioSuffix,
    k: int,
) -> Seq<char>
    decreases k,
{
    if k <= 0 {
        Seq::empty()
    } else {
        tsv_upto(prefix, primary, secondary, suffix, k - 1) + tsv_row(
            prefix,
            primary[k - 1],
            secondary,
            suffix,
        ) + seq!['\n']
    }
}

/// Appends `s` with its line breaks flattened.
fn push_flattened(out: &mut Vec<char>, s: &Vec<char>)
    ensures
        final(out)@ == old(out)@ + flatten_breaks(s@),
{
    let ghost start = out@;
    let n = s.len();
    let mut i: usize = 0;
    proof {
        assert(s@.subrange(0, n as int) =~= s@);
    }
    while i < n
        invariant
            i <= n == s@.len(),
            start + flatten_breaks(s@) == out@ + flatten_breaks(s@.subrange(i as int, n as int)),
        decreases n - i,
    {
        let ghost rest = s@.subrange(i as int, n as int);
        if s[i] == '\n' {
            out.push(' ');
            proof {
                assert(rest.drop_first() =~= s@.subrange(i + 1, n as int));
            }
            i += 1;
        } else if n - i >= 2 && s[i] == '\\' && (s[i + 1] == 'N' || s[i + 1] == 'n') {
            out.push(' ');
            proof {
                assert(rest.subrange(2, rest.len() as int) =~= s@.subrange(i + 2, n as int));
            }
            i += 2;
        } else {
            out.push(s[i]);
            proof {
                assert(rest.drop_first() =~= s@.subrange(i + 1, n as int));
            }
            i += 1;
        }
        proof {
            assert(start + flatten_breaks(s@) =~= out@ + flatten_breaks(s@.subrange(i as int, n as int)));
        }
    }
    proof {
        assert(s@.subrange(n as int, n as int) =~= Seq::<char>::empty());
        assert(out@ =~= start + flatten_breaks(s@));
    }
}

/// The texts of `ds` joined by single spaces.
fn joined(ds: &Vec<&Dialogue>) -> (r: Vec<char>)
    ensures
        r@ == join_texts(ds@.map_values(|d: &Dialogue| *d)),
{
    let ghost all = ds@.map_values(|d: &Dialogue| *d);
    let mut r: Vec<char> = Vec::new();
    let mut i: usize = 0;
    while i < ds.len()
        invariant
            i <= ds.len(),
            all == ds@.map_values(|d: &Dialogue| *d),
            r@ == join_texts(all.take(i as int)),
        decreases ds.len() - i,
    {
        let ghost before = r@;
        if i > 0 {
            r.push(' ');
        }
        let t = crate::text::chars_of(ds[i].text.as_str());
        push_all(&mut r, &t);
        i += 1;
        proof {
            assert(all.take(i as int).drop_last() =~= all.take(i - 1));
            if i == 1 {
                assert(r@ =~= all.take(1)[0].text@);
            } else {
                assert(r@ =~= before + seq![' '] + all.take(i as int).last().text@);
            }
        }
    }
    proof {
        assert(all.take(i as int) =~= all);
    }
    r
}

fn push_sound(out: &mut Vec<char>, prefix: &str, d: &Dialogue, suffix: AudioSuffix)
    ensures
        final(out)@ == old(out)@ + sound_ref(prefix@, *d, suffix),
{
    push_str(out, "[sound:");
    push_str(out, prefix);
    out.push('_');
    d.start.push_dot(out);
    match suffix {
        AudioSuffix::StartTime => {},
        AudioSuffix::EndTime => {
            out.push('-');
            d.end.push_dot(out);
        },
    }
    push_str(out, ".mp3]");
    proof {
        reveal_strlit("[sound:");
        reveal_strlit(".mp3]");
        assert(final(out)@ =~= old(out)@ + sound_ref(prefix@, *d, suffix));
    }
}

fn push_image(out: &mut Vec<char>, prefix: &str, t: &Time)
    ensures
        final(out)@ == old(out)@ + image_ref(prefix@, *t),
{
    push_str(out, "<img src=\"");
    push_str(out, prefix);
    out.push('_');
    let h = crate::text::chars_of(t.hms().as_str());
    push_all(out, &h);
    push_str(out, ".jpg\">");
    proof {
        reveal_strlit("<img src=\"");
        reveal_strlit(".jpg\">");
        assert(final(out)@ =~= old(out)@ + image_ref(prefix@, *t));
    }
}

fn push_head(out: &mut Vec<char>, prefix: &str, t: &Time)
    ensures
        final(out)@ == old(out)@ + row_head(prefix@, *t),
{
    push_str(out, prefix);
    out.push('\t');
    push_str(out, prefix);
    out.push('_');
    t.push_dot(out);
    out.push('\t');
    proof {
        assert(final(out)@ =~= old(out)@ + row_head(prefix@, *t));
    }
}

fn push_texts(out: &mut Vec<char>, d: &Dialogue, secondary: &Vec<Dialogue>)
    ensures
        final(out)@ == old(out)@ + row_texts(*d, secondary@),
{
    let text = crate::text::chars_of(d.text.as_str());
    push_flattened(out, &text);
    out.push('\t');
    let found = find_secondary_matches(d, secondary.as_slice());
    let j = joined(&found);
    push_flattened(out, &j);
    proof {
        assert(final(out)@ =~= old(out)@ + row_texts(*d, secondary@));
    }
}

fn push_row(out: &mut Vec<char>, prefix: &str, d: &Dialogue, secondary: &Vec<Dialogue>, suffix: AudioSuffix)
    requires
        suffix == AudioSuffix::EndTime ==> d.start.ms() <= d.end.ms(),
    ensures
        final(out)@ == old(out)@ + tsv_row(prefix@, *d, secondary@, suffix),
{
    let t = match suffix {
        AudioSuffix::StartTime => d.start,
        AudioSuffix::EndTime => d.start.half_way(&d.end),
    };
    assert(t == row_time(*d, suffix));
    push_head(out, prefix, &t);
    push_sound(out, prefix, d, suffix);
    out.push('\t');
    push_image(out, prefix, &t);
    out.push('\t');
    push_texts(out, d, secondary);
    proof {
        assert(final(out)@ =~= old(out)@ + tsv_row(prefix@, *d, secondary@, suffix));
    }
}

/// The deck for `primary`, each cue matched against `secondary`: one row per
/// primary cue, each ended by a line feed.
pub fn generate_tab_separated(
    primary: &Vec<Dialogue>,
    secondary: &Vec<Dialogue>,
    prefix: &str,
    suffix: AudioSuffix,
) -> (r: String)
    requires
        suffix == AudioSuffix::EndTime ==> forall|i: int|
            0 <= i < primary@.len() ==> (#[trigger] primary@[i]).start.ms() <= primary@[i].end.ms(),
    ensures
        r@ == tsv_upto(prefix@, primary@, secondary@, suffix, primary@.len() as int),
{
    let mut out: Vec<char> = Vec::new();
    let mut i: usize = 0;
    while i < primary.len()
        invariant
            i <= primary.len(),
            suffix == AudioSuffix::EndTime ==> forall|j: int|
                0 <= j < primary@.len() ==> (#[trigger] primary@[j]).start.ms() <= primary@[j].end.ms(),
            out@ == tsv_upto(prefix@, primary@, secondary@, suffix, i as int),
        decreases primary.len() - i,
    {
        push_row(&mut out, prefix, &primary[i], secondary, suffix);
        out.push('\n');
        i += 1;
    }
    string_of(&out)
}

} // verus!
