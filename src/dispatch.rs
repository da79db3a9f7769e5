//! Recognition of a subtitle document by trying each format in turn.

use vstd::prelude::*;
use crate::assa::{assa_timeline, parse_assa_to_dialogue};
use crate::dialogue::{Cue, Dialogue};
use crate::subrip::{parse_subrip_to_dialogue, subrip_timeline};
use crate::webvtt::{parse_webvtt_to_dialogue, webvtt_timeline};

verus! {

/// The timeline of the first format, in the order tag-rich script, web
/// caption, plain sequential cues, that recognises the document.
pub open spec fn subtitle_timeline(s: Seq<char>) -> Option<Seq<Cue>> {
    if assa_timeline(s) is Some {
        assa_timeline(s)
    } else if webvtt_timeline(s) is Some {
        webvtt_timeline(s)
    } else {
        subrip_timeline(s)
    }
}

/// Parses a subtitle document in any of the three formats; `None` when no
/// format recognises it.
pub fn parse_subtitle(contents: &str) -> (r: Option<Vec<Dialogue>>)
    ensures
        r.deep_view() == subtitle_timeline(contents@),
{
    if let Some(d) = parse_assa_to_dialogue(contents) {
        return Some(d);
    }
    if let Some(d) = parse_webvtt_to_dialogue(contents) {
        return Some(d);
    }
    parse_subrip_to_dialogue(contents)
}

/// A document that exactly one format recognises gets that format's
/// timeline; a document that no format recognises gets none.
pub proof fn lemma_dispatch_agrees(s: Seq<char>)
    ensures
        assa_timeline(s) is Some ==> subtitle_timeline(s) == assa_timeline(s),
        assa_timeline(s) is None && webvtt_timeline(s) is Some ==> subtitle_timeline(s)
            == webvtt_timeline(s),
        assa_timeline(s) is None && webvtt_timeline(s) is None ==> subtitle_timeline(s)
            == subrip_timeline(s),
        assa_timeline(s) is None && webvtt_timeline(s) is None && subrip_timeline(s) is None
            ==> subtitle_timeline(s) is None,
{
}

} // verus!
