//! Subtitle normalisation and temporal alignment: parsing of three subtitle
//! wire formats into one timeline, matching of cues between two tracks by
//! overlap, time arithmetic, and frame-exact slicing of compressed audio.

pub mod assa;
pub mod dialogue;
pub mod dispatch;
pub mod mp3;
pub mod scan;
pub mod schedule;
pub mod subrip;
pub mod text;
pub mod time;
pub mod tsv;
pub mod webvtt;

pub use assa::{parse_assa_to_dialogue, AssaParser};
pub use dialogue::{find_secondary_matches, offset_dialogues, Dialogue};
pub use dispatch::parse_subtitle;
pub use mp3::{extract_sound_clips, AudioSuffix, Mp3, SliceError, SoundClip};
pub use schedule::{snapshot_name, ScheduleError, ShotAction, ShotSchedule};
pub use subrip::{parse_subrip_to_dialogue, SubripParser};
pub use time::{sample_range, Time};
pub use tsv::generate_tab_separated;
pub use webvtt::{parse_webvtt_to_dialogue, WebVttParser};
