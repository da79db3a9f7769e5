use rust2srs::mp3::{slice_frames, slice_range, AudioFrame};
use rust2srs::{extract_sound_clips, parse_subtitle, AudioSuffix, Dialogue, Mp3, SliceError, Time};

const FRAME_BYTES: usize = 384;

// MPEG-1 layer III frames, 48 kHz, 128 kbit/s, mono: 1152 samples, 24 ms each.
fn synthetic_mp3(frames: usize) -> Vec<u8> {
    let mut bytes = Vec::with_capacity(frames * FRAME_BYTES);
    for k in 0..frames {
        let mut frame = vec![0u8; FRAME_BYTES];
        frame[0] = 0xFF;
        frame[1] = 0xFB;
        frame[2] = 0x94;
        frame[3] = 0xC0;
        frame[4] = (k % 251) as u8;
        bytes.extend_from_slice(&frame);
    }
    bytes
}

fn t(hour: u8, min: u8, sec: u8, mil: u16) -> Time {
    Time { hour, min, sec, mil }
}

fn ass_time(ms: u64) -> String {
    let t = Time::from_nanos(ms);
    format!("{}:{:02}:{:02}.{:02}", t.hour, t.min, t.sec, t.mil / 10)
}

fn srt_time(ms: u64) -> String {
    let t = Time::from_nanos(ms);
    format!("{:02}:{:02}:{:02},{:03}", t.hour, t.min, t.sec, t.mil)
}

fn ass_subtitles() -> Vec<Dialogue> {
    let mut s = String::from("[Script Info]\n\n[Events]\n");
    for k in 0..20u64 {
        s.push_str(&format!("Dialogue: 0,{},{},Default,,0,0,0,,line {}\n", ass_time(k * 2500 + 100), ass_time(k * 2500 + 2100), k));
    }
    parse_subtitle(&s).unwrap()
}

fn srt_subtitles() -> Vec<Dialogue> {
    let mut s = String::new();
    for k in 0..60u64 {
        s.push_str(&format!("{}\n{} --> {}\n行{}\n\n", k + 1, srt_time(k * 1000 + 130), srt_time(k * 1000 + 870), k));
    }
    parse_subtitle(&s).unwrap()
}

#[test]
fn it_slices_ichigo() {
    let subtitles = ass_subtitles();
    let mp3 = Mp3::new(synthetic_mp3(2200));
    extract_sound_clips(&mp3, "target", "ichigo-01", &subtitles, AudioSuffix::EndTime, None).unwrap();
}

#[test]
fn it_extracts_totoro() {
    let subtitles = srt_subtitles();
    let mp3 = Mp3::new(synthetic_mp3(2600));
    extract_sound_clips(&mp3, "target", "totoro", &subtitles, AudioSuffix::EndTime, None).unwrap();
}

#[test]
fn it_extracts_one_totoro_dialogue() {
    let mut subtitles = srt_subtitles();
    let one = subtitles.remove(50);
    let dialogue = vec![one];
    let mp3 = Mp3::new(synthetic_mp3(2600));
    extract_sound_clips(&mp3, "target", "totoro", &dialogue, AudioSuffix::EndTime, None).unwrap();
}

#[test]
fn it_slices_mp3() {
    let mp3 = Mp3::new(synthetic_mp3(4300));
    let start = t(0, 1, 39, 620);
    let end = t(0, 1, 41, 620);
    mp3.slice(start.milliseconds(), end.milliseconds()).unwrap();
}

#[test]
fn walks_every_frame() {
    let mp3 = Mp3::new(synthetic_mp3(50));
    let frames = mp3.frames();
    assert_eq!(50, frames.len());
    for (k, f) in frames.iter().enumerate() {
        assert_eq!(k * FRAME_BYTES, f.offset);
        assert_eq!(1152, f.sample_count);
        assert_eq!(48000, f.sample_rate);
    }
}

#[test]
fn aligned_window_gives_whole_frames() {
    let bytes = synthetic_mp3(100);
    let mp3 = Mp3::new(bytes.clone());
    // 240 ms is the end of frame 9, 480 ms the end of frame 19.
    let clip = mp3.slice(240, 480).unwrap();
    assert_eq!(&bytes[9 * FRAME_BYTES..19 * FRAME_BYTES], &clip[..]);
    let next = mp3.slice(480, 720).unwrap();
    let whole = mp3.slice(240, 720).unwrap();
    let mut joined = clip.clone();
    joined.extend_from_slice(&next);
    assert_eq!(whole, joined);
}

#[test]
fn window_inside_one_frame() {
    let bytes = synthetic_mp3(10);
    let mp3 = Mp3::new(bytes.clone());
    let clip = mp3.slice(30, 40).unwrap();
    assert_eq!(&bytes[FRAME_BYTES..2 * FRAME_BYTES], &clip[..]);
}

#[test]
fn slice_errors() {
    let mp3 = Mp3::new(synthetic_mp3(10));
    assert_eq!(Err(SliceError::InvalidWindow), mp3.slice(100, 100));
    assert!(mp3.slice(100, 240).is_ok());
    assert_eq!(Err(SliceError::BoundaryNotFound), mp3.slice(100, 241));
    assert_eq!(Err(SliceError::BoundaryNotFound), mp3.slice(300, 400));
    let silent = Mp3::new(vec![0u8; 1000]);
    assert_eq!(Err(SliceError::NoFrames), silent.slice(0, 10));
    let empty = Mp3::new(Vec::new());
    assert_eq!(Err(SliceError::NoFrames), empty.slice(0, 10));
}

#[test]
fn range_over_listed_frames() {
    let fs: Vec<AudioFrame> = (0..5)
        .map(|k| AudioFrame { offset: 10 + k * 100, sample_count: 1152, sample_rate: 48000 })
        .collect();
    assert_eq!(Ok((10, 110)), slice_range(&fs, 0, 48));
    assert_eq!(Ok((110, 210)), slice_range(&fs, 25, 72));
    let bytes: Vec<u8> = (0..600u32).map(|b| (b % 256) as u8).collect();
    let cut = slice_frames(&bytes, &fs, 25, 72).unwrap();
    assert_eq!(&bytes[110..210], &cut[..]);
}

#[test]
fn clip_names_and_window() {
    let subtitles = vec![
        Dialogue { start: t(0, 0, 0, 100), end: t(0, 0, 0, 500), text: "a".to_string() },
        Dialogue { start: t(0, 0, 1, 0), end: t(0, 0, 1, 200), text: "b".to_string() },
    ];
    let mp3 = Mp3::new(synthetic_mp3(100));
    let clips = extract_sound_clips(&mp3, "out", "pre", &subtitles, AudioSuffix::StartTime, None).unwrap();
    assert_eq!(2, clips.len());
    assert_eq!("out/pre_0.00.00.100.mp3", clips[0].name);
    assert_eq!("out/pre_0.00.01.000.mp3", clips[1].name);
    let clips = extract_sound_clips(&mp3, "out", "pre", &subtitles, AudioSuffix::EndTime, None).unwrap();
    assert_eq!("out/pre_0.00.00.100-0.00.00.500.mp3", clips[0].name);
    assert_eq!(mp3.slice(100, 500).unwrap(), clips[0].bytes);
    let clips = extract_sound_clips(&mp3, "out", "pre", &subtitles, AudioSuffix::StartTime, Some(1)).unwrap();
    assert_eq!(0, clips.len());
    let late = vec![Dialogue { start: t(0, 0, 5, 0), end: t(0, 0, 6, 0), text: "c".to_string() }];
    assert_eq!(Err(SliceError::BoundaryNotFound), extract_sound_clips(&mp3, "out", "pre", &late, AudioSuffix::StartTime, None).map(|c| c.len()));
}

#[test]
fn it_slices_totoro() {
    let mp3 = Mp3::new(synthetic_mp3(12300));
    // 00:04:52,470 --> 00:04:54,490
    let start = t(0, 4, 52, 470);
    let end = t(0, 4, 54, 490);
    mp3.slice(start.milliseconds(), end.milliseconds()).unwrap();
}

#[test]
fn garbage_before_a_frame_belongs_to_it() {
    let mut bytes = vec![0u8; 100];
    bytes.extend_from_slice(&synthetic_mp3(20));
    let frames = Mp3::new(bytes).frames();
    assert_eq!(20, frames.len());
    assert_eq!(0, frames[0].offset);
    assert_eq!(100 + FRAME_BYTES, frames[1].offset);
}
