use rust2srs::{generate_tab_separated, snapshot_name, AudioSuffix, Dialogue, ScheduleError, ShotAction, ShotSchedule, Time};

fn cue(start: u64, end: u64, text: &str) -> Dialogue {
    Dialogue { start: Time::from_nanos(start), end: Time::from_nanos(end), text: text.to_string() }
}

#[test]
fn deck_rows_with_start_names() {
    let primary = vec![cue(1000, 3000, "a\\Nb\nc")];
    let secondary = vec![cue(500, 1500, "x"), cue(2000, 2500, "y\\n z"), cue(3000, 4000, "after")];
    let deck = generate_tab_separated(&primary, &secondary, "pre", AudioSuffix::StartTime);
    assert_eq!(
        "pre\tpre_0.00.01.000\t[sound:pre_0.00.01.000.mp3]\t<img src=\"pre_00001.jpg\">\ta b c\tx y  z\n",
        deck
    );
}

#[test]
fn deck_rows_with_midpoint_names() {
    let primary = vec![cue(1000, 3000, "one"), cue(61_000, 61_001, "two")];
    let secondary: Vec<Dialogue> = Vec::new();
    let deck = generate_tab_separated(&primary, &secondary, "p", AudioSuffix::EndTime);
    assert_eq!(
        "p\tp_0.00.02.000\t[sound:p_0.00.01.000-0.00.03.000.mp3]\t<img src=\"p_00002.jpg\">\tone\t\n\
         p\tp_0.01.01.000\t[sound:p_0.01.01.000-0.01.01.001.mp3]\t<img src=\"p_00101.jpg\">\ttwo\t\n",
        deck
    );
    assert_eq!("", generate_tab_separated(&Vec::new(), &secondary, "p", AudioSuffix::EndTime));
}

#[test]
fn schedule_captures_after_each_midpoint() {
    let cues = vec![cue(1000, 3000, "a"), cue(4000, 5000, "b")];
    let mut s = ShotSchedule::new(&cues, None).unwrap();
    assert_eq!(ShotAction::Wait, s.on_frame(1500));
    assert_eq!(ShotAction::Wait, s.on_frame(2000));
    assert_eq!(ShotAction::Capture(0), s.on_frame(2001));
    assert_eq!(ShotAction::Wait, s.on_frame(4400));
    assert_eq!(ShotAction::Capture(1), s.on_frame(4600));
    assert!(s.is_done());
    assert_eq!(ShotAction::Stop, s.on_frame(5000));
}

#[test]
fn schedule_respects_the_window() {
    let cues = vec![cue(1000, 3000, "a"), cue(61_000, 62_000, "b"), cue(400_000, 401_000, "c")];
    let mut s = ShotSchedule::new(&cues, Some(1)).unwrap();
    assert_eq!(ShotAction::Pass(0), s.on_frame(2500));
    assert_eq!(ShotAction::Capture(1), s.on_frame(61_600));
    assert_eq!(ShotAction::Stop, s.on_frame(360_001));
    assert!(!s.is_done());
}

#[test]
fn schedule_needs_a_cue() {
    let cues: Vec<Dialogue> = Vec::new();
    assert!(matches!(ShotSchedule::new(&cues, None), Err(ScheduleError::EmptyTimeline)));
}

#[test]
fn still_names() {
    let d = cue(3_723_000, 3_724_000, "x");
    assert_eq!("target/totoro_10203", snapshot_name("target", "totoro", &d));
}
