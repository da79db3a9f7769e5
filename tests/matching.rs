use rust2srs::{find_secondary_matches, parse_subtitle, Dialogue, Time};

fn cue(start: u64, end: u64, text: &str) -> Dialogue {
    Dialogue { start: Time::from_nanos(start), end: Time::from_nanos(end), text: text.to_string() }
}

fn ass_time(ms: u64) -> String {
    let t = Time::from_nanos(ms);
    format!("{}:{:02}:{:02}.{:02}", t.hour, t.min, t.sec, t.mil / 10)
}

fn ass_doc(cues: &[(u64, u64, String)]) -> String {
    let mut s = String::from("[Script Info]\nTitle: generated\nScriptType: v4.00+\n\n[V4+ Styles]\n");
    s.push_str("Format: Name, Fontname, Fontsize\nStyle: Default,Arial,20\n\n[Events]\n");
    s.push_str("Format: Layer, Start, End, Style, Name, MarginL, MarginR, MarginV, Effect, Text\n");
    for (a, b, t) in cues {
        s.push_str(&format!("Dialogue: 0,{},{},Default,,0,0,0,,{}\n", ass_time(*a), ass_time(*b), t));
    }
    s
}

// 350 primary cues at [4k s, 4k + 3 s), with five pure styling cues that are dropped.
fn primary_doc() -> String {
    let mut cues = Vec::new();
    for k in 0..350u64 {
        cues.push((k * 4000, k * 4000 + 3000, format!("一行{}", k)));
        if k % 70 == 1 {
            cues.push((k * 4000 + 3000, k * 4000 + 3500, "{\\pos(10,10)}".to_string()));
        }
    }
    ass_doc(&cues)
}

// 359 secondary cues: one per primary cue, cue 4 split in two, and eight in the gaps.
fn secondary_doc() -> String {
    let mut cues = Vec::new();
    for k in 0..350u64 {
        let text = match k {
            0 => "What lovely weather.".to_string(),
            349 => "Uh, like what?".to_string(),
            _ => format!("line {}", k),
        };
        if k == 4 {
            cues.push((16000, 17500, "I'm lying. Despite my girlish looks...".to_string()));
            cues.push((17500, 19000, "...I'm a 20-year-old junior-college student.".to_string()));
        } else {
            cues.push((k * 4000, k * 4000 + 3000, text));
        }
        if k >= 10 && k < 18 {
            cues.push((k * 4000 + 3200, k * 4000 + 3800, format!("gap {}", k)));
        }
    }
    ass_doc(&cues)
}

#[test]
fn assa_it_matches_secondary_subtitle() {
    let primary = parse_subtitle(&primary_doc()).unwrap();
    assert_eq!(primary.len(), 350);
    let first = primary.first().unwrap();
    let secondary = parse_subtitle(&secondary_doc()).unwrap();
    assert_eq!(secondary.len(), 359);
    let second = find_secondary_matches(first, &secondary);
    assert!(matches!(second.first(), Some(Dialogue { text, .. }) if text == "What lovely weather."));
    let last = primary.last().unwrap();
    let second = find_secondary_matches(last, &secondary);
    assert!(matches!(second.first(), Some(Dialogue { text, .. }) if text == "Uh, like what?"));
}

#[test]
fn it_matches_multiple_lines() {
    let primary = parse_subtitle(&primary_doc()).unwrap();
    let first = primary.get(4).unwrap();
    let secondary = parse_subtitle(&secondary_doc()).unwrap();
    let second = find_secondary_matches(first, &secondary);

    assert_eq!(2, second.len());
    assert!(matches!(second.get(0), Some(Dialogue { text, .. }) if text == "I'm lying. Despite my girlish looks..."));
    assert!(matches!(second.get(1), Some(Dialogue { text, .. }) if text == "...I'm a 20-year-old junior-college student."));
}

#[test]
fn matcher_excludes_cue_starting_at_primary_end() {
    let primary = cue(10000, 20000, "primary");
    let secondary = vec![cue(9000, 10500, "before"), cue(20000, 21000, "after")];
    let found = find_secondary_matches(&primary, &secondary);
    assert_eq!(1, found.len());
    assert_eq!("before", found[0].text);
}

#[test]
fn matcher_keeps_secondary_order() {
    let primary = cue(1000, 5000, "p");
    let secondary = vec![
        cue(0, 999, "ends before"),
        cue(0, 1001, "runs into"),
        cue(1000, 1000, "starts with"),
        cue(4999, 9000, "starts inside"),
        cue(5000, 6000, "starts at end"),
        cue(500, 1000, "ends at start"),
    ];
    let found = find_secondary_matches(&primary, &secondary);
    let texts: Vec<&str> = found.iter().map(|d| d.text.as_str()).collect();
    assert_eq!(vec!["runs into", "starts with", "starts inside"], texts);
}

#[test]
fn empty_primary_interval_matches_nothing_at_its_start() {
    let primary = cue(1000, 1000, "p");
    let secondary = vec![cue(1000, 2000, "same start"), cue(500, 1500, "spanning")];
    let found = find_secondary_matches(&primary, &secondary);
    assert_eq!(1, found.len());
    assert_eq!("spanning", found[0].text);
}

#[test]
fn end_to_end_first_and_last_texts() {
    let primary = parse_subtitle(&primary_doc()).unwrap();
    let secondary = parse_subtitle(&secondary_doc()).unwrap();
    let first: Vec<&str> = find_secondary_matches(&primary[0], &secondary).iter().map(|d| d.text.as_str()).collect();
    assert_eq!(vec!["What lovely weather."], first);
    let last: Vec<&str> = find_secondary_matches(&primary[349], &secondary).iter().map(|d| d.text.as_str()).collect();
    assert_eq!(vec!["Uh, like what?"], last);
}

#[test]
fn offsets_move_cues_and_hold_at_zero() {
    let cues = vec![cue(1000, 2000, "a"), cue(10_000, 12_500, "b")];
    let moved = rust2srs::offset_dialogues(&cues, -1500);
    assert_eq!(cue(0, 500, "a"), moved[0]);
    assert_eq!(cue(8500, 11_000, "b"), moved[1]);
    let later = rust2srs::offset_dialogues(&cues, 250);
    assert_eq!(cue(1250, 2250, "a"), later[0]);
}

#[test]
fn assa_it_generates_tab_separated() {
    let primary = parse_subtitle(&primary_doc()).unwrap();
    let secondary = parse_subtitle(&secondary_doc()).unwrap();
    for first in primary.iter() {
        let second = find_secondary_matches(first, &secondary);
        let text = first.text.replace("\\N", " ").replace("\\n", " ");
        let second: String = second
            .iter()
            .map(|d| d.text.clone())
            .collect::<Vec<_>>()
            .join(" ")
            .replace("\\N", " ")
            .replace("\\n", " ");
        println!("{}\t{}", text, second);
    }
}

fn srt_time(ms: u64) -> String {
    let t = Time::from_nanos(ms);
    format!("{:02}:{:02}:{:02},{:03}", t.hour, t.min, t.sec, t.mil)
}

#[test]
fn lib_it_generates_tab_separated() {
    let mut ja = String::new();
    for k in 0..500u64 {
        ja.push_str(&format!("{}\n{} --> {}\n行{}\n二行目\n\n", k + 1, srt_time(k * 3000), srt_time(k * 3000 + 2000), k));
    }
    let mut en = Vec::new();
    for k in 0..551u64 {
        en.push((k * 2700, k * 2700 + 1500, format!("line {}\\Nmore", k)));
    }
    let primary = parse_subtitle(&ja).unwrap();
    let secondary = parse_subtitle(&ass_doc(&en)).unwrap();
    assert_eq!(551, secondary.len());
    let deck = rust2srs::generate_tab_separated(&primary, &secondary, "totoro", rust2srs::AudioSuffix::EndTime);
    assert_eq!(primary.len(), deck.lines().count());
    assert!(deck.starts_with("totoro\ttotoro_0.00.01.000\t[sound:totoro_0.00.00.000-0.00.02.000.mp3]\t<img src=\"totoro_00001.jpg\">\t行0<br/>二行目\tline 0 more\n"));
}
