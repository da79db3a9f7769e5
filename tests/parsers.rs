use rust2srs::{
    find_secondary_matches, parse_assa_to_dialogue, parse_subrip_to_dialogue, parse_subtitle,
    parse_webvtt_to_dialogue, AssaParser, Dialogue, SubripParser, Time, WebVttParser,
};

fn t(hour: u8, min: u8, sec: u8, mil: u16) -> Time {
    Time { hour, min, sec, mil }
}

fn vtt_time(ms: u64) -> String {
    let t = Time::from_nanos(ms);
    format!("{:02}:{:02}:{:02}.{:03}", t.hour, t.min, t.sec, t.mil)
}

fn srt_time(ms: u64) -> String {
    let t = Time::from_nanos(ms);
    format!("{:02}:{:02}:{:02},{:03}", t.hour, t.min, t.sec, t.mil)
}

// 839 cues, each a styled span; cue 26 reads "はやく！".
fn japanese_vtt() -> String {
    let mut s = String::from("WEBVTT\nKind: captions\nLanguage: ja\n\nSTYLE\n::cue(.japanese) { color: white }\n\n");
    for k in 0..839u64 {
        let text = if k == 0 {
            "<c.japanese>♪～</c.japanese>".to_string()
        } else if k == 26 {
            "<c.japanese>はやく！</c.japanese>".to_string()
        } else {
            format!("<c.japanese>行{}</c.japanese>", k)
        };
        s.push_str(&format!("{}\n{} --> {} align:start\n{}\n\n", k + 1, vtt_time(k * 2000), vtt_time(k * 2000 + 1500), text));
    }
    s
}

// 615 cues, without identifiers, with a note block.
fn english_vtt() -> String {
    let mut s = String::from("WEBVTT\n\nNOTE generated for the tests\n\n");
    for k in 0..615u64 {
        let text = match k {
            0 => "Dad, do you want some candy?".to_string(),
            26 => "Come on!".to_string(),
            _ => format!("line {}\nsecond line", k),
        };
        s.push_str(&format!("{} --> {}\n{}\n\n", vtt_time(k * 2000 + 100), vtt_time(k * 2000 + 1400), text));
    }
    s
}

// 844 cues; cue 50 reads "早く～！".
fn japanese_srt() -> String {
    let mut s = String::new();
    for k in 0..844u64 {
        let text = if k == 50 { "早く～！".to_string() } else { format!("行{}", k) };
        s.push_str(&format!("{}\r\n{} --> {}\r\n{}\r\n\r\n", k + 1, srt_time(k * 3000), srt_time(k * 3000 + 2000), text));
    }
    s
}

#[test]
fn it_parses_japanese_subrip() {
    let contents = japanese_srt();
    let mut subtitles = parse_subrip_to_dialogue(&contents).unwrap();
    assert_eq!(844, subtitles.len());
    let dialogue = subtitles.remove(50);
    assert!(matches!(dialogue, Dialogue { text, .. } if text == "早く～！"));
}

#[test]
fn it_parses_japanese_webvtt() {
    let contents = japanese_vtt();
    let cues = parse_webvtt_to_dialogue(&contents).unwrap();
    assert_eq!("<c.japanese>♪～</c.japanese>", cues.first().unwrap().text);
    assert_eq!(839, cues.len());
}

#[test]
fn it_parses_english_webvtt() {
    let contents = english_vtt();
    let cues = parse_webvtt_to_dialogue(&contents).unwrap();
    assert_eq!("Dad, do you want some candy?", cues.first().unwrap().text);
    assert_eq!(615, cues.len());
}

#[test]
fn webvtt_it_matches_secondary_subtitle() {
    let primary = parse_subtitle(&japanese_vtt()).unwrap();
    let secondary = parse_subtitle(&english_vtt()).unwrap();
    assert_eq!(839, primary.len());
    assert_eq!(615, secondary.len());
    let first = primary.get(26).unwrap();
    let second = find_secondary_matches(first, &secondary);
    assert!(matches!(first, Dialogue { text, .. } if text == "<c.japanese>はやく！</c.japanese>"));
    assert!(matches!(second.first(), Some(Dialogue { text, .. }) if text == "Come on!"));
}

#[test]
fn webvtt_it_generates_tab_separated() {
    let primary = parse_subtitle(&japanese_vtt()).unwrap();
    let secondary = parse_subtitle(&english_vtt()).unwrap();
    for first in primary.iter() {
        let second = find_secondary_matches(first, &secondary);
        let text = first.text.replace("\\N", " ").replace("\\n", " ");
        let second: String = second
            .iter()
            .map(|d| d.text.clone())
            .collect::<Vec<_>>()
            .join(" ")
            .replace("\\N", " ")
            .replace("\\n", " ");
        println!("{}\t{}", text, second);
    }
}

#[test]
fn subrip_joins_payload_lines() {
    let doc = "1\n00:00:01,000 --> 00:00:02,500\nfirst\nsecond\n\n2\n00:00:03,000 --> 00:00:04,000\nlast";
    let cues = parse_subrip_to_dialogue(doc).unwrap();
    assert_eq!(2, cues.len());
    assert_eq!(t(0, 0, 1, 0), cues[0].start);
    assert_eq!(t(0, 0, 2, 500), cues[0].end);
    assert_eq!("first<br/>second", cues[0].text);
    assert_eq!("last", cues[1].text);
    assert_eq!(t(0, 0, 4, 0), cues[1].end);
}

#[test]
fn subrip_rejects_malformed_documents() {
    assert!(parse_subrip_to_dialogue("").is_none());
    assert!(parse_subrip_to_dialogue("1\n00:00:01.000 --> 00:00:02,000\ntext\n").is_none());
    assert!(parse_subrip_to_dialogue("1\n00:61:01,000 --> 00:00:02,000\ntext\n").is_none());
    assert!(parse_subrip_to_dialogue("one\n00:00:01,000 --> 00:00:02,000\ntext\n").is_none());
    assert!(parse_subrip_to_dialogue("1\n").is_none());
}

#[test]
fn webvtt_reads_short_clocks_and_skips_blocks() {
    let doc = "\u{feff}WEBVTT - title\n\nNOTE\nsome words\n\nREGION\nid:r\n\nintro\n01:02.003 --> 01:04.500 line:0\n<i>hi</i>\nthere\n";
    let cues = parse_webvtt_to_dialogue(doc).unwrap();
    assert_eq!(1, cues.len());
    assert_eq!(t(0, 1, 2, 3), cues[0].start);
    assert_eq!(t(0, 1, 4, 500), cues[0].end);
    assert_eq!("<i>hi</i>\nthere", cues[0].text);
}

#[test]
fn webvtt_rejects_malformed_documents() {
    assert!(parse_webvtt_to_dialogue("WEBVTTX\n").is_none());
    assert!(parse_webvtt_to_dialogue("").is_none());
    assert!(parse_webvtt_to_dialogue("WEBVTT\n\nid\nnot a timing line\n").is_none());
    assert!(parse_webvtt_to_dialogue("WEBVTT\n\n00:01.000 -> 00:02.000\ntext\n").is_none());
    assert!(parse_webvtt_to_dialogue("WEBVTT\n\n00:01.000 --> 00:02\ntext\n").is_none());
    assert_eq!(0, parse_webvtt_to_dialogue("WEBVTT\n").unwrap().len());
}

#[test]
fn assa_drops_pure_styling_cues() {
    let doc = "[Script Info]\nTitle: t\n\n[Events]\nFormat: Layer, Start, End, Style, Name, MarginL, MarginR, MarginV, Effect, Text\nDialogue: 0,0:00:01.00,0:00:02.50,Default,,0,0,0,,{\\an8}\nDialogue: 0,0:00:03.00,0:00:04.00,Default,Kei,0,0,0,,Hello, {\\i1}there{\\i0}\\Nfriend\nComment: 0,0:00:05.00,0:00:06.00,Default,,0,0,0,,ignored\n";
    let cues = parse_assa_to_dialogue(doc).unwrap();
    assert_eq!(1, cues.len());
    assert_eq!("Hello, {\\i1}there{\\i0}\\Nfriend", cues[0].text);
    assert_eq!(t(0, 0, 3, 0), cues[0].start);
    assert_eq!(t(0, 0, 4, 0), cues[0].end);
}

#[test]
fn assa_scales_centiseconds() {
    let doc = "[Script Info]\n[Events]\nDialogue: 0,1:02:03.45,1:02:04.06,Default,,0,0,0,,a, b, c\n";
    let cues = parse_assa_to_dialogue(doc).unwrap();
    assert_eq!(t(1, 2, 3, 450), cues[0].start);
    assert_eq!(t(1, 2, 4, 60), cues[0].end);
    assert_eq!("a, b, c", cues[0].text);
}

#[test]
fn assa_rejects_malformed_documents() {
    assert!(parse_assa_to_dialogue("[Events]\n").is_none());
    assert!(parse_assa_to_dialogue("[Script Info]\nDialogue: 0,0:00:01.00,0:00:02.00,Default\n").is_none());
    assert!(parse_assa_to_dialogue("[Script Info]\nDialogue: 0,0:00:01.0,0:00:02.00,Default,,0,0,0,,x\n").is_none());
    assert!(parse_assa_to_dialogue("[Script Info]\nDialogue: 0,256:00:01.00,0:00:02.00,Default,,0,0,0,,x\n").is_none());
    assert_eq!(0, parse_assa_to_dialogue("\n[Script Info]\n").unwrap().len());
}

#[test]
fn dispatcher_agrees_with_each_parser() {
    let ass = "[Script Info]\n[Events]\nDialogue: 0,0:00:01.00,0:00:02.00,Default,,0,0,0,,hello\n";
    let vtt = "WEBVTT\n\n00:01.000 --> 00:02.000\nhello\n";
    let srt = "1\n00:00:01,000 --> 00:00:02,000\nhello\n";
    assert_eq!(AssaParser.parse(ass), parse_subtitle(ass));
    assert_eq!(WebVttParser.parse(vtt), parse_subtitle(vtt));
    assert_eq!(SubripParser.parse(srt), parse_subtitle(srt));
    let expected = vec![Dialogue { start: t(0, 0, 1, 0), end: t(0, 0, 2, 0), text: "hello".to_string() }];
    assert_eq!(Some(expected.clone()), parse_subtitle(ass));
    assert_eq!(Some(expected.clone()), parse_subtitle(vtt));
    assert_eq!(Some(expected), parse_subtitle(srt));
    assert_eq!(None, parse_subtitle("just some prose\n"));
}
