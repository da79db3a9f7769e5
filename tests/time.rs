use rust2srs::time::{MS_RANGE};
use rust2srs::{sample_range, Time};

#[test]
fn it_halves_properly() {
    let start = Time { hour: 0, min: 1, sec: 59, mil: 10 };
    let end = Time { hour: 0, min: 2, sec: 2, mil: 50 };
    let half = start.half_way(&end);
    assert_eq!(Time { hour: 0, min: 2, sec: 0, mil: 530 }, half);
}

#[test]
fn it_halves_first_duration() {
    // ichigo-1_1_0.01.39.620-0.01.41.620.mp3
    // ichigo-1_1_0.01.40.620.jpg
    let start = Time { hour: 0, min: 1, sec: 39, mil: 620 };
    let end = Time { hour: 0, min: 1, sec: 41, mil: 620 };
    let diff = end.milliseconds() - start.milliseconds();
    assert_eq!(2000, diff);
    let result = start.half_way(&end);
    assert_eq!(Time { hour: 0, min: 1, sec: 40, mil: 620 }, result)
}

#[test]
fn it_halves_last_duration() {
    // ichigo-1_1_0.24.03.080-0.24.04.250.mp3
    // ichigo-1_1_0.24.03.665.jpg
    let start = Time { hour: 0, min: 24, sec: 3, mil: 80 };
    let end = Time { hour: 0, min: 24, sec: 4, mil: 250 };
    let result = start.half_way(&end);
    assert_eq!(Time { hour: 0, min: 24, sec: 3, mil: 665 }, result);
    assert_eq!("0.24.03.665", result.dot())
}

#[test]
fn it_converts_nanos() {
    let time = Time::from_nanos(1451951);
    assert_eq!("0.24.11.951", time.dot())
}

#[test]
fn round_trip_of_canonical_times() {
    let samples = [
        Time { hour: 0, min: 0, sec: 0, mil: 0 },
        Time { hour: 1, min: 2, sec: 3, mil: 4 },
        Time { hour: 23, min: 59, sec: 59, mil: 999 },
        Time { hour: 255, min: 59, sec: 59, mil: 999 },
    ];
    for t in samples.iter() {
        assert_eq!(*t, Time::from_nanos(t.milliseconds()));
    }
}

#[test]
fn hours_wrap_past_the_hour_field() {
    let t = Time::from_nanos(MS_RANGE + 61_001);
    assert_eq!(Time { hour: 0, min: 1, sec: 1, mil: 1 }, t);
    let t = Time::from_nanos(100 * 3_600_000);
    assert_eq!(Time { hour: 100, min: 0, sec: 0, mil: 0 }, t);
}

#[test]
fn ordering_follows_milliseconds() {
    let a = Time::from_nanos(59_999);
    let b = Time::from_nanos(60_000);
    assert!(a < b);
    assert!(!(b < a));
    assert!(a <= a);
    let long = Time { hour: 0, min: 0, sec: 0, mil: 1500 };
    let short = Time { hour: 0, min: 0, sec: 1, mil: 0 };
    assert!(short < long);
}

#[test]
fn midpoint_floors() {
    let a = Time::from_nanos(1000);
    let b = Time::from_nanos(1003);
    assert_eq!(1001, a.half_way(&b).milliseconds());
    assert_eq!(a, a.half_way(&a));
}

#[test]
fn renders_each_projection() {
    let t = Time { hour: 1, min: 2, sec: 3, mil: 45 };
    assert_eq!("10203", t.hms());
    assert_eq!("1:02:03.045", t.colon());
    assert_eq!("1.02.03.045", t.dot());
    let t = Time { hour: 12, min: 34, sec: 56, mil: 789 };
    assert_eq!("123456", t.hms());
    assert_eq!("12:34:56.789", t.colon());
}

#[test]
fn sampling_window() {
    assert_eq!((0, u64::MAX), sample_range(&None));
    assert_eq!((600_000, 900_000), sample_range(&Some(10)));
}
