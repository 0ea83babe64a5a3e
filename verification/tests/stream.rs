use moonfire_db::days::{DayMap, DaySplit, StreamDayKey, StreamDayValue};
use moonfire_db::ids::StreamType;
use moonfire_db::model::Stream;
use moonfire_db::recording::{Duration, Time};
use moonfire_db::stream::{can_init_recordings, init_recordings, RecordingSummary};

fn stream() -> Stream {
    Stream {
        id: 1,
        camera_id: 2,
        sample_file_dir_id: None,
        type_: StreamType::MAIN,
        rtsp_path: "/main".to_owned(),
        retain_bytes: 0,
        range: None,
        sample_file_bytes: 0,
        duration: Duration(0),
        days: DayMap::new(),
        record: true,
        next_recording_id: 1,
    }
}

#[test]
fn add_recording_widens_and_sums() {
    let mut s = stream();
    let day = StreamDayKey(*b"2015-04-26");
    let split = Some(DaySplit { first: Some(day), boundary: Time(10_000), second: None });
    s.add_recording_at(Time(100)..Time(150), 7, split);
    assert_eq!(Some(Time(100)..Time(150)), s.range);
    s.add_recording_at(Time(50)..Time(120), 5, split);
    assert_eq!(Some(Time(50)..Time(150)), s.range);
    s.add_recording_at(Time(140)..Time(160), -2, None);
    assert_eq!(Some(Time(50)..Time(160)), s.range);
    assert_eq!(Duration(140), s.duration);
    assert_eq!(10, s.sample_file_bytes);
    let value = StreamDayValue { recordings: 2, duration: Duration(120) };
    assert_eq!(vec![(day, value)], s.days.entries());
    assert!(s.can_add_recording(&(Time(0)..Time(5)), 1));
    assert!(!s.can_add_recording(&(Time(0)..Time(i64::MAX)), 1));
    assert!(!s.can_add_recording(&(Time(-5)..Time(i64::MAX)), 1));
    s.sample_file_bytes = i64::MAX;
    assert!(!s.can_add_recording(&(Time(0)..Time(5)), 1));
}

#[test]
fn init_recordings_adds_up() {
    let rows = [
        RecordingSummary { start: Time(5_000), duration: Duration(100), sample_file_bytes: 1 },
        RecordingSummary { start: Time(1_000), duration: Duration(50), sample_file_bytes: 2 },
        RecordingSummary { start: Time(2_000), duration: Duration(9_000), sample_file_bytes: 3 },
    ];
    let mut s = stream();
    assert!(can_init_recordings(&s, &rows));
    init_recordings(&mut s, &rows);
    assert_eq!(Some(Time(1_000)..Time(11_000)), s.range);
    assert_eq!(Duration(9_150), s.duration);
    assert_eq!(6, s.sample_file_bytes);
    let on_days: i64 = s.days.entries().iter().map(|(_, v)| v.duration.0).sum();
    assert_eq!(9_150, on_days);
    let late = [RecordingSummary {
        start: Time(i64::MAX),
        duration: Duration(1),
        sample_file_bytes: 1,
    }];
    assert!(!can_init_recordings(&s, &late));
    let mut t = stream();
    t.add_recording(Time(1_000)..Time(1_050), 2);
    assert_eq!(Some(Time(1_000)..Time(1_050)), t.range);
    assert_eq!(1, t.days.entries().iter().map(|(_, v)| v.recordings).max().unwrap());
    let u = t.clone();
    assert_eq!(t.days.entries(), u.days.entries());
    assert_eq!(t.rtsp_path, u.rtsp_path);
}
