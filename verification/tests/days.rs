use moonfire_db::calendar::Tm;
use moonfire_db::days::{
    adjust_change, adjust_changes_if_fit, adjust_day, adjust_days, adjust_days_at, can_adjust_day,
    can_adjust_days_at, can_merge_days, day_range, day_range_if_held, day_split, merge_days,
    split_at, time_at_second, DayMap, DaySplit, StreamDayKey, StreamDayValue,
};
use moonfire_db::error::Error;
use moonfire_db::recording::{Duration, Time, TIME_UNITS_PER_SEC};
use std::io::Write;

fn tm(year: i32, mon: i32, mday: i32) -> Tm {
    Tm {
        tm_sec: 0,
        tm_min: 0,
        tm_hour: 0,
        tm_mday: mday,
        tm_mon: mon - 1,
        tm_year: year - 1900,
        tm_wday: 0,
        tm_yday: 0,
        tm_isdst: 0,
        tm_utcoff: 0,
        tm_nsec: 0,
    }
}

/// The day that the local time zone has at a time, according to the calendar itself.
fn local_day(sec: i64) -> StreamDayKey {
    let text = time::at(time::Timespec { sec, nsec: 0 }).strftime("%Y-%m-%d").unwrap().to_string();
    let mut key = [0u8; 10];
    key.copy_from_slice(text.as_bytes());
    StreamDayKey(key)
}

/// When the day after starts in the local time zone.
fn local_next_midnight(sec: i64) -> i64 {
    let mut t = time::at(time::Timespec { sec, nsec: 0 });
    t.tm_isdst = -1;
    t.tm_hour = 0;
    t.tm_min = 0;
    t.tm_sec = 0;
    t.tm_mday += 1;
    t.to_timespec().sec
}

#[test]
fn test_adjust_days() {
    let mut m = DayMap::new();

    // Create a day.
    let test_time = Time(130647162600000i64); // 2015-12-31 23:59:00 (Pacific).
    let one_min = Duration(60 * TIME_UNITS_PER_SEC);
    let two_min = Duration(2 * 60 * TIME_UNITS_PER_SEC);
    let three_min = Duration(3 * 60 * TIME_UNITS_PER_SEC);
    let four_min = Duration(4 * 60 * TIME_UNITS_PER_SEC);
    let test_day1 = &StreamDayKey(*b"2015-12-31");
    let test_day2 = &StreamDayKey(*b"2016-01-01");
    let split = DaySplit {
        first: Some(*test_day1),
        boundary: test_time + one_min, // 2016-01-01 00:00:00 (Pacific).
        second: Some(*test_day2),
    };
    adjust_days_at(test_time..test_time + one_min, 1, split, &mut m);
    assert_eq!(1, m.len());
    assert_eq!(Some(StreamDayValue { recordings: 1, duration: one_min }), m.get(test_day1));

    // Add to a day.
    adjust_days_at(test_time..test_time + one_min, 1, split, &mut m);
    assert_eq!(1, m.len());
    assert_eq!(Some(StreamDayValue { recordings: 2, duration: two_min }), m.get(test_day1));

    // Subtract from a day.
    adjust_days_at(test_time..test_time + one_min, -1, split, &mut m);
    assert_eq!(1, m.len());
    assert_eq!(Some(StreamDayValue { recordings: 1, duration: one_min }), m.get(test_day1));

    // Remove a day.
    adjust_days_at(test_time..test_time + one_min, -1, split, &mut m);
    assert_eq!(0, m.len());

    // Create two days.
    adjust_days_at(test_time..test_time + three_min, 1, split, &mut m);
    assert_eq!(2, m.len());
    assert_eq!(Some(StreamDayValue { recordings: 1, duration: one_min }), m.get(test_day1));
    assert_eq!(Some(StreamDayValue { recordings: 1, duration: two_min }), m.get(test_day2));

    // Add to two days.
    adjust_days_at(test_time..test_time + three_min, 1, split, &mut m);
    assert_eq!(2, m.len());
    assert_eq!(Some(StreamDayValue { recordings: 2, duration: two_min }), m.get(test_day1));
    assert_eq!(Some(StreamDayValue { recordings: 2, duration: four_min }), m.get(test_day2));

    // Subtract from two days.
    adjust_days_at(test_time..test_time + three_min, -1, split, &mut m);
    assert_eq!(2, m.len());
    assert_eq!(Some(StreamDayValue { recordings: 1, duration: one_min }), m.get(test_day1));
    assert_eq!(Some(StreamDayValue { recordings: 1, duration: two_min }), m.get(test_day2));

    // Remove two days.
    adjust_days_at(test_time..test_time + three_min, -1, split, &mut m);
    assert_eq!(0, m.len());
}

#[test]
fn split_at_calendar_times() {
    let split = split_at(tm(2015, 12, 31), 1451635200, tm(2016, 1, 1));
    assert_eq!(Some(StreamDayKey(*b"2015-12-31")), split.first);
    assert_eq!(Time(130647168000000), split.boundary);
    assert_eq!(Some(StreamDayKey(*b"2016-01-01")), split.second);
    let split = split_at(tm(20015, 12, 31), 0, tm(20016, 1, 1));
    assert!(split.first.is_none() && split.second.is_none());
}

#[test]
fn test_day_bounds() {
    // The seconds at which the days start and end in Pacific time.
    let bounds = day_range(1507618800, 1507705200); // normal day (24 hrs)
    assert_eq!(bounds, Time(135685692000000)..Time(135693468000000));
    let bounds = day_range(1489305600, 1489388400); // spring forward (23 hrs)
    assert_eq!(bounds, Time(134037504000000)..Time(134044956000000));
    let bounds = day_range(1509865200, 1509955200); // fall back (25 hrs)
    assert_eq!(bounds, Time(135887868000000)..Time(135895968000000));
    for (key, year, mon, mday) in
        [
            (*b"2017-10-10", 2017, 10, 10),
            (*b"2017-03-12", 2017, 3, 12),
            (*b"2017-11-05", 2017, 11, 5),
        ]
    {
        let (start, end) = StreamDayKey(key).midnights();
        assert_eq!(start, Tm { tm_utcoff: 1, tm_isdst: -1, ..tm(year, mon, mday) });
        assert_eq!(end, Tm { tm_mday: mday + 1, ..start });
    }
}

#[test]
fn seconds_that_cannot_be_held_give_no_time() {
    let most = i64::max_value() / TIME_UNITS_PER_SEC;
    let least = i64::min_value() / TIME_UNITS_PER_SEC;
    assert_eq!(Some(Time(135685692000000)), time_at_second(1507618800));
    assert_eq!(Some(Time(-90000)), time_at_second(-1));
    assert_eq!(Some(Time(most * TIME_UNITS_PER_SEC)), time_at_second(most));
    assert_eq!(None, time_at_second(most + 1));
    assert_eq!(Some(Time(least * TIME_UNITS_PER_SEC)), time_at_second(least));
    assert_eq!(None, time_at_second(least - 1));

    assert_eq!(
        Some(Time(135685692000000)..Time(135693468000000)),
        day_range_if_held(1507618800, 1507705200)
    );
    assert_eq!(None, day_range_if_held(least - 1, 0));
    assert_eq!(None, day_range_if_held(0, most + 1));
}

#[test]
fn bounds_follow_the_local_calendar() {
    let bounds = StreamDayKey(*b"2017-10-10").bounds().unwrap();
    let sec = bounds.start.0 / TIME_UNITS_PER_SEC;
    assert_eq!(StreamDayKey(*b"2017-10-10"), local_day(sec));
    assert_eq!(local_next_midnight(sec), bounds.end.0 / TIME_UNITS_PER_SEC);
    assert_eq!(0, bounds.start.0 % TIME_UNITS_PER_SEC);
}

#[test]
fn adjust_days_follows_the_local_calendar() {
    let start = Time(130647162600000i64);
    let sec = start.unix_seconds();
    let boundary = Time(local_next_midnight(sec) * TIME_UNITS_PER_SEC);
    let split = day_split(&(start..start)).unwrap();
    assert_eq!(Some(local_day(sec)), split.first);
    assert_eq!(boundary, split.boundary);
    assert_eq!(Some(local_day(local_next_midnight(sec))), split.second);

    let mut m = DayMap::new();
    adjust_days(start..boundary + Duration(5), 1, &mut m);
    assert_eq!(
        vec![
            (local_day(sec), StreamDayValue { recordings: 1, duration: boundary - start }),
            (
                local_day(local_next_midnight(sec)),
                StreamDayValue { recordings: 1, duration: Duration(5) }
            ),
        ],
        m.entries()
    );
    adjust_days(start..boundary + Duration(5), -1, &mut m);
    assert_eq!(0, m.len());
}

#[test]
fn keys_of_calendar_times() {
    assert_eq!(StreamDayKey(*b"2016-02-09"), StreamDayKey::new(tm(2016, 2, 9)).unwrap());
    assert_eq!(StreamDayKey(*b"987-12-31\0"), StreamDayKey::new(tm(987, 12, 31)).unwrap());
    assert_eq!("2016-02-09", StreamDayKey(*b"2016-02-09").as_ref());
}

#[test]
fn calendar_times_without_a_key_say_why() {
    let odd_month = tm(2016, 13, 1);
    let odd_weekday = Tm { tm_wday: 7, ..tm(2016, 1, 1) };
    let odd = Tm { tm_wday: -1, ..tm(2016, 0, 1) };
    for (t, expected) in [
        (odd_month, "Invalid month."),
        (odd_weekday, "Invalid day of the week."),
        (odd, "Invalid day."),
    ] {
        let said = time::Tm { tm_mon: t.tm_mon, tm_wday: t.tm_wday, ..time::empty_tm() }
            .strftime("%Y-%m-%d")
            .err()
            .unwrap();
        assert_eq!(expected, said.to_string());
        match StreamDayKey::new(t).err().unwrap() {
            Error::InvalidCalendarTime(e) => assert_eq!(expected, e),
            other => panic!("{:?}", other),
        }
    }
    let e = StreamDayKey::new(tm(12345, 1, 1)).err().unwrap();
    assert!(matches!(e, Error::DayTooLong));
    let mut key = [0u8; 10];
    assert_eq!((&mut key[..]).write_all(b"12345-01-01").unwrap_err().to_string(), e.message());
}

#[test]
fn days_tile_time() {
    for (a, b) in [
        (b"2017-10-09", b"2017-10-10"),
        (b"2017-10-31", b"2017-11-01"),
        (b"2016-02-28", b"2016-02-29"),
        (b"2016-12-31", b"2017-01-01"),
    ] {
        let (a, b) = (StreamDayKey(*a), StreamDayKey(*b));
        let (first, second) = (a.bounds().unwrap(), b.bounds().unwrap());
        assert!(first.start < first.end);
        assert_eq!(first.end, second.start);
        assert!(second.start < second.end);
    }
    let (a, b) = (StreamDayKey(*b"2017-10-09"), StreamDayKey(*b"2017-10-10"));
    assert_eq!(a.midnights().1, b.midnights().0);
}

#[test]
fn days_get_the_time_within_their_bounds() {
    let (a, b) = (StreamDayKey(*b"2017-10-09"), StreamDayKey(*b"2017-10-10"));
    let (first, second) = (a.bounds().unwrap(), b.bounds().unwrap());
    let mut m = DayMap::new();
    let value = |recordings, duration| StreamDayValue { recordings, duration: Duration(duration) };
    adjust_days(Time(first.end.0 - 900_000)..Time(second.start.0 + 450_000), 1, &mut m);
    assert_eq!(vec![(a, value(1, 900_000)), (b, value(1, 450_000))], m.entries());
    adjust_days(Time(first.end.0 - 90_000)..first.end, 1, &mut m);
    assert_eq!(vec![(a, value(2, 990_000)), (b, value(1, 450_000))], m.entries());
    adjust_days(second.start..second.start, 1, &mut m);
    assert_eq!(vec![(a, value(2, 990_000)), (b, value(2, 450_000))], m.entries());
}

#[test]
fn sums_out_of_range_are_left_alone() {
    let day = StreamDayKey(*b"2016-02-09");
    let mut m = DayMap::new();
    let most = StreamDayValue { recordings: 1, duration: Duration(i64::MAX) };
    assert!(can_adjust_day(&day, most, &m));
    adjust_day(day, most, &mut m);
    assert!(!can_adjust_day(&day, most, &m));
    let split = DaySplit { first: Some(day), boundary: Time(100), second: Some(day) };
    assert!(!can_adjust_days_at(&(Time(0)..Time(200)), 1, &split, &m));
    assert!(can_adjust_days_at(&(Time(0)..Time(200)), -1, &split, &m));
    adjust_days_at(Time(0)..Time(0), -1, split, &mut m);
    assert_eq!(0, m.len());
    // Both halves on the same day.
    assert!(can_adjust_days_at(&(Time(0)..Time(200)), 1, &split, &m));
    adjust_days_at(Time(0)..Time(200), 1, split, &mut m);
    assert_eq!(Some(StreamDayValue { recordings: 2, duration: Duration(200) }), m.get(&day));
    // Days that can't be known.
    let unknown = DaySplit { first: None, ..split };
    adjust_days_at(Time(0)..Time(200), 1, unknown, &mut m);
    assert_eq!(Some(StreamDayValue { recordings: 2, duration: Duration(200) }), m.get(&day));
    let half = DaySplit { second: None, ..split };
    adjust_days_at(Time(0)..Time(200), 1, half, &mut m);
    assert_eq!(Some(StreamDayValue { recordings: 3, duration: Duration(300) }), m.get(&day));
}

#[test]
fn merging_adds_day_by_day() {
    let (a, b, c) =
        (StreamDayKey(*b"2016-02-09"), StreamDayKey(*b"2016-02-10"), StreamDayKey(*b"2016-02-11"));
    let value = |recordings, duration| StreamDayValue { recordings, duration: Duration(duration) };
    let mut m = DayMap::new();
    m.insert(c, value(1, 5));
    m.insert(a, value(2, 10));
    m.insert(b, value(1, 7));
    let mut delta = DayMap::new();
    delta.insert(a, value(1, -3));
    delta.insert(b, value(-1, -7));
    assert!(can_merge_days(&m, &delta));
    let copy = m.clone();
    merge_days(&mut m, &delta);
    assert_eq!(vec![(a, value(3, 7)), (c, value(1, 5))], m.entries());
    assert_eq!(3, copy.len());
    delta.insert(c, value(i64::MAX, 0));
    assert!(!can_merge_days(&m, &delta));
    m.remove(&c);
    assert_eq!(None, m.get(&c));
    assert!(can_merge_days(&m, &delta));
}

#[test]
fn adjust_day_by_the_negated_delta_undoes() {
    let day = StreamDayKey(*b"2015-04-26");
    let value = |recordings, duration| StreamDayValue { recordings, duration: Duration(duration) };
    for before in [None, Some(value(3, 70)), Some(value(-3, 5))] {
        for (recordings, duration) in [(1, 20), (-2, -9), (5, 0)] {
            let mut m = DayMap::new();
            if let Some(v) = before {
                m.insert(day, v);
            }
            adjust_day(day, value(recordings, duration), &mut m);
            adjust_day(day, value(-recordings, -duration), &mut m);
            assert_eq!(before, m.get(&day));
        }
    }
}

#[test]
fn changes_keep_a_duration_without_recordings() {
    let day = StreamDayKey(*b"2015-04-26");
    let other = StreamDayKey(*b"2015-04-27");
    let value = |recordings, duration| StreamDayValue { recordings, duration: Duration(duration) };
    let mut changes = DayMap::new();
    adjust_change(day, value(-1, -300), &mut changes);
    adjust_change(day, value(1, 70), &mut changes);
    assert_eq!(Some(value(0, -230)), changes.get(&day));
    let mut m = DayMap::new();
    m.insert(day, value(1, 300));
    merge_days(&mut m, &changes);
    assert_eq!(Some(value(1, 70)), m.get(&day));
    // No recordings, no day.
    let mut m = DayMap::new();
    merge_days(&mut m, &changes);
    assert_eq!(0, m.len());
    adjust_change(day, value(0, 230), &mut changes);
    assert_eq!(0, changes.len());

    let split = Some(DaySplit { first: Some(day), boundary: Time(100), second: Some(other) });
    adjust_changes_if_fit(Time(40)..Time(130), 1, split, &mut changes);
    assert_eq!(vec![(day, value(1, 60)), (other, value(1, 30))], changes.entries());
    adjust_changes_if_fit(Time(40)..Time(130), -1, None, &mut changes);
    assert_eq!(2, changes.len());
    adjust_changes_if_fit(Time(40)..Time(130), -1, split, &mut changes);
    assert_eq!(0, changes.len());
    // A sum that can't be held leaves everything as it is.
    changes.insert(other, value(0, i64::max_value()));
    adjust_changes_if_fit(Time(40)..Time(130), 1, split, &mut changes);
    assert_eq!(vec![(other, value(0, i64::max_value()))], changes.entries());
}
