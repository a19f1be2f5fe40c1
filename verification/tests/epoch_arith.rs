//! Epoch conversion and duration arithmetic. Where a value depends on the
//! zone, the offset is pinned to +09:00 (32400 seconds east of UTC).

use chrono::offset::Offset;
use chrono::{Datelike, Timelike};
use jpdate::datetime::Timestamp;
use jpdate::epoch::{
    add_days, datetime_from_epoch_with_offset, diff_seconds, epoch_from_datetime,
    local_from_epoch, EpochValue,
};

/// The current local time as a library timestamp, to whole seconds.
fn now_local() -> Timestamp {
    let now = chrono::Local::now();
    Timestamp::new(
        now.year() as i64,
        now.month() as u8,
        now.day() as u8,
        now.hour() as u8,
        now.minute() as u8,
        now.second() as u8,
        0,
        now.offset().fix().local_minus_utc(),
    )
    .unwrap()
}

#[test]
fn test_epoch_from_datetime() {
    let local = Timestamp::new(2018, 1, 1, 0, 0, 0, 0, 32400).unwrap();
    let e = epoch_from_datetime(&local);
    assert!(e.secs as f64 + e.nanos as f64 / 1e9 == 1514732400.0);
}

#[test]
fn test_local_from_epoch() {
    let epoch: f64 = 1514732400.0;
    let secs = epoch as i64;
    let nanos = ((epoch - secs as f64) * 1e9) as u32;
    assert!(
        datetime_from_epoch_with_offset(secs, nanos, 32400)
            == Timestamp::new(2018, 1, 1, 0, 0, 0, 0, 32400).unwrap()
    );
}

#[test]
fn test_local_from_epoch_zone_lookup() {
    // Whatever offset the machine's zone yields, the conversion reads
    // back to the same epoch second.
    let e = EpochValue { secs: 1514732400, nanos: 0 };
    let t = local_from_epoch(&e);
    assert_eq!(epoch_from_datetime(&t), e);
    let zero = EpochValue { secs: 0, nanos: 0 };
    let t0 = local_from_epoch(&zero);
    assert_eq!(epoch_from_datetime(&t0).secs, 0);
    assert_eq!(t0.year, if t0.offset < 0 { 1969 } else { 1970 });
}

#[test]
fn test_tomorrow() {
    let local = now_local();
    let tomorrow = add_days(&local, 1);
    assert!(epoch_from_datetime(&local).secs + 24 * 60 * 60 == epoch_from_datetime(&tomorrow).secs);
}

#[test]
fn test_yesterday() {
    let local = now_local();
    let yesterday = add_days(&local, -1);
    assert!(
        epoch_from_datetime(&local).secs - 24 * 60 * 60 == epoch_from_datetime(&yesterday).secs
    );
}

#[test]
fn test_diff() {
    let local = now_local();
    let tomorrow = add_days(&local, 1);
    assert!(diff_seconds(&tomorrow, &local) == 24 * 60 * 60);
}

#[test]
fn test_epoch_of_unix_origin() {
    let t = Timestamp::new(1970, 1, 1, 0, 0, 0, 0, 0).unwrap();
    assert_eq!(epoch_from_datetime(&t).secs, 0);
}

#[test]
fn test_epoch_negative_before_origin() {
    let t = Timestamp::new(1969, 12, 31, 23, 59, 59, 500_000_000, 0).unwrap();
    let e = epoch_from_datetime(&t);
    assert_eq!(e.secs, -1);
    assert_eq!(e.nanos, 500_000_000);
}

#[test]
fn test_epoch_round_trip_with_offset() {
    let t = Timestamp::new(2018, 6, 15, 12, 30, 45, 123_456_789, -18000).unwrap();
    let e = epoch_from_datetime(&t);
    assert_eq!(datetime_from_epoch_with_offset(e.secs, e.nanos, -18000), t);
}
