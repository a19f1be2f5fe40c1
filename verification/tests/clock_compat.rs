//! Clock and ISO-format checks against chrono itself: two readings of one
//! instant agree on the epoch second, and the ISO round trip holds.

use chrono::offset::FixedOffset;
use chrono::{DateTime, Local, TimeZone, Utc};
use jpdate::datetime::Timestamp;

#[test]
fn test_now() {
    // One snapshot read in both zones: the epoch second is zone-independent.
    let utc = Utc::now();
    let local = utc.with_timezone(&Local);
    assert!(utc.timestamp() == local.timestamp());
}

#[test]
fn test_format_iso() {
    let datetime = Utc.with_ymd_and_hms(2018, 1, 2, 3, 44, 55).unwrap();
    assert!(datetime.format("%Y-%m-%dT%H:%M:%S%z").to_string() == "2018-01-02T03:44:55+0000");
}

#[test]
fn test_parse_iso() {
    let datetime = "2018-01-02T03:44:55+0900";
    assert!(
        DateTime::parse_from_str(datetime, "%Y-%m-%dT%H:%M:%S%z")
            == Ok(
                FixedOffset::east_opt(60 * 60 * 9)
                    .unwrap()
                    .with_ymd_and_hms(2018, 1, 2, 3, 44, 55)
                    .unwrap(),
            )
    );
}

#[test]
fn test_library_agrees_with_chrono_epoch() {
    // The verified conversion and chrono compute the same epoch second.
    let ours = Timestamp::new(2018, 1, 2, 3, 44, 55, 0, 32400).unwrap();
    let theirs = FixedOffset::east_opt(32400)
        .unwrap()
        .with_ymd_and_hms(2018, 1, 2, 3, 44, 55)
        .unwrap();
    assert_eq!(jpdate::epoch::epoch_from_datetime(&ours).secs, theirs.timestamp());
}
