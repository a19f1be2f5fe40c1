//! The Japanese textual date format: rendering and parsing.

use jpdate::datetime::{Timestamp, Weekday};
use jpdate::format::{format_japan_date, format_japan_weekday};
use jpdate::parse::{parse_japan_date, ParseError};

fn ts(year: i64, month: u8, day: u8, hour: u8, minute: u8, second: u8) -> Timestamp {
    Timestamp::new(year, month, day, hour, minute, second, 0, 0).unwrap()
}

#[test]
fn test_format_japan_date() {
    let local = Timestamp::new(2018, 1, 2, 3, 44, 55, 0, 32400).unwrap();
    assert!(format_japan_date(&local) == "2018年01月02日(火) 03時44分55秒");
}

#[test]
fn test_parse_japan_date() {
    let date = String::from("2018年01月02日(火) 03時44分55秒");
    assert!(parse_japan_date(&date).expect("error") == ts(2018, 1, 2, 3, 44, 55));
}

#[test]
fn test_weekday_glyphs() {
    assert_eq!(format_japan_weekday(&Weekday::Mon), "月");
    assert_eq!(format_japan_weekday(&Weekday::Tue), "火");
    assert_eq!(format_japan_weekday(&Weekday::Wed), "水");
    assert_eq!(format_japan_weekday(&Weekday::Thu), "木");
    assert_eq!(format_japan_weekday(&Weekday::Fri), "金");
    assert_eq!(format_japan_weekday(&Weekday::Sat), "土");
    assert_eq!(format_japan_weekday(&Weekday::Sun), "日");
}

#[test]
fn test_weekday_of_date() {
    assert_eq!(ts(2018, 1, 2, 0, 0, 0).weekday(), Weekday::Tue);
    assert_eq!(ts(2000, 1, 1, 0, 0, 0).weekday(), Weekday::Sat);
    assert_eq!(ts(1970, 1, 1, 0, 0, 0).weekday(), Weekday::Thu);
}

#[test]
fn test_parse_ignores_weekday_glyph() {
    // The true weekday of 2018-01-02 is 火; the glyph is not validated.
    let date = String::from("2018年01月02日(水) 03時44分55秒");
    assert_eq!(parse_japan_date(&date), Ok(ts(2018, 1, 2, 3, 44, 55)));
}

#[test]
fn test_parse_invalid_month() {
    let date = String::from("2018年13月02日(月) 03時44分55秒");
    assert_eq!(parse_japan_date(&date), Err(ParseError::OutOfRange));
}

#[test]
fn test_parse_malformed() {
    let date = String::from("not a date");
    assert_eq!(parse_japan_date(&date), Err(ParseError::Malformed));
}

#[test]
fn test_parse_day_out_of_range() {
    let date = String::from("2019年02月29日(金) 00時00分00秒");
    assert_eq!(parse_japan_date(&date), Err(ParseError::OutOfRange));
}

#[test]
fn test_parse_leap_day() {
    let date = String::from("2020年02月29日(土) 00時00分00秒");
    assert_eq!(parse_japan_date(&date), Ok(ts(2020, 2, 29, 0, 0, 0)));
}

#[test]
fn test_parse_hour_out_of_range() {
    let date = String::from("2018年01月02日(火) 24時00分00秒");
    assert_eq!(parse_japan_date(&date), Err(ParseError::OutOfRange));
}

#[test]
fn test_parse_without_parens() {
    // The strip step removes nothing here, and the remainder already
    // matches the template, so parsing succeeds.
    let date = String::from("2018年01月02日 03時44分55秒");
    assert_eq!(parse_japan_date(&date), Ok(ts(2018, 1, 2, 3, 44, 55)));
}

#[test]
fn test_parse_unpadded_field_rejected() {
    // Every field after the year is exactly two digits.
    let date = String::from("2018年1月02日(火) 03時44分55秒");
    assert_eq!(parse_japan_date(&date), Err(ParseError::Malformed));
}

#[test]
fn test_round_trip_fields() {
    let t = Timestamp::new(2020, 2, 29, 23, 59, 59, 0, 32400).unwrap();
    let text = format_japan_date(&t);
    assert_eq!(text, "2020年02月29日(土) 23時59分59秒");
    let back = parse_japan_date(&text).unwrap();
    assert_eq!(back.year, t.year);
    assert_eq!(back.month, t.month);
    assert_eq!(back.day, t.day);
    assert_eq!(back.hour, t.hour);
    assert_eq!(back.minute, t.minute);
    assert_eq!(back.second, t.second);
}

#[test]
fn test_round_trip_small_year() {
    // The year is rendered unpadded, so year 812 prints with three digits
    // and still reads back.
    let t = ts(812, 7, 9, 1, 2, 3);
    let text = format_japan_date(&t);
    assert_eq!(text, "812年07月09日(月) 01時02分03秒");
    assert_eq!(parse_japan_date(&text), Ok(ts(812, 7, 9, 1, 2, 3)));
}

#[test]
fn test_new_rejects_bad_fields() {
    assert!(Timestamp::new(2018, 13, 1, 0, 0, 0, 0, 0).is_none());
    assert!(Timestamp::new(2018, 2, 29, 0, 0, 0, 0, 0).is_none());
    assert!(Timestamp::new(2018, 1, 1, 24, 0, 0, 0, 0).is_none());
    assert!(Timestamp::new(10000, 1, 1, 0, 0, 0, 0, 0).is_none());
    assert!(Timestamp::new(2018, 1, 1, 0, 0, 0, 1_000_000_000, 0).is_none());
    assert!(Timestamp::new(2018, 1, 1, 0, 0, 0, 0, 86400).is_none());
}
