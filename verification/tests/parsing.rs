use addon_booking::civil::{civil_to_unix, unix_to_civil, wall_cmp_le, Civil};
use addon_booking::error::{Error, ErrorClass};
use addon_booking::parse::{parse_book_date, parse_date, parse_time};
use addon_booking::recurrence::{parse_frequency, Frequency};
use addon_booking::render::{format_date_text, format_store_datetime, format_time_text};

fn civil(year: i32, month: u8, day: u8, hour: u8, minute: u8, second: u8) -> Civil {
    Civil { year, month, day, hour, minute, second }
}

#[test]
fn parse_date_accepts_real_days() {
    let c = parse_date("2024-12-02").unwrap();
    assert_eq!(c, civil(2024, 12, 2, 0, 0, 0));
    let leap = parse_date("2024-02-29").unwrap();
    assert_eq!(leap, civil(2024, 2, 29, 0, 0, 0));
}

#[test]
fn parse_date_rejects_bad_days() {
    assert_eq!(parse_date("2023-02-29"), Err(Error::InvalidDate));
    assert_eq!(parse_date("2024-13-01"), Err(Error::InvalidDate));
    assert_eq!(parse_date("2024-00-10"), Err(Error::InvalidDate));
    assert_eq!(parse_date("2024-04-31"), Err(Error::InvalidDate));
    assert_eq!(parse_date("2024/12/02"), Err(Error::InvalidDate));
    assert_eq!(parse_date("2024-12-2"), Err(Error::InvalidDate));
    assert_eq!(Error::InvalidDate.class(), ErrorClass::Validation);
}

#[test]
fn parse_time_accepts_store_times() {
    assert_eq!(parse_time("10:00:00"), Ok(36000));
    assert_eq!(parse_time("10:00:00.0"), Ok(36000));
    assert_eq!(parse_time("23:59:59"), Ok(86399));
    assert_eq!(parse_time("00:00:00"), Ok(0));
}

#[test]
fn parse_time_rejects_bad_times() {
    assert_eq!(parse_time("24:00:00"), Err(Error::InvalidTime));
    assert_eq!(parse_time("10:60:00"), Err(Error::InvalidTime));
    assert_eq!(parse_time("10:00"), Err(Error::InvalidTime));
    assert_eq!(parse_time("10-00-00"), Err(Error::InvalidTime));
    assert_eq!(parse_time("10:00:00.5"), Err(Error::InvalidTime));
}

#[test]
fn parse_book_date_reads_store_rows() {
    let c = parse_book_date("2025-01-02 12:00:00.0 +00:00:00").unwrap();
    assert_eq!(c, civil(2025, 1, 2, 12, 0, 0));
    let c = parse_book_date("2024-12-06 11:00:00.123 -08:00:00").unwrap();
    assert_eq!(c, civil(2024, 12, 6, 11, 0, 0));
}

#[test]
fn parse_book_date_rejects_malformed_rows() {
    assert_eq!(
        parse_book_date("2025-01-02 12:00:00 +00:00:00"),
        Err(Error::MalformedBookDate)
    );
    assert_eq!(
        parse_book_date("2025-01-02T12:00:00.0 +00:00:00"),
        Err(Error::MalformedBookDate)
    );
    assert_eq!(
        parse_book_date("2025-01-02 12:00:00.0 00:00:00"),
        Err(Error::MalformedBookDate)
    );
    assert_eq!(
        parse_book_date("2025-01-02 12:00:00.0 +99:00:00"),
        Err(Error::MalformedBookDate)
    );
    assert_eq!(Error::MalformedBookDate.class(), ErrorClass::Upstream);
}

#[test]
fn parse_frequency_knows_the_four_rules() {
    assert_eq!(parse_frequency("DAILY"), Ok(Frequency::Daily));
    assert_eq!(parse_frequency("WEEKLY"), Ok(Frequency::Weekly));
    assert_eq!(parse_frequency("MONTHLY"), Ok(Frequency::Monthly));
    assert_eq!(parse_frequency("YEARLY"), Ok(Frequency::Yearly));
    assert_eq!(parse_frequency("HOURLY"), Err(Error::InvalidFrequency));
    assert_eq!(parse_frequency("weekly"), Err(Error::InvalidFrequency));
    assert_eq!(Error::InvalidFrequency.class(), ErrorClass::Validation);
}

#[test]
fn formatters_write_the_store_profile() {
    let c = civil(2024, 12, 6, 11, 5, 9);
    assert_eq!(format_date_text(&c), "2024-12-06");
    assert_eq!(format_time_text(&c), "11:05:09");
    assert_eq!(format_store_datetime(&c), "2024-12-06 11:05:09.0 +00:00:00");
}

#[test]
fn store_datetime_round_trips() {
    let c = civil(2024, 12, 6, 11, 0, 0);
    let text = format_store_datetime(&c);
    assert_eq!(parse_book_date(&text), Ok(c));
    let c2 = civil(0, 1, 1, 0, 0, 0);
    assert_eq!(parse_book_date(&format_store_datetime(&c2)), Ok(c2));
}

#[test]
fn calendar_wrappers_agree_with_known_instants() {
    let c = civil(2024, 12, 2, 10, 0, 0);
    assert_eq!(civil_to_unix(&c, -28800), Some(1733162400));
    assert_eq!(civil_to_unix(&c, 0), Some(1733162400 - 28800));
    let back = unix_to_civil(1733162400, -28800).unwrap();
    assert_eq!(back, c);
    let utc = unix_to_civil(1733162400, 0).unwrap();
    assert_eq!(utc, civil(2024, 12, 2, 18, 0, 0));
    assert_eq!(civil_to_unix(&civil(2024, 2, 30, 0, 0, 0), 0), None);
}

#[test]
fn wall_clock_order_is_lexicographic() {
    let a = civil(2024, 12, 6, 10, 0, 0);
    let b = civil(2024, 12, 6, 11, 0, 0);
    let c = civil(2025, 1, 1, 0, 0, 0);
    assert!(wall_cmp_le(&a, &a));
    assert!(wall_cmp_le(&a, &b));
    assert!(!wall_cmp_le(&b, &a));
    assert!(wall_cmp_le(&b, &c));
}
