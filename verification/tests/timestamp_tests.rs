//! Tests of the timestamp: the canonical written form, the wider grammar
//! with offsets, and the edges of the civil calendar.
use warc::{Record, Timestamp, WarcHeader};

#[test]
fn canonical_form_parses_exactly() {
    let t = Record::parse_record_date("2020-07-08T02:52:55Z").unwrap();
    assert_eq!(
        t,
        Timestamp {
            year: 2020,
            month: 7,
            day: 8,
            hour: 2,
            minute: 52,
            second: 55,
        }
    );
}

#[test]
fn offset_is_normalized_to_utc() {
    let t = Record::parse_record_date("2020-07-08T02:52:55+01:00").unwrap();
    assert_eq!(
        t,
        Timestamp {
            year: 2020,
            month: 7,
            day: 8,
            hour: 1,
            minute: 52,
            second: 55,
        }
    );
}

#[test]
fn subseconds_truncate_to_whole_seconds() {
    let t = Record::parse_record_date("2020-07-08T02:52:55.750Z").unwrap();
    assert_eq!(t.second, 55);
    let mut record = Record::default();
    record.set_date(t);
    assert_eq!(
        record.header(WarcHeader::Date).unwrap(),
        "2020-07-08T02:52:55Z"
    );
}

#[test]
fn leap_day_is_checked() {
    assert!(Record::parse_record_date("2020-02-29T00:00:00Z").is_ok());
    assert!(Record::parse_record_date("2021-02-29T00:00:00Z").is_err());
}

#[test]
fn ambiguous_date_text_is_rejected() {
    assert!(Record::parse_record_date("July 8, 2020").is_err());
    assert!(Record::parse_record_date("2020-07-08").is_err());
    assert!(Record::parse_record_date("").is_err());
}
