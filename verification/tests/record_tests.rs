//! Tests of the typed record: field access, header assignment, and the
//! fallible conversion from raw records.
use warc::{Error, HeaderMap, RawHeaderBlock, RawRecord, Record, RecordType, WarcHeader};

#[test]
fn impl_eq() {
    let record1 = Record::default();
    let record2 = record1.clone();
    assert_eq!(record1, record2);
}

#[test]
fn body() {
    let mut record = Record::default();
    assert_eq!(record.content_length(), 0);
    assert_eq!(record.body(), &[] as &[u8]);
    record.replace_body(b"hello!!".to_vec());
    assert_eq!(record.content_length(), 7);
    assert_eq!(record.body(), b"hello!!");
    assert!(record.overwrite_body(b"goodbye"));
    assert_eq!(record.content_length(), 7);
    assert_eq!(record.body(), b"goodbye");
}

#[test]
fn add_header() {
    let mut record = Record::default();
    assert!(record.header(WarcHeader::TargetURI).is_none());
    assert!(record
        .set_header(WarcHeader::TargetURI, "https://www.rust-lang.org")
        .unwrap()
        .is_none());
    assert_eq!(
        record.header(WarcHeader::TargetURI).unwrap(),
        "https://www.rust-lang.org"
    );
    assert_eq!(
        record
            .set_header(WarcHeader::TargetURI, "https://docs.rs")
            .unwrap()
            .unwrap(),
        "https://www.rust-lang.org"
    );
    assert_eq!(
        record.header(WarcHeader::TargetURI).unwrap(),
        "https://docs.rs"
    );
}

#[test]
fn set_header_override_content_length() {
    let mut record = Record::default();
    assert_eq!(record.header(WarcHeader::ContentLength).unwrap(), "0");
    assert!(record
        .set_header(WarcHeader::ContentLength, "really short")
        .is_err());
    assert!(record.set_header(WarcHeader::ContentLength, "50").is_err());
    assert_eq!(
        record
            .set_header(WarcHeader::ContentLength, "0")
            .unwrap()
            .unwrap(),
        "0"
    );
}

#[test]
fn set_header_override_warc_date() {
    let mut record = Record::default();
    let old_date = record.header(WarcHeader::Date).unwrap();
    assert_eq!(record.header(WarcHeader::Date).unwrap(), old_date);
    assert!(record.set_header(WarcHeader::Date, "yesterday").is_err());
    assert_eq!(
        record
            .set_header(WarcHeader::Date, "2020-07-21T22:00:00Z")
            .unwrap()
            .unwrap(),
        old_date
    );
    assert_eq!(
        record.header(WarcHeader::Date).unwrap(),
        "2020-07-21T22:00:00Z"
    );
}

#[test]
fn set_header_override_warc_record_id() {
    let mut record = Record::default();
    let old_id = record.warc_id().to_string();
    assert_eq!(record.header(WarcHeader::RecordID).unwrap(), old_id.as_str());
    assert_eq!(
        record
            .set_header(WarcHeader::RecordID, "urn:http:www.rust-lang.org")
            .unwrap()
            .unwrap(),
        old_id.as_str()
    );
    assert_eq!(
        record.header(WarcHeader::RecordID).unwrap(),
        "urn:http:www.rust-lang.org"
    );
}

#[test]
fn set_header_override_warc_type() {
    let mut record = Record::default();
    assert_eq!(record.header(WarcHeader::WarcType).unwrap(), "resource");
    assert_eq!(
        record
            .set_header(WarcHeader::WarcType, "revisit")
            .unwrap()
            .unwrap(),
        "resource"
    );
    assert_eq!(record.header(WarcHeader::WarcType).unwrap(), "revisit");
}

fn block_with(entries: Vec<(WarcHeader, Vec<u8>)>) -> RawHeaderBlock {
    let mut headers = HeaderMap::new();
    for (key, value) in entries {
        headers.insert(key, value);
    }
    RawHeaderBlock {
        version: "WARC/1.0".to_owned(),
        headers,
    }
}

#[test]
fn create() {
    let record = RawRecord {
        headers: block_with(vec![]),
        body: vec![],
    };

    assert_eq!(record.body.len(), 0);
}

#[test]
fn create_with_headers() {
    let record = RawRecord {
        headers: block_with(vec![(
            WarcHeader::WarcType,
            RecordType::WarcInfo.label().into_bytes(),
        )]),
        body: vec![],
    };

    assert_eq!(record.headers.header_map().len(), 1);
}

#[test]
fn verify_ok() {
    let record = RawRecord {
        headers: block_with(vec![
            (WarcHeader::WarcType, b"dunno".to_vec()),
            (WarcHeader::ContentLength, b"5".to_vec()),
            (
                WarcHeader::RecordID,
                b"<urn:test:basic-record:record-0>".to_vec(),
            ),
            (WarcHeader::Date, b"2020-07-08T02:52:55Z".to_vec()),
        ]),
        body: b"12345".to_vec(),
    };

    assert!(Record::try_from_raw(record).is_ok());
}

#[test]
fn verify_missing_type() {
    let record = RawRecord {
        headers: block_with(vec![
            (WarcHeader::ContentLength, b"5".to_vec()),
            (
                WarcHeader::RecordID,
                b"<urn:test:basic-record:record-0>".to_vec(),
            ),
            (WarcHeader::Date, b"2020-07-08T02:52:55Z".to_vec()),
        ]),
        body: b"12345".to_vec(),
    };

    assert!(Record::try_from_raw(record).is_err());
}

#[test]
fn verify_missing_content_length() {
    let record = RawRecord {
        headers: block_with(vec![
            (WarcHeader::WarcType, b"dunno".to_vec()),
            (
                WarcHeader::RecordID,
                b"<urn:test:basic-record:record-0>".to_vec(),
            ),
            (WarcHeader::Date, b"2020-07-08T02:52:55Z".to_vec()),
        ]),
        body: b"12345".to_vec(),
    };

    assert!(Record::try_from_raw(record).is_err());
}

#[test]
fn verify_missing_record_id() {
    let record = RawRecord {
        headers: block_with(vec![
            (WarcHeader::WarcType, b"dunno".to_vec()),
            (WarcHeader::ContentLength, b"5".to_vec()),
            (WarcHeader::Date, b"2020-07-08T02:52:55Z".to_vec()),
        ]),
        body: b"12345".to_vec(),
    };

    assert!(Record::try_from_raw(record).is_err());
}

#[test]
fn verify_missing_date() {
    let record = RawRecord {
        headers: block_with(vec![
            (WarcHeader::WarcType, b"dunno".to_vec()),
            (WarcHeader::ContentLength, b"5".to_vec()),
            (
                WarcHeader::RecordID,
                b"<urn:test:basic-record:record-0>".to_vec(),
            ),
        ]),
        body: b"12345".to_vec(),
    };

    assert!(Record::try_from_raw(record).is_err());
}

#[test]
fn missing_type_names_the_field() {
    let record = RawRecord {
        headers: block_with(vec![
            (WarcHeader::ContentLength, b"5".to_vec()),
            (
                WarcHeader::RecordID,
                b"<urn:test:basic-record:record-0>".to_vec(),
            ),
            (WarcHeader::Date, b"2020-07-08T02:52:55Z".to_vec()),
        ]),
        body: b"12345".to_vec(),
    };

    assert_eq!(
        Record::try_from_raw(record).unwrap_err(),
        Error::MissingHeader(WarcHeader::WarcType)
    );
}

#[test]
fn length_mismatch_is_its_own_fault() {
    let record = RawRecord {
        headers: block_with(vec![
            (WarcHeader::WarcType, b"dunno".to_vec()),
            (WarcHeader::ContentLength, b"4".to_vec()),
            (WarcHeader::RecordID, b"<urn:test:x>".to_vec()),
            (WarcHeader::Date, b"2020-07-08T02:52:55Z".to_vec()),
        ]),
        body: b"12345".to_vec(),
    };
    assert_eq!(
        Record::try_from_raw(record).unwrap_err(),
        Error::MalformedHeader(
            WarcHeader::ContentLength,
            "content length != body length".to_string()
        )
    );
}

#[test]
fn record_id_not_text_is_malformed() {
    let record = RawRecord {
        headers: block_with(vec![
            (WarcHeader::WarcType, b"dunno".to_vec()),
            (WarcHeader::ContentLength, b"5".to_vec()),
            (WarcHeader::RecordID, vec![0xff, 0xfe]),
            (WarcHeader::Date, b"2020-07-08T02:52:55Z".to_vec()),
        ]),
        body: b"12345".to_vec(),
    };
    assert_eq!(
        Record::try_from_raw(record).unwrap_err(),
        Error::MalformedHeader(WarcHeader::RecordID, "not a UTF-8 string".to_string())
    );
}

#[test]
fn roundtrip_typed() {
    let mut record = Record::default();
    record.set_warc_id("<urn:test:roundtrip:record-0>");
    record
        .set_header(WarcHeader::Date, "2020-07-08T02:52:55Z")
        .unwrap();
    record.set_warc_type(RecordType::Response);
    record
        .set_header(WarcHeader::TargetURI, "https://example.com/")
        .unwrap();
    record.replace_body(b"payload".to_vec());
    let expected = record.clone();

    let (headers, body) = record.into_raw_parts();
    let back = Record::try_from_raw(RawRecord { headers, body }).unwrap();
    assert_eq!(back, expected);
}

#[test]
fn content_length_accepts_a_plus_sign() {
    let mut record = Record::default();
    record.replace_body(b"12345".to_vec());
    assert_eq!(
        record
            .set_header(WarcHeader::ContentLength, "+5")
            .unwrap()
            .unwrap(),
        "+5"
    );
    assert!(record.set_header(WarcHeader::ContentLength, " 5").is_err());
}

#[test]
fn empty_extension_value_roundtrips() {
    let mut record = Record::default();
    record
        .set_header(WarcHeader::Date, "2020-07-08T02:52:55Z")
        .unwrap();
    record.set_header(WarcHeader::Profile, "").unwrap();
    let expected = record.clone();
    let (headers, body) = record.into_raw_parts();
    let back = Record::try_from_raw(warc::RawRecord { headers, body }).unwrap();
    assert_eq!(back.header(WarcHeader::Profile).unwrap(), "");
    assert_eq!(back, expected);
}

#[test]
fn fresh_record_id_shape() {
    let id = Record::generate_record_id();
    assert_eq!(id.len(), 47);
    assert!(id.starts_with("<urn:uuid:"));
    assert!(id.ends_with('>'));
    let bytes = id.as_bytes();
    for i in 10..46 {
        if i == 18 || i == 23 || i == 28 || i == 33 {
            assert_eq!(bytes[i], b'-');
        } else {
            assert!(bytes[i].is_ascii_hexdigit() && !bytes[i].is_ascii_uppercase());
        }
    }
}
