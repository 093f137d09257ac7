//! Tests of the failure-deferring builder and its two completion
//! operations.
use warc::{
    Error, HeaderMap, RawHeaderBlock, RawRecord, Record, RecordBuilder, RecordType, TruncatedType,
    WarcHeader,
};

#[test]
fn record_default() {
    let (headers, body) = RecordBuilder::default().build_raw();
    assert_eq!(headers.version, "WARC/1.0".to_string());
    assert_eq!(
        headers.header_map().get(&WarcHeader::ContentLength).unwrap(),
        &b"0".to_vec()
    );
    assert!(body.is_empty());
    assert!(RecordBuilder::default().build().is_ok());
}

#[test]
fn impl_eq_raw() {
    let builder = RecordBuilder::default();
    let raw1 = builder.clone().build_raw();

    let raw2 = builder.build_raw();
    assert_eq!(raw1, raw2);
}

#[test]
fn impl_eq_record() {
    let builder = RecordBuilder::default();
    let record1 = builder.clone().build().unwrap();

    let record2 = builder.build().unwrap();
    assert_eq!(record1, record2);
}

fn block_with(entries: Vec<(WarcHeader, Vec<u8>)>) -> RawHeaderBlock {
    let mut headers = HeaderMap::new();
    for (key, value) in entries {
        headers.insert(key, value);
    }
    RawHeaderBlock {
        version: "WARC/1.0".to_owned(),
        headers,
    }
}

#[test]
fn record_create_with_headers() {
    let record = RawRecord {
        headers: block_with(vec![(
            WarcHeader::WarcType,
            RecordType::WarcInfo.label().into_bytes(),
        )]),
        body: vec![],
    };

    assert_eq!(record.headers.header_map().len(), 1);
}

#[test]
fn record_verify_ok() {
    let record = RawRecord {
        headers: block_with(vec![
            (WarcHeader::WarcType, b"dunno".to_vec()),
            (WarcHeader::ContentLength, b"5".to_vec()),
            (
                WarcHeader::RecordID,
                b"<urn:test:basic-record:record-0>".to_vec(),
            ),
            (WarcHeader::Date, b"2020-07-08T02:52:55Z".to_vec()),
        ]),
        body: b"12345".to_vec(),
    };

    assert!(Record::try_from_raw(record).is_ok());
}

#[test]
fn verify_content_length() {
    let mut builder = RecordBuilder::default();
    builder.body(b"12345".to_vec());

    assert_eq!(
        builder
            .clone()
            .build()
            .unwrap()
            .into_raw_parts()
            .0
            .header_map()
            .get(&WarcHeader::ContentLength)
            .unwrap(),
        &b"5".to_vec()
    );

    assert_eq!(
        builder
            .clone()
            .build_raw()
            .0
            .header_map()
            .get(&WarcHeader::ContentLength)
            .unwrap(),
        &b"5".to_vec()
    );

    builder.header(WarcHeader::ContentLength, "1");
    assert_eq!(
        builder
            .clone()
            .build_raw()
            .0
            .header_map()
            .get(&WarcHeader::ContentLength)
            .unwrap(),
        &b"1".to_vec()
    );

    assert!(builder.build().is_err());
}

#[test]
fn verify_build_record_type() {
    let mut builder1 = RecordBuilder::default();
    let mut builder2 = builder1.clone();

    builder1.header(WarcHeader::WarcType, "request");
    builder2.warc_type(RecordType::Request);

    let record1 = builder1.build().unwrap();
    let record2 = builder2.build().unwrap();

    assert_eq!(record1, record2);
    assert_eq!(
        record1
            .into_raw_parts()
            .0
            .header_map()
            .get(&WarcHeader::WarcType),
        Some(&b"request".to_vec())
    );
}

#[test]
fn verify_build_date() {
    const DATE_STRING_0: &str = "2020-07-08T02:52:55Z";
    const DATE_STRING_1: &str = "2020-07-18T02:12:45Z";

    let mut builder = RecordBuilder::default();
    builder.date(Record::parse_record_date(DATE_STRING_0).unwrap());

    let record = builder.clone().build().unwrap();
    assert_eq!(
        record
            .into_raw_parts()
            .0
            .header_map()
            .get(&WarcHeader::Date)
            .unwrap()
            .as_slice(),
        DATE_STRING_0.as_bytes()
    );
    assert_eq!(
        builder
            .clone()
            .build_raw()
            .0
            .header_map()
            .get(&WarcHeader::Date)
            .unwrap()
            .as_slice(),
        DATE_STRING_0.as_bytes()
    );

    builder.header(WarcHeader::Date, DATE_STRING_1);
    let record = builder.clone().build().unwrap();
    assert_eq!(
        record
            .into_raw_parts()
            .0
            .header_map()
            .get(&WarcHeader::Date)
            .unwrap()
            .as_slice(),
        DATE_STRING_1.as_bytes()
    );
    assert_eq!(
        builder
            .clone()
            .build_raw()
            .0
            .header_map()
            .get(&WarcHeader::Date)
            .unwrap()
            .as_slice(),
        DATE_STRING_1.as_bytes()
    );

    builder.header(WarcHeader::Date, "not-a-dayTor:a:time");
    assert!(builder.build().is_err());
}

#[test]
fn verify_build_record_id() {
    const RECORD_ID_0: &str = "<urn:test:verify-build-id:record-0>";
    const RECORD_ID_1: &str = "<urn:test:verify-build-id:record-1>";

    let mut builder = RecordBuilder::default();
    builder.warc_id(RECORD_ID_0);

    let record = builder.clone().build().unwrap();
    assert_eq!(
        record
            .into_raw_parts()
            .0
            .header_map()
            .get(&WarcHeader::RecordID)
            .unwrap(),
        &RECORD_ID_0.as_bytes().to_vec()
    );
    assert_eq!(
        builder
            .clone()
            .build_raw()
            .0
            .header_map()
            .get(&WarcHeader::RecordID)
            .unwrap(),
        &RECORD_ID_0.as_bytes().to_vec()
    );

    builder.header(WarcHeader::RecordID, RECORD_ID_1);
    let record = builder.clone().build().unwrap();
    assert_eq!(
        record
            .into_raw_parts()
            .0
            .header_map()
            .get(&WarcHeader::RecordID)
            .unwrap(),
        &RECORD_ID_1.as_bytes().to_vec()
    );
    assert_eq!(
        builder
            .clone()
            .build_raw()
            .0
            .header_map()
            .get(&WarcHeader::RecordID)
            .unwrap(),
        &RECORD_ID_1.as_bytes().to_vec()
    );
}

#[test]
fn verify_build_truncated_type() {
    const TRUNCATED_TYPE_0: &[u8] = b"length";
    const TRUNCATED_TYPE_1: &[u8] = b"disconnect";

    let mut builder = RecordBuilder::default();
    builder.truncated_type(TruncatedType::Length);

    let record = builder.clone().build().unwrap();
    assert_eq!(
        record
            .into_raw_parts()
            .0
            .header_map()
            .get(&WarcHeader::Truncated)
            .unwrap(),
        &TRUNCATED_TYPE_0.to_vec()
    );
    assert_eq!(
        builder
            .clone()
            .build_raw()
            .0
            .header_map()
            .get(&WarcHeader::Truncated)
            .unwrap(),
        &TRUNCATED_TYPE_0.to_vec()
    );

    builder.header(WarcHeader::Truncated, "disconnect");
    let record = builder.clone().build().unwrap();
    assert_eq!(
        record
            .into_raw_parts()
            .0
            .header_map()
            .get(&WarcHeader::Truncated)
            .unwrap(),
        &TRUNCATED_TYPE_1.to_vec()
    );
    assert_eq!(
        builder
            .clone()
            .build_raw()
            .0
            .header_map()
            .get(&WarcHeader::Truncated)
            .unwrap(),
        &TRUNCATED_TYPE_1.to_vec()
    );

    builder.header(WarcHeader::Truncated, "foreign-intervention");
    assert_eq!(
        builder
            .clone()
            .build()
            .unwrap()
            .into_raw_parts()
            .0
            .header_map()
            .get(&WarcHeader::Truncated)
            .unwrap()
            .as_slice(),
        &b"foreign-intervention"[..]
    );

    assert_eq!(
        builder
            .clone()
            .build_raw()
            .0
            .header_map()
            .get(&WarcHeader::Truncated)
            .unwrap()
            .as_slice(),
        &b"foreign-intervention"[..]
    );
}

#[test]
fn date_fault_deferred_then_raw_escape() {
    let mut builder = RecordBuilder::default();
    builder.header(WarcHeader::Date, "not-a-date");

    match builder.clone().build() {
        Err(Error::MalformedHeader(h, _)) => assert_eq!(h, WarcHeader::Date),
        other => panic!("expected the date fault, got {:?}", other),
    }

    let (headers, _) = builder.build_raw();
    assert_eq!(
        headers.header_map().get(&WarcHeader::Date).unwrap(),
        &b"not-a-date".to_vec()
    );
}
