//! Tests of the whole codec path: records written to bytes, parsed back,
//! folded and validated again.
use warc::encode::to_bytes;
use warc::parser::{record, ParseOutcome};
use warc::{RawRecord, Record, RecordType, WarcHeader};

fn sample_record() -> Record {
    let mut rec = Record::default();
    rec.set_warc_id("<urn:test:codec:record-0>");
    rec.set_header(WarcHeader::Date, "2020-07-08T02:52:55Z").unwrap();
    rec.set_warc_type(RecordType::Response);
    rec.set_header(WarcHeader::TargetURI, "https://example.com/a")
        .unwrap();
    rec.replace_body(b"hello, archive".to_vec());
    rec
}

#[test]
fn bytes_roundtrip_preserves_every_field() {
    let rec = sample_record();
    let expected = rec.clone();

    let (headers, body) = rec.into_raw_parts();
    let bytes = to_bytes(&RawRecord { headers, body });

    let parsed = match record(bytes.as_slice(), false) {
        ParseOutcome::Parsed(p, used) => {
            assert_eq!(used, bytes.len());
            p
        }
        other => panic!("expected a record, got {:?}", other),
    };
    let raw = RawRecord::from_parsed(&parsed).unwrap();
    assert_eq!(raw.headers.version, "WARC/1.0");
    let back = Record::try_from_raw(raw).unwrap();
    assert_eq!(back, expected);
}

#[test]
fn synthesis_is_byte_identical() {
    let rec = sample_record();
    let (h1, b1) = rec.clone().into_raw_parts();
    let (h2, b2) = rec.into_raw_parts();
    assert_eq!(
        to_bytes(&RawRecord { headers: h1, body: b1 }),
        to_bytes(&RawRecord { headers: h2, body: b2 })
    );
}

#[test]
fn written_form_is_exact() {
    let mut rec = Record::default();
    rec.set_warc_id("<urn:test:exact:record-0>");
    rec.set_header(WarcHeader::Date, "2020-07-08T02:52:55Z").unwrap();
    rec.set_warc_type(RecordType::Resource);
    rec.replace_body(b"12345".to_vec());
    let (headers, body) = rec.into_raw_parts();
    let bytes = to_bytes(&RawRecord { headers, body });
    let expected = b"WARC/1.0\r\n\
        Content-Length: 5\r\n\
        WARC-Type: resource\r\n\
        WARC-Record-ID: <urn:test:exact:record-0>\r\n\
        WARC-Date: 2020-07-08T02:52:55Z\r\n\
        \r\n\
        12345\r\n\
        \r\n";
    assert_eq!(bytes, expected.to_vec());
}

#[test]
fn fold_lets_the_later_duplicate_win() {
    let raw = b"WARC/1.0\r\nX-Note: first\r\nx-note: second\r\n\r\n\r\n\r\n";
    let parsed = match record(&raw[..], false) {
        ParseOutcome::Parsed(p, _) => p,
        other => panic!("expected a record, got {:?}", other),
    };
    assert_eq!(parsed.headers.len(), 2);
    let folded = RawRecord::from_parsed(&parsed).unwrap();
    assert_eq!(folded.headers.header_map().len(), 1);
    assert_eq!(
        folded
            .headers
            .header_map()
            .get(&WarcHeader::Unknown("X-Note".to_string()))
            .unwrap(),
        &b"second".to_vec()
    );
}

#[test]
fn parse_then_validate_rejects_missing_type() {
    let raw = b"WARC/1.0\r\n\
        Content-Length: 5\r\n\
        WARC-Record-ID: <urn:test:x>\r\n\
        WARC-Date: 2020-07-08T02:52:55Z\r\n\
        \r\n\
        12345\r\n\
        \r\n";
    let parsed = match record(&raw[..], false) {
        ParseOutcome::Parsed(p, _) => p,
        other => panic!("expected a record, got {:?}", other),
    };
    let folded = RawRecord::from_parsed(&parsed).unwrap();
    assert_eq!(
        Record::try_from_raw(folded).unwrap_err(),
        warc::Error::MissingHeader(WarcHeader::WarcType)
    );
}
