//! Tests of the byte-level grammar: the version line, header lines, the
//! header block with its content-length scan, and whole records in both
//! operating modes.
use warc::parser::{
    header, headers, is_header_token_char, record, version, FaultKind, ParseFault, ParseOutcome,
    ParsedHeader, ParsedRecord, PartResult,
};

#[test]
fn version_parsing() {
    assert_eq!(
        version(&b"WARC/0.0\r\n"[..]),
        PartResult::Done(b"0.0".to_vec(), 10)
    );

    assert_eq!(
        version(&b"WARC/1.0\r\n"[..]),
        PartResult::Done(b"1.0".to_vec(), 10)
    );

    assert_eq!(
        version(&b"WARC/2.0-alpha\r\n"[..]),
        PartResult::Done(b"2.0-alpha".to_vec(), 16)
    );
}

#[test]
fn header_pair_parsing() {
    let input = &b"some-header: all/the/things\r\n"[..];
    assert_eq!(
        header(input),
        PartResult::Done(
            ParsedHeader {
                key: "some-header".to_string(),
                value: b"all/the/things".to_vec(),
                delim_left: b"".to_vec(),
                delim_right: b" ".to_vec(),
            },
            input.len()
        )
    );

    let input = &b"another-header : with extra spaces\r\n"[..];
    assert_eq!(
        header(input),
        PartResult::Done(
            ParsedHeader {
                key: "another-header".to_string(),
                value: b"with extra spaces".to_vec(),
                delim_left: b" ".to_vec(),
                delim_right: b" ".to_vec(),
            },
            input.len()
        )
    );

    assert_eq!(
        header(&b"incomplete-header : missing-line-ending"[..]),
        PartResult::NeedMore
    );
}

#[test]
fn headers_parsing() {
    let raw_invalid = b"\
            content-length: R2D2\r\n\
            that: is not\r\n\
            a-valid: content-length\r\n\
            \r\n\
        ";

    assert_eq!(
        headers(&raw_invalid[..]),
        PartResult::Fail(ParseFault {
            at: raw_invalid.len() - 2,
            kind: FaultKind::LengthNotInteger,
        })
    );

    let raw = b"\
            content-length: 42\r\n\
            foo: is fantastic\r\n\
            bar: is beautiful\r\n\
            baz: is bananas\r\n\
            \r\n\
        ";
    let expected_headers = vec![
        ParsedHeader::new("content-length", b"42"),
        ParsedHeader::new("foo", b"is fantastic"),
        ParsedHeader::new("bar", b"is beautiful"),
        ParsedHeader::new("baz", b"is bananas"),
    ];
    let expected_len = 42;

    assert_eq!(
        headers(&raw[..]),
        PartResult::Done((expected_headers, expected_len), raw.len() - 2)
    );
}

#[test]
fn parse_record() {
    let raw = b"\
            WARC/1.0\r\n\
            Warc-Type: dunno\r\n\
            Content-Length: 5\r\n\
            \r\n\
            12345\r\n\
            \r\n\
        ";

    let expected = ParsedRecord {
        version: b"1.0".to_vec(),
        headers: vec![
            ParsedHeader::new("Warc-Type", b"dunno"),
            ParsedHeader::new("Content-Length", b"5"),
        ],
        body: b"12345".to_vec(),
    };

    assert_eq!(
        record(&raw[..], true),
        ParseOutcome::Parsed(expected, raw.len())
    );
}

#[test]
fn token_chars() {
    assert!(is_header_token_char(b'a'));
    assert!(is_header_token_char(b'Z'));
    assert!(is_header_token_char(b'-'));
    assert!(is_header_token_char(b'0'));
    assert!(!is_header_token_char(b':'));
    assert!(!is_header_token_char(b' '));
    assert!(!is_header_token_char(b'('));
    assert!(!is_header_token_char(0x1f));
    assert!(!is_header_token_char(0x7f));
    assert!(!is_header_token_char(0x80));
}

#[test]
fn length_value_not_integer_fault() {
    let raw = b"\
            WARC/1.0\r\n\
            Warc-Type: dunno\r\n\
            content-length: R2D2\r\n\
            \r\n\
            12345\r\n\
            \r\n\
        ";
    match record(&raw[..], false) {
        ParseOutcome::Failed(f) => assert_eq!(f.kind, FaultKind::LengthNotInteger),
        other => panic!("expected a failure, got {:?}", other),
    }
}

#[test]
fn streaming_needs_more_where_complete_fails() {
    let raw = b"WARC/1.0\r\nWarc-Type: du";
    assert_eq!(record(&raw[..], true), ParseOutcome::Partial);
    assert_eq!(
        record(&raw[..], false),
        ParseOutcome::Failed(ParseFault {
            at: raw.len(),
            kind: FaultKind::Syntax,
        })
    );
}

#[test]
fn bare_line_feed_accepted() {
    let raw = b"WARC/1.0\nWarc-Type: dunno\nContent-Length: 3\n\nabc\n\n";
    match record(&raw[..], false) {
        ParseOutcome::Parsed(rec, rest) => {
            assert_eq!(rec.version, b"1.0".to_vec());
            assert_eq!(rec.body, b"abc".to_vec());
            assert_eq!(rest, raw.len());
        }
        other => panic!("expected a record, got {:?}", other),
    }
}

#[test]
fn body_may_hold_terminators_and_version_text() {
    let raw = b"WARC/1.0\r\nContent-Length: 12\r\n\r\n\r\nWARC/1.0\r\n\r\n\r\n";
    match record(&raw[..], false) {
        ParseOutcome::Parsed(rec, rest) => {
            assert_eq!(rec.body, b"\r\nWARC/1.0\r\n".to_vec());
            assert_eq!(rest, raw.len());
        }
        other => panic!("expected a record, got {:?}", other),
    }
}

#[test]
fn zero_header_lines_is_a_grammar_failure() {
    let raw = b"WARC/1.0\r\n\r\n\r\n\r\n";
    match record(&raw[..], false) {
        ParseOutcome::Failed(f) => assert_eq!(f.kind, FaultKind::Syntax),
        other => panic!("expected a failure, got {:?}", other),
    }
}

#[test]
fn first_content_length_wins() {
    let raw = b"WARC/1.0\r\nContent-Length: 3\r\nContent-Length: 5\r\n\r\nabc\r\n\r\n";
    match record(&raw[..], false) {
        ParseOutcome::Parsed(rec, _) => {
            assert_eq!(rec.body, b"abc".to_vec());
            assert_eq!(rec.headers.len(), 2);
        }
        other => panic!("expected a record, got {:?}", other),
    }
}
