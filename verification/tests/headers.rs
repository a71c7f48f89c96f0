use http::header::{HeaderName, HeaderValue};
use http::HeaderMap;
use http_client::response::{header_field_from_parts, is_header_block_end, parse_header_line};
use http_client::{
    header_line_step, read_response_headers, ByteReader, ErrorKind, HeaderStep, HttpError,
};

fn read(block: &[u8]) -> (Result<HeaderMap, HttpError>, Vec<u8>) {
    let mut reader = ByteReader::new(block.to_vec());
    let result = read_response_headers(&mut reader);
    (result, reader.read_to_end())
}

fn value<'a>(headers: &'a HeaderMap, name: &str) -> Option<&'a [u8]> {
    headers.get(name).map(|v| v.as_bytes())
}

#[test]
fn block_is_read_up_to_the_empty_line() {
    let (headers, rest) =
        read(b"Content-Type: text/plain\r\nContent-Length: 5\r\n\r\nhello");
    let headers = headers.unwrap();
    assert_eq!(headers.len(), 2);
    assert_eq!(value(&headers, "content-type"), Some(&b"text/plain"[..]));
    assert_eq!(value(&headers, "content-length"), Some(&b"5"[..]));
    assert_eq!(rest, b"hello");
}

#[test]
fn names_are_stored_in_lower_case_in_order_of_first_appearance() {
    let (headers, _) = read(b"X-B: 1\r\nX-a: 2\r\nx-C: 3\r\n\r\n");
    let headers = headers.unwrap();
    let fields: Vec<(&str, &[u8])> =
        headers.iter().map(|(n, v)| (n.as_str(), v.as_bytes())).collect();
    assert_eq!(fields, vec![("x-b", &b"1"[..]), ("x-a", &b"2"[..]), ("x-c", &b"3"[..])]);
}

#[test]
fn a_later_field_replaces_an_earlier_one_of_the_same_name() {
    let (headers, _) = read(b"Set-Cookie: a=1\r\nHost: h\r\nset-cookie: b=2\r\nSET-COOKIE: c=3\r\n\r\n");
    let headers = headers.unwrap();
    let fields: Vec<(&str, &[u8])> =
        headers.iter().map(|(n, v)| (n.as_str(), v.as_bytes())).collect();
    assert_eq!(fields, vec![("set-cookie", &b"c=3"[..]), ("host", &b"h"[..])]);
}

#[test]
fn end_of_stream_ends_the_block() {
    let (headers, rest) = read(b"Host: example.com\r\n");
    assert_eq!(value(&headers.unwrap(), "host"), Some(&b"example.com"[..]));
    assert!(rest.is_empty());
    let (headers, rest) = read(b"");
    assert!(headers.unwrap().is_empty());
    assert!(rest.is_empty());
}

#[test]
fn last_line_without_line_ending_is_a_field() {
    let (headers, _) = read(b"a: 1\r\nb: 2");
    let headers = headers.unwrap();
    assert_eq!(value(&headers, "a"), Some(&b"1"[..]));
    assert_eq!(value(&headers, "b"), Some(&b"2"[..]));
}

#[test]
fn line_without_colon_space_is_passed_over() {
    let (headers, rest) = read(b"a: 1\r\nthis is not a header\r\nb:2\r\nc: 3\r\n\r\nrest");
    let headers = headers.unwrap();
    assert_eq!(headers.len(), 2);
    assert_eq!(value(&headers, "a"), Some(&b"1"[..]));
    assert_eq!(value(&headers, "b"), None);
    assert_eq!(value(&headers, "c"), Some(&b"3"[..]));
    assert_eq!(rest, b"rest");
}

#[test]
fn bare_line_feed_does_not_end_the_block() {
    let (headers, rest) = read(b"a: 1\n\nb: 2\r\n\r\nbody");
    let headers = headers.unwrap();
    assert_eq!(value(&headers, "a"), Some(&b"1"[..]));
    assert_eq!(value(&headers, "b"), Some(&b"2"[..]));
    assert_eq!(rest, b"body");
}

#[test]
fn value_keeps_inner_and_leading_space_and_loses_the_line_ending() {
    let (headers, _) = read(b"a:   spaced  out  \r\nb: x: y\r\nc: tail\r\r\n\n\r\n\r\n");
    let headers = headers.unwrap();
    assert_eq!(value(&headers, "a"), Some(&b"  spaced  out  "[..]));
    assert_eq!(value(&headers, "b"), Some(&b"x: y"[..]));
    assert_eq!(value(&headers, "c"), Some(&b"tail"[..]));
}

#[test]
fn empty_value_is_a_value() {
    let (headers, _) = read(b"x-empty: \r\n\r\n");
    assert_eq!(value(&headers.unwrap(), "x-empty"), Some(&b""[..]));
}

#[test]
fn value_may_hold_text_beyond_ascii() {
    let (headers, _) = read("x-name: caf\u{e9}\r\n\r\n".as_bytes());
    assert_eq!(value(&headers.unwrap(), "x-name"), Some("caf\u{e9}".as_bytes()));
}

#[test]
fn bad_name_fails_the_block() {
    for block in [
        &b"bad name: v\r\n\r\n"[..],
        b": v\r\n\r\n",
        b"na(me): v\r\n\r\n",
        b"a\tb: v\r\n\r\n",
        "n\u{e4}me: v\r\n\r\n".as_bytes(),
    ] {
        let (result, _) = read(block);
        let error = result.unwrap_err();
        assert_eq!(error, HttpError::InvalidHeaderName);
        assert_eq!(error.kind(), ErrorKind::Parse);
    }
}

#[test]
fn bad_value_fails_the_block() {
    for block in [&b"a: b\x00c\r\n\r\n"[..], b"a: \x7f\r\n\r\n", b"a: x\ry\r\n\r\n", b"a: \x1b[0m\r\n"] {
        let (result, _) = read(block);
        assert_eq!(result.unwrap_err(), HttpError::InvalidHeaderValue);
    }
}

#[test]
fn name_is_checked_before_value() {
    let (result, _) = read(b"bad name: \x00\r\n\r\n");
    assert_eq!(result.unwrap_err(), HttpError::InvalidHeaderName);
}

#[test]
fn line_that_is_not_utf8_fails_the_block() {
    let (result, _) = read(b"a: 1\r\nb: \xff\xfe\r\n\r\n");
    let error = result.unwrap_err();
    assert_eq!(error, HttpError::InvalidUtf8);
    assert_eq!(error.kind(), ErrorKind::Transport);
}

#[test]
fn name_is_lowered_by_the_unicode_case_mapping() {
    let (headers, _) = read("\u{212a}ey: kelvin\r\n\r\n".as_bytes());
    assert_eq!(value(&headers.unwrap(), "key"), Some(&b"kelvin"[..]));
    let field = parse_header_line("\u{212a}EY: v").unwrap().unwrap();
    assert_eq!(field.0.as_str(), "key");
    let (result, _) = read("\u{130}d: dotted\r\n\r\n".as_bytes());
    assert_eq!(result.unwrap_err(), HttpError::InvalidHeaderName);
}

#[test]
fn ascii_names_are_lowered_as_the_standard_library_lowers_them() {
    for name in ["Host", "CONTENT-LENGTH", "x-MiXeD_09.~", "a", "ETag", "!#$%&'*+-.^_`|~"] {
        let field = parse_header_line(&format!("{}: v\r\n", name)).unwrap().unwrap();
        assert_eq!(field.0.as_str(), name.to_lowercase());
        assert_eq!(field.0, HeaderName::from_bytes(name.to_lowercase().as_bytes()).unwrap());
        assert_eq!(field.1, HeaderValue::from_static("v"));
    }
}

#[test]
fn reading_the_same_block_twice_gives_the_same_collection() {
    let block = b"Host: a\r\nX-One: 1\r\nhost: b\r\nskipped\r\nX-Two: 2\r\n\r\ntail";
    let (first, first_rest) = read(block);
    let (second, second_rest) = read(block);
    let (first, second) = (first.unwrap(), second.unwrap());
    assert_eq!(first, second);
    assert_eq!(first.iter().collect::<Vec<_>>(), second.iter().collect::<Vec<_>>());
    assert_eq!(first_rest, second_rest);
}

#[test]
fn block_end_is_the_empty_line_or_no_line() {
    assert!(is_header_block_end(""));
    assert!(is_header_block_end("\r\n"));
    assert!(!is_header_block_end("\n"));
    assert!(!is_header_block_end("\r"));
    assert!(!is_header_block_end(" \r\n"));
    assert!(!is_header_block_end("\r\n\r\n"));
    assert!(!is_header_block_end("a: b\r\n"));
}

#[test]
fn step_says_what_the_line_was() {
    let mut headers = HeaderMap::new();
    assert_eq!(header_line_step(&mut headers, "Host: example.com\r\n"), Ok(HeaderStep::Stored));
    assert_eq!(header_line_step(&mut headers, "no separator here\r\n"), Ok(HeaderStep::Skipped));
    assert_eq!(header_line_step(&mut headers, "Host: other\r\n"), Ok(HeaderStep::Stored));
    assert_eq!(header_line_step(&mut headers, "\r\n"), Ok(HeaderStep::End));
    assert_eq!(header_line_step(&mut headers, ""), Ok(HeaderStep::End));
    assert_eq!(headers.len(), 1);
    assert_eq!(headers.get("host").unwrap(), "other");
    assert_eq!(header_line_step(&mut headers, "a b: c\r\n"), Err(HttpError::InvalidHeaderName));
    assert_eq!(header_line_step(&mut headers, "a: \x01\r\n"), Err(HttpError::InvalidHeaderValue));
    assert_eq!(headers.len(), 1);
}

#[test]
fn field_from_parts_checks_name_then_value() {
    let field = header_field_from_parts("X-Name", "a value").unwrap();
    assert_eq!(field.0.as_str(), "x-name");
    assert_eq!(field.1.as_bytes(), b"a value");
    assert_eq!(header_field_from_parts("", "v").unwrap_err(), HttpError::InvalidHeaderName);
    assert_eq!(header_field_from_parts("a:b", "v").unwrap_err(), HttpError::InvalidHeaderName);
    assert_eq!(header_field_from_parts("a", "v\n").unwrap_err(), HttpError::InvalidHeaderValue);
    assert_eq!(header_field_from_parts("a b", "v\n").unwrap_err(), HttpError::InvalidHeaderName);
    let longest = "a".repeat(65535);
    assert_eq!(header_field_from_parts(&longest, "").unwrap().0.as_str(), longest);
    let too_long = "a".repeat(65536);
    assert_eq!(header_field_from_parts(&too_long, "").unwrap_err(), HttpError::InvalidHeaderName);
}

#[test]
fn many_fields_are_all_kept() {
    let mut block = Vec::new();
    for i in 0..6554 {
        block.extend_from_slice(format!("x-field-{}: {}\r\n", i, i).as_bytes());
    }
    block.extend_from_slice(b"\r\n");
    let (headers, _) = read(&block);
    let headers = headers.unwrap();
    assert_eq!(headers.len(), 6554);
    assert_eq!(value(&headers, "x-field-6553"), Some(&b"6553"[..]));
    let names: Vec<String> = headers.keys().map(|n| n.as_str().to_string()).collect();
    let expected: Vec<String> = (0..6554).map(|i| format!("x-field-{}", i)).collect();
    assert_eq!(names, expected);
}

#[test]
fn a_block_the_collection_cannot_hold_is_refused_not_a_panic() {
    let mut block = Vec::new();
    for i in 0..40000 {
        block.extend_from_slice(format!("x-field-{}: {}\r\n", i, i).as_bytes());
    }
    block.extend_from_slice(b"\r\n");
    let (result, _) = read(&block);
    let error = result.unwrap_err();
    assert_eq!(error, HttpError::TooManyHeaders);
    assert_eq!(error.kind(), ErrorKind::Parse);
}

#[test]
fn reading_a_block_again_into_its_own_result_changes_nothing() {
    let lines = ["Host: a\r\n", "X-One: 1\r\n", "host: b\r\n", "skipped\r\n", "X-Two: 2\r\n", "x-one: 3\r\n", "\r\n"];
    let mut headers = HeaderMap::new();
    for line in lines {
        header_line_step(&mut headers, line).unwrap();
    }
    let once: Vec<(String, Vec<u8>)> =
        headers.iter().map(|(n, v)| (n.as_str().to_string(), v.as_bytes().to_vec())).collect();
    assert_eq!(
        once,
        vec![
            ("host".to_string(), b"b".to_vec()),
            ("x-one".to_string(), b"3".to_vec()),
            ("x-two".to_string(), b"2".to_vec()),
        ]
    );
    for line in lines {
        header_line_step(&mut headers, line).unwrap();
    }
    let twice: Vec<(String, Vec<u8>)> =
        headers.iter().map(|(n, v)| (n.as_str().to_string(), v.as_bytes().to_vec())).collect();
    assert_eq!(twice, once);
}

#[test]
fn a_field_replaces_every_value_held_under_its_name() {
    let mut headers = HeaderMap::new();
    headers.append(HeaderName::from_static("a"), HeaderValue::from_static("1"));
    headers.append(HeaderName::from_static("b"), HeaderValue::from_static("2"));
    headers.append(HeaderName::from_static("a"), HeaderValue::from_static("3"));
    headers.append(HeaderName::from_static("c"), HeaderValue::from_static("4"));
    headers.append(HeaderName::from_static("b"), HeaderValue::from_static("5"));
    let fields = |map: &HeaderMap| -> Vec<(String, Vec<u8>)> {
        map.iter().map(|(n, v)| (n.as_str().to_string(), v.as_bytes().to_vec())).collect()
    };
    let field = |n: &str, v: &str| (n.to_string(), v.as_bytes().to_vec());
    assert_eq!(
        fields(&headers),
        vec![field("a", "1"), field("a", "3"), field("b", "2"), field("b", "5"), field("c", "4")]
    );
    assert_eq!(header_line_step(&mut headers, "B: 9\r\n"), Ok(HeaderStep::Stored));
    assert_eq!(
        fields(&headers),
        vec![field("a", "1"), field("a", "3"), field("b", "9"), field("c", "4")]
    );
    assert_eq!(header_line_step(&mut headers, "d: 0\r\n"), Ok(HeaderStep::Stored));
    assert_eq!(header_line_step(&mut headers, "a: 8\r\n"), Ok(HeaderStep::Stored));
    assert_eq!(
        fields(&headers),
        vec![field("a", "8"), field("b", "9"), field("c", "4"), field("d", "0")]
    );
}

#[test]
fn many_lines_of_a_few_names_are_never_refused() {
    let mut block = Vec::new();
    for i in 0..30000 {
        block.extend_from_slice(format!("X-Name-{}: {}\r\n", i % 3, i).as_bytes());
    }
    block.extend_from_slice(b"\r\nbody");
    let (headers, rest) = read(&block);
    let headers = headers.unwrap();
    assert_eq!(headers.len(), 3);
    assert_eq!(value(&headers, "x-name-0"), Some(&b"29997"[..]));
    assert_eq!(value(&headers, "x-name-1"), Some(&b"29998"[..]));
    assert_eq!(value(&headers, "x-name-2"), Some(&b"29999"[..]));
    assert_eq!(rest, b"body");
}

#[test]
fn the_empty_line_is_consumed_and_no_byte_of_the_body() {
    let (headers, rest) = read(b"A: 1\r\n\nB: 2\r\n\r\n\r\nbody\r\n\r\n");
    let headers = headers.unwrap();
    assert_eq!(headers.len(), 2);
    assert_eq!(rest, b"\r\nbody\r\n\r\n");
    let (headers, rest) = read(b"\r\nonly a body");
    assert!(headers.unwrap().is_empty());
    assert_eq!(rest, b"only a body");
}

#[test]
fn last_value_wins_under_each_name_whatever_its_case() {
    let lines = [("Host", "a"), ("ETag", "1"), ("HOST", "b"), ("etag", "2"), ("x", "y"), ("hOsT", "c")];
    let mut block = Vec::new();
    for (name, v) in lines {
        block.extend_from_slice(format!("{}: {}\r\n", name, v).as_bytes());
    }
    block.extend_from_slice(b"\r\n");
    let (headers, _) = read(&block);
    let headers = headers.unwrap();
    assert_eq!(headers.len(), 3);
    for (name, _) in lines {
        let lower = name.to_lowercase();
        let last = lines.iter().rev().find(|(n, _)| n.to_lowercase() == lower).unwrap().1;
        assert_eq!(value(&headers, &lower), Some(last.as_bytes()));
    }
}
