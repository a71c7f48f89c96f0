use http::header::{HeaderName, HeaderValue, ACCEPT, CONTENT_LENGTH, HOST, USER_AGENT};
use http::HeaderMap;
use http_client::{
    read_response_headers, serialize_http_request, Authority, ByteReader, ErrorKind, HttpError,
    Request, Uri, Version,
};

fn request(method: &str, path: Option<&str>, version: Version, headers: HeaderMap) -> Request {
    Request {
        method: method.to_string(),
        uri: Uri {
            scheme: Some("http".to_string()),
            authority: Some(Authority { host: "example.com".to_string(), port: None }),
            path_and_query: path.map(|p| p.to_string()),
        },
        version,
        headers,
        body: None,
    }
}

#[test]
fn get_request_for_example_com_has_exact_bytes() {
    let mut headers = HeaderMap::new();
    headers.insert("Host", HeaderValue::from_static("example.com"));
    let text = serialize_http_request(&request("GET", Some("/"), Version::Http11, headers)).unwrap();
    assert_eq!(text.as_bytes(), b"GET / HTTP/1.1\r\nhost: example.com\r\n\r\n");
}

#[test]
fn request_without_headers_is_request_line_and_empty_line() {
    let text =
        serialize_http_request(&request("GET", Some("/"), Version::Http11, HeaderMap::new()))
            .unwrap();
    assert_eq!(text, "GET / HTTP/1.1\r\n\r\n");
}

#[test]
fn missing_path_and_query_is_written_as_slash() {
    let text = serialize_http_request(&request("HEAD", None, Version::Http11, HeaderMap::new()))
        .unwrap();
    assert_eq!(text, "HEAD / HTTP/1.1\r\n\r\n");
}

#[test]
fn path_and_query_are_written_as_given() {
    let text = serialize_http_request(&request(
        "GET",
        Some("/socket.io/websocket?from=chart%2F&type=chart"),
        Version::Http11,
        HeaderMap::new(),
    ))
    .unwrap();
    assert_eq!(text, "GET /socket.io/websocket?from=chart%2F&type=chart HTTP/1.1\r\n\r\n");
}

#[test]
fn each_version_has_its_name_on_the_request_line() {
    let cases = [
        (Version::Http10, "HTTP/1.0"),
        (Version::Http11, "HTTP/1.1"),
        (Version::H2, "HTTP/2.0"),
        (Version::H3, "HTTP/3.0"),
        (Version::Http09, "HTTP/1.1"),
    ];
    for (version, name) in cases {
        let text =
            serialize_http_request(&request("GET", Some("/x"), version, HeaderMap::new())).unwrap();
        assert_eq!(text, format!("GET /x {}\r\n\r\n", name));
        assert_eq!(version.request_name(), name);
    }
}

#[test]
fn headers_are_written_in_iteration_order_one_line_each() {
    let mut headers = HeaderMap::new();
    headers.insert(USER_AGENT, HeaderValue::from_static("http_client/1.0"));
    headers.insert(HOST, HeaderValue::from_static("www.example.org"));
    headers.insert(ACCEPT, HeaderValue::from_static("*/*"));
    let mut expected = String::from("POST /submit HTTP/1.0\r\n");
    for (name, value) in headers.iter() {
        expected.push_str(&format!("{}: {}\r\n", name.as_str(), value.to_str().unwrap()));
    }
    expected.push_str("\r\n");
    let text =
        serialize_http_request(&request("POST", Some("/submit"), Version::Http10, headers)).unwrap();
    assert_eq!(text, expected);
    assert_eq!(
        text,
        "POST /submit HTTP/1.0\r\nuser-agent: http_client/1.0\r\nhost: www.example.org\r\naccept: */*\r\n\r\n"
    );
}

#[test]
fn a_name_with_several_values_gets_one_line_per_value() {
    let mut headers = HeaderMap::new();
    headers.append(ACCEPT, HeaderValue::from_static("text/html"));
    headers.append(HOST, HeaderValue::from_static("h"));
    headers.append(ACCEPT, HeaderValue::from_static("text/plain"));
    let text = serialize_http_request(&request("GET", Some("/"), Version::Http11, headers)).unwrap();
    assert_eq!(
        text,
        "GET / HTTP/1.1\r\naccept: text/html\r\naccept: text/plain\r\nhost: h\r\n\r\n"
    );
}

#[test]
fn header_value_with_opaque_byte_is_a_format_error() {
    let mut headers = HeaderMap::new();
    headers.insert(HOST, HeaderValue::from_static("example.com"));
    headers.insert(
        HeaderName::from_static("x-opaque"),
        HeaderValue::from_bytes(b"caf\xe9").unwrap(),
    );
    let error =
        serialize_http_request(&request("GET", Some("/"), Version::Http11, headers)).unwrap_err();
    assert_eq!(error, HttpError::HeaderValueNotText);
    assert_eq!(error.kind(), ErrorKind::Format);
}

#[test]
fn header_value_with_tab_is_written() {
    let mut headers = HeaderMap::new();
    headers.insert(HeaderName::from_static("x-tab"), HeaderValue::from_bytes(b"a\tb").unwrap());
    let text = serialize_http_request(&request("GET", Some("/"), Version::Http11, headers)).unwrap();
    assert_eq!(text, "GET / HTTP/1.1\r\nx-tab: a\tb\r\n\r\n");
}

#[test]
fn serializer_adds_no_framing_header_and_no_body() {
    let mut req = request("POST", Some("/"), Version::Http11, HeaderMap::new());
    req.body = Some(b"hello".to_vec());
    let text = serialize_http_request(&req).unwrap();
    assert_eq!(text, "POST / HTTP/1.1\r\n\r\n");
}

#[test]
fn payload_is_the_body_unless_absent_or_empty() {
    let mut req = request("POST", Some("/"), Version::Http11, HeaderMap::new());
    assert_eq!(req.payload(), None);
    req.body = Some(Vec::new());
    assert_eq!(req.payload(), None);
    req.body = Some(b"abc".to_vec());
    assert_eq!(req.payload(), Some(&b"abc".to_vec()));
}

#[test]
fn serialized_headers_are_read_back_by_the_header_reader() {
    let mut headers = HeaderMap::new();
    headers.insert(HOST, HeaderValue::from_static("example.com"));
    headers.insert(USER_AGENT, HeaderValue::from_static("http_client/1.0"));
    headers.insert(CONTENT_LENGTH, HeaderValue::from_static("12"));
    headers.insert(HeaderName::from_static("x-empty"), HeaderValue::from_static(""));
    let text = serialize_http_request(&request(
        "PUT",
        Some("/a?b=c"),
        Version::Http11,
        headers.clone(),
    ))
    .unwrap();
    let mut reader = ByteReader::new(text.into_bytes());
    let line = reader.read_line().unwrap();
    let words: Vec<&str> = line.split_whitespace().collect();
    assert_eq!(words, vec!["PUT", "/a?b=c", "HTTP/1.1"]);
    let read_back = read_response_headers(&mut reader).unwrap();
    assert_eq!(read_back, headers);
    let in_order: Vec<_> = read_back.iter().collect();
    assert_eq!(in_order, headers.iter().collect::<Vec<_>>());
    assert_eq!(reader.read_to_end(), Vec::<u8>::new());
}
