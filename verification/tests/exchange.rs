use http::header::{HeaderName, HeaderValue, HOST};
use http::HeaderMap;
use http_client::{
    read_response, read_response_status_line, AsyncConnection, AsyncConnectionFactory, Authority,
    ByteReader, Connection, ErrorKind, HttpError, MemoryConnection, Request, Transport, Uri,
    Version,
};

fn uri(scheme: Option<&str>, host: Option<&str>, port: Option<u16>) -> Uri {
    Uri {
        scheme: scheme.map(|s| s.to_string()),
        authority: host.map(|h| Authority { host: h.to_string(), port }),
        path_and_query: Some("/".to_string()),
    }
}

fn request(uri: Uri) -> Request {
    let mut headers = HeaderMap::new();
    headers.insert(HOST, HeaderValue::from_static("example.com"));
    Request { method: "GET".to_string(), uri, version: Version::Http11, headers, body: None }
}

fn response(stream: &[u8]) -> (Result<http_client::Response, HttpError>, Vec<u8>) {
    let mut reader = ByteReader::new(stream.to_vec());
    let result = read_response(&mut reader);
    (result, reader.read_to_end())
}

#[test]
fn reader_reads_lines_exact_counts_and_the_rest() {
    let mut reader = ByteReader::new(b"one\r\ntwo\nthree".to_vec());
    assert_eq!(reader.read_line().unwrap(), "one\r\n");
    assert_eq!(reader.read_exact(2).unwrap(), b"tw");
    assert_eq!(reader.read_line().unwrap(), "o\n");
    assert_eq!(reader.read_exact(6), Err(HttpError::UnexpectedEof));
    assert_eq!(reader.read_exact(0).unwrap(), b"");
    assert_eq!(reader.read_line().unwrap(), "three");
    assert_eq!(reader.read_line().unwrap(), "");
    assert_eq!(reader.read_exact(1), Err(HttpError::UnexpectedEof));
    assert_eq!(reader.read_to_end(), b"");
}

#[test]
fn reader_refuses_a_line_that_is_not_utf8_and_goes_on_after_it() {
    let mut reader = ByteReader::new(b"ok\n\xc3\x28\nnext\n".to_vec());
    assert_eq!(reader.read_line().unwrap(), "ok\n");
    assert_eq!(reader.read_line(), Err(HttpError::InvalidUtf8));
    assert_eq!(reader.read_line().unwrap(), "next\n");
    let mut reader = ByteReader::new("gr\u{fc}\u{df}e\r\n".as_bytes().to_vec());
    assert_eq!(reader.read_line().unwrap(), "gr\u{fc}\u{df}e\r\n");
}

#[test]
fn status_line_is_the_first_line_of_the_stream() {
    let mut reader = ByteReader::new(b"HTTP/1.1 200 OK\r\nHost: x\r\n".to_vec());
    assert_eq!(read_response_status_line(&mut reader).unwrap(), "HTTP/1.1 200 OK\r\n");
    assert_eq!(reader.read_to_end(), b"Host: x\r\n");
}

#[test]
fn response_with_content_length_is_read() {
    let (result, rest) = response(
        b"HTTP/1.1 200 OK\r\nContent-Type: text/plain\r\nContent-Length: 5\r\n\r\nhelloEXTRA",
    );
    let received = result.unwrap();
    assert_eq!(received.version, Version::Http11);
    assert_eq!(received.status, 200);
    assert_eq!(received.headers.len(), 2);
    assert_eq!(received.headers.get("content-type").unwrap(), "text/plain");
    assert_eq!(received.body, b"hello");
    assert_eq!(rest, b"EXTRA");
}

#[test]
fn chunked_response_is_read() {
    let (result, rest) = response(
        b"HTTP/1.1 200 OK\r\nTransfer-Encoding: chunked\r\n\r\n4\r\nWiki\r\n5\r\npedia\r\n0\r\n\r\n",
    );
    let received = result.unwrap();
    assert_eq!(received.body, b"Wikipedia");
    assert_eq!(rest, b"\r\n");
}

#[test]
fn upgrade_response_has_no_body() {
    let (result, rest) = response(
        b"HTTP/1.1 101 Switching Protocols\r\nUpgrade: websocket\r\nConnection: Upgrade\r\n\r\n\x81\x02hi",
    );
    let received = result.unwrap();
    assert_eq!(received.status, 101);
    assert_eq!(received.body, b"");
    assert_eq!(rest, b"\x81\x02hi");
}

#[test]
fn close_delimited_response_is_read_to_the_end() {
    let (result, rest) = response(b"HTTP/1.0 404 Not Found\r\nServer: s\r\n\r\nnot here");
    let received = result.unwrap();
    assert_eq!((received.version, received.status), (Version::Http10, 404));
    assert_eq!(received.body, b"not here");
    assert!(rest.is_empty());
}

#[test]
fn each_part_of_a_response_can_fail_it() {
    let cases: [(&[u8], HttpError); 12] = [
        (b"", HttpError::MalformedStatusLine),
        (b"HTTP/1.1\r\n\r\n", HttpError::MalformedStatusLine),
        (b"\xff\xff 200\r\n\r\n", HttpError::InvalidUtf8),
        (b"HTTP/3.0 200 OK\r\n\r\n", HttpError::UnsupportedVersion),
        (b"HTTP/1.1 600 OK\r\n\r\n", HttpError::InvalidStatusCode),
        (b"HTTP/1.1 200 OK\r\nbad name: v\r\n\r\n", HttpError::InvalidHeaderName),
        (b"HTTP/1.1 200 OK\r\nname: \x00\r\n\r\n", HttpError::InvalidHeaderValue),
        (b"HTTP/1.1 200 OK\r\ncontent-length: 9\r\n\r\nshort", HttpError::UnexpectedEof),
        (b"HTTP/1.1 200 OK\r\ncontent-length: nine\r\n\r\n", HttpError::InvalidContentLength),
        (b"HTTP/1.1 200 OK\r\ntransfer-encoding: gzip\r\n\r\n", HttpError::UnsupportedTransferEncoding),
        (b"HTTP/1.1 200 OK\r\ntransfer-encoding: chunked\r\n\r\nzz\r\n", HttpError::InvalidChunkSize),
        (b"HTTP/1.1 200 OK\r\ntransfer-encoding: chunked\r\n\r\n1\r\nabc", HttpError::InvalidChunkedEncoding),
    ];
    for (stream, expected) in cases {
        let (result, _) = response(stream);
        assert_eq!(result.err(), Some(expected), "{:?}", String::from_utf8_lossy(stream));
    }
}

#[test]
fn exchange_writes_the_request_and_reads_the_response() {
    let mut connection =
        MemoryConnection::new(b"HTTP/1.1 200 OK\r\nContent-Length: 2\r\n\r\nok".to_vec());
    let mut req = request(uri(Some("http"), Some("example.com"), None));
    req.method = "POST".to_string();
    req.headers.insert(HeaderName::from_static("content-length"), HeaderValue::from_static("4"));
    req.body = Some(b"data".to_vec());
    let received = connection.send_request(&req).unwrap();
    assert_eq!(
        connection.outgoing,
        b"POST / HTTP/1.1\r\nhost: example.com\r\ncontent-length: 4\r\n\r\ndata"
    );
    assert_eq!(received.status, 200);
    assert_eq!(received.body, b"ok");
    assert_eq!(connection.incoming.read_to_end(), b"");
    assert!(!Connection::is_encrypted(&connection));
}

#[test]
fn exchange_without_body_writes_the_head_only() {
    let mut connection = MemoryConnection::new(b"HTTP/1.1 204 No Content\r\n\r\n".to_vec());
    let mut req = request(uri(Some("http"), Some("example.com"), None));
    req.body = Some(Vec::new());
    let received = connection.send_request(&req).unwrap();
    assert_eq!(connection.outgoing, b"GET / HTTP/1.1\r\nhost: example.com\r\n\r\n");
    assert_eq!(received.status, 204);
    assert_eq!(received.body, b"");
}

#[test]
fn request_that_cannot_be_serialized_is_not_sent() {
    let mut connection = MemoryConnection::new(b"HTTP/1.1 200 OK\r\n\r\n".to_vec());
    let mut req = request(uri(Some("http"), Some("example.com"), None));
    req.headers.insert(HeaderName::from_static("x-bin"), HeaderValue::from_bytes(b"\x80").unwrap());
    req.body = Some(b"data".to_vec());
    assert_eq!(connection.send_request(&req).err(), Some(HttpError::HeaderValueNotText));
    assert!(connection.outgoing.is_empty());
    assert_eq!(connection.incoming.read_to_end(), b"HTTP/1.1 200 OK\r\n\r\n");
}

#[test]
fn failed_response_is_reported_after_the_request_went_out() {
    let mut connection = MemoryConnection::new(b"garbage".to_vec());
    let req = request(uri(Some("http"), Some("example.com"), None));
    assert_eq!(connection.send_request(&req).err(), Some(HttpError::MalformedStatusLine));
    assert_eq!(connection.outgoing, b"GET / HTTP/1.1\r\nhost: example.com\r\n\r\n");
}

#[test]
fn scheme_gives_the_port_where_the_uri_has_none() {
    for (scheme, port) in [("http", 80), ("https", 443), ("ws", 80), ("wss", 443)] {
        let target = AsyncConnectionFactory::extract_host_from_request(&request(uri(
            Some(scheme),
            Some("example.com"),
            None,
        )));
        assert_eq!(target, Ok((scheme.to_string(), "example.com".to_string(), port)));
        assert_eq!(AsyncConnectionFactory::default_port(scheme), Some(port));
    }
}

#[test]
fn port_of_the_uri_goes_before_the_port_of_the_scheme() {
    let target = AsyncConnectionFactory::extract_host_from_request(&request(uri(
        Some("https"),
        Some("data.example.org"),
        Some(8443),
    )));
    assert_eq!(target, Ok(("https".to_string(), "data.example.org".to_string(), 8443)));
}

#[test]
fn uri_without_host_or_scheme_or_with_unknown_scheme_is_refused() {
    let extract = |u: Uri| AsyncConnectionFactory::extract_host_from_request(&request(u));
    assert_eq!(extract(uri(Some("http"), None, None)), Err(HttpError::MissingAuthority));
    assert_eq!(extract(uri(None, None, None)), Err(HttpError::MissingAuthority));
    assert_eq!(extract(uri(None, Some("example.com"), Some(80))), Err(HttpError::MissingScheme));
    assert_eq!(extract(uri(Some("ftp"), Some("example.com"), None)), Err(HttpError::UnsupportedScheme));
    assert_eq!(extract(uri(Some("ftp"), Some("example.com"), Some(21))), Err(HttpError::UnsupportedScheme));
    assert_eq!(extract(uri(Some("HTTP"), Some("example.com"), None)), Err(HttpError::UnsupportedScheme));
    assert_eq!(extract(uri(Some(""), Some("example.com"), None)), Err(HttpError::UnsupportedScheme));
    assert_eq!(extract(uri(Some("http"), Some("example.com"), Some(0))), Err(HttpError::UnsupportedScheme));
    assert_eq!(AsyncConnectionFactory::default_port("gopher"), None);
    assert_eq!(HttpError::UnsupportedScheme.kind(), ErrorKind::Transport);
}

#[test]
fn secure_schemes_run_over_tls() {
    assert_eq!(AsyncConnectionFactory::transport_for("https"), Transport::Tls);
    assert_eq!(AsyncConnectionFactory::transport_for("wss"), Transport::Tls);
    assert_eq!(AsyncConnectionFactory::transport_for("http"), Transport::Plain);
    assert_eq!(AsyncConnectionFactory::transport_for("ws"), Transport::Plain);
    assert_eq!(AsyncConnectionFactory::transport_for("HTTPS"), Transport::Plain);
    assert!(AsyncConnection::is_encrypted(&Transport::Tls));
    assert!(!AsyncConnection::is_encrypted(&Transport::Plain));
    assert!(Connection::is_encrypted(&Transport::Tls));
    assert!(!Connection::is_encrypted(&Transport::Plain));
}

#[test]
fn every_error_has_a_kind_and_a_message() {
    let all = [
        (HttpError::HeaderValueNotText, ErrorKind::Format),
        (HttpError::MalformedStatusLine, ErrorKind::Parse),
        (HttpError::UnsupportedVersion, ErrorKind::Parse),
        (HttpError::InvalidStatusCode, ErrorKind::Parse),
        (HttpError::InvalidHeaderName, ErrorKind::Parse),
        (HttpError::InvalidHeaderValue, ErrorKind::Parse),
        (HttpError::TooManyHeaders, ErrorKind::Parse),
        (HttpError::InvalidContentLength, ErrorKind::Parse),
        (HttpError::InvalidChunkSize, ErrorKind::Parse),
        (HttpError::InvalidChunkedEncoding, ErrorKind::Parse),
        (HttpError::UnsupportedTransferEncoding, ErrorKind::UnsupportedFeature),
        (HttpError::UnexpectedEof, ErrorKind::Transport),
        (HttpError::InvalidUtf8, ErrorKind::Transport),
        (HttpError::MissingAuthority, ErrorKind::Transport),
        (HttpError::MissingScheme, ErrorKind::Transport),
        (HttpError::UnsupportedScheme, ErrorKind::Transport),
    ];
    let mut messages = Vec::new();
    for (error, kind) in all {
        assert_eq!(error.kind(), kind);
        assert!(!error.message().is_empty());
        assert!(!messages.contains(&error.message()));
        messages.push(error.message());
    }
}
