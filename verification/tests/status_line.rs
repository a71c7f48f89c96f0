use http_client::{parse_response_status_line, ErrorKind, HttpError, Version};

#[test]
fn ok_status_line_parses() {
    assert_eq!(parse_response_status_line("HTTP/1.1 200 OK\r\n"), Ok((Version::Http11, 200)));
}

#[test]
fn every_supported_version_and_code_parses_to_itself() {
    let versions =
        [("HTTP/1.0", Version::Http10), ("HTTP/1.1", Version::Http11), ("HTTP/2.0", Version::H2)];
    for (word, version) in versions {
        for code in 100u16..=599 {
            let line = format!("{} {} Some Reason\r\n", word, code);
            assert_eq!(parse_response_status_line(&line), Ok((version, code)));
        }
    }
}

#[test]
fn codes_at_the_ends_of_the_range_are_status_codes() {
    assert_eq!(parse_response_status_line("HTTP/1.1 100 x\r\n"), Ok((Version::Http11, 100)));
    assert_eq!(parse_response_status_line("HTTP/1.1 599 x\r\n"), Ok((Version::Http11, 599)));
}

#[test]
fn codes_outside_100_to_599_are_invalid() {
    for code in (0u16..100).chain(600..=1100).chain([9999, 65535]) {
        let line = format!("HTTP/1.1 {} X\r\n", code);
        assert_eq!(parse_response_status_line(&line), Err(HttpError::InvalidStatusCode), "{code}");
    }
}

#[test]
fn reason_may_be_missing() {
    assert_eq!(parse_response_status_line("HTTP/1.0 404\r\n"), Ok((Version::Http10, 404)));
    assert_eq!(parse_response_status_line("HTTP/1.0 404"), Ok((Version::Http10, 404)));
    assert_eq!(parse_response_status_line("HTTP/2.0 204 \n"), Ok((Version::H2, 204)));
}

#[test]
fn any_white_space_separates_the_words() {
    assert_eq!(
        parse_response_status_line("  HTTP/1.1\t\t301   Moved Permanently\r\n"),
        Ok((Version::Http11, 301))
    );
    assert_eq!(
        parse_response_status_line("HTTP/1.1\u{a0}200\u{2003}OK"),
        Ok((Version::Http11, 200))
    );
    assert_eq!(
        parse_response_status_line("\u{3000}HTTP/1.1\u{2028}500\u{85}oops"),
        Ok((Version::Http11, 500))
    );
}

#[test]
fn fewer_than_two_words_is_malformed() {
    for line in ["", "\r\n", "   ", "HTTP/1.1", "HTTP/1.1\r\n", " \t HTTP/1.1   ", "200"] {
        let error = parse_response_status_line(line).unwrap_err();
        assert_eq!(error, HttpError::MalformedStatusLine);
        assert_eq!(error.kind(), ErrorKind::Parse);
        assert_eq!(error.message(), "malformed status line");
    }
}

#[test]
fn other_versions_are_unsupported() {
    for line in [
        "HTTP/3.0 200 OK\r\n",
        "HTTP/0.9 200 OK\r\n",
        "HTTP/1.2 200 OK\r\n",
        "http/1.1 200 OK\r\n",
        "HTTP/1.1x 200 OK\r\n",
        "HTTP/1. 200 OK\r\n",
        "200 HTTP/1.1\r\n",
        "HTTP/2 200\r\n",
    ] {
        let error = parse_response_status_line(line).unwrap_err();
        assert_eq!(error, HttpError::UnsupportedVersion);
        assert_eq!(error.message(), "unsupported version");
    }
}

#[test]
fn version_is_checked_before_the_code() {
    assert_eq!(
        parse_response_status_line("HTTP/3.0 abc\r\n"),
        Err(HttpError::UnsupportedVersion)
    );
}

#[test]
fn bad_codes_are_invalid() {
    for line in [
        "HTTP/1.1 abc OK\r\n",
        "HTTP/1.1 99 OK\r\n",
        "HTTP/1.1 0 OK\r\n",
        "HTTP/1.1 600 OK\r\n",
        "HTTP/1.1 999 OK\r\n",
        "HTTP/1.1 1000 OK\r\n",
        "HTTP/1.1 65535 OK\r\n",
        "HTTP/1.1 65536 OK\r\n",
        "HTTP/1.1 99999999999999999999999999 OK\r\n",
        "HTTP/1.1 -200 OK\r\n",
        "HTTP/1.1 2x0 OK\r\n",
        "HTTP/1.1 + OK\r\n",
        "HTTP/1.1 ++200 OK\r\n",
        "HTTP/1.1 20\u{0660} OK\r\n",
        "HTTP/1.1 0x1f4 OK\r\n",
        "HTTP/1.1 2e2 OK\r\n",
    ] {
        assert_eq!(parse_response_status_line(line), Err(HttpError::InvalidStatusCode), "{line}");
    }
}

#[test]
fn plus_sign_and_leading_zeros_are_decimal_numbers() {
    assert_eq!(parse_response_status_line("HTTP/1.1 +200 OK\r\n"), Ok((Version::Http11, 200)));
    assert_eq!(parse_response_status_line("HTTP/1.1 0200 OK\r\n"), Ok((Version::Http11, 200)));
    assert_eq!(
        parse_response_status_line("HTTP/1.1 000000000000000000000000404 x\r\n"),
        Ok((Version::Http11, 404))
    );
}

#[test]
fn code_parsing_agrees_with_the_standard_parser() {
    for word in [
        "7", "42", "99", "100", "0100", "+599", "600", "999", "1000", "65535", "65536", "", "+",
        "1 ", "１２３",
    ] {
        let line = format!("HTTP/1.1 {} x", word);
        let expected = match word.parse::<u16>() {
            Ok(code) if (100..=599).contains(&code) => Ok((Version::Http11, code)),
            _ if word.trim().is_empty() => Err(HttpError::InvalidStatusCode),
            _ => Err(HttpError::InvalidStatusCode),
        };
        if word.split_whitespace().count() == 1 {
            assert_eq!(parse_response_status_line(&line), expected, "{word}");
        }
    }
}
