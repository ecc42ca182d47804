use http_server::{Method, ParseError, RequestLine, Version};

#[test]
fn request_line_test_good_get_request_line() {
    let request_line_result = RequestLine::parse(b"GET / HTTP/1.1\r\n\r\n");

    assert!(request_line_result.is_ok());

    let request_line_result = request_line_result.unwrap();

    assert!(request_line_result.is_some());

    let (request_line, consumed) = request_line_result.unwrap();

    assert_eq!(consumed, 16);

    assert_eq!(request_line.get_method(), "GET");
    assert_eq!(request_line.get_path(), "/");
    assert_eq!(request_line.get_version(), "HTTP/1.1");
}

#[test]
fn request_line_test_good_get_request_line_with_path() {
    let request_line_result = RequestLine::parse(b"GET /coffee HTTP/1.1\r\n\r\n");

    assert!(request_line_result.is_ok());

    let request_line_result = request_line_result.unwrap();

    assert!(request_line_result.is_some());

    let (request_line, consumed) = request_line_result.unwrap();

    assert_eq!(consumed, 22);

    assert_eq!(request_line.get_method(), "GET");
    assert_eq!(request_line.get_path(), "/coffee");
    assert_eq!(request_line.get_version(), "HTTP/1.1");
}

#[test]
fn request_line_test_invalid_number_of_parts_in_request_line() {
    let request_line_result = RequestLine::parse(b"coffee HTTP/1.1\r\n\r\n");

    assert!(request_line_result.is_err());
}

#[test]
fn incomplete_line_consumes_nothing() {
    assert!(matches!(RequestLine::parse(b"GET / HTTP/1.1\r"), Ok(None)));
    assert!(matches!(RequestLine::parse(b""), Ok(None)));
}

#[test]
fn four_fields_are_malformed() {
    assert!(matches!(
        RequestLine::parse(b"GET / HTTP/1.1 x\r\n"),
        Err(ParseError::MalformedRequestLine)
    ));
    assert!(matches!(
        RequestLine::parse(b"GET  / HTTP/1.1\r\n"),
        Err(ParseError::MalformedRequestLine)
    ));
}

#[test]
fn unknown_method_is_unsupported() {
    assert!(matches!(
        RequestLine::parse(b"FETCH / HTTP/1.1\r\n"),
        Err(ParseError::UnsupportedMethod)
    ));
    assert!(matches!(
        RequestLine::parse(b"get / HTTP/1.1\r\n"),
        Err(ParseError::UnsupportedMethod)
    ));
}

#[test]
fn unknown_version_is_unsupported() {
    assert!(matches!(
        RequestLine::parse(b"GET / HTTP/3.0\r\n"),
        Err(ParseError::UnsupportedVersion)
    ));
}

#[test]
fn target_that_is_not_utf8_is_malformed() {
    assert!(matches!(
        RequestLine::parse(b"GET /\xff HTTP/1.1\r\n"),
        Err(ParseError::MalformedRequestLine)
    ));
}

#[test]
fn every_method_and_version_is_recognised() {
    let methods = [
        ("GET", Method::Get),
        ("POST", Method::Post),
        ("PUT", Method::Put),
        ("DELETE", Method::Delete),
        ("HEAD", Method::Head),
        ("OPTIONS", Method::Options),
        ("PATCH", Method::Patch),
        ("TRACE", Method::Trace),
        ("CONNECT", Method::Connect),
    ];
    for (name, m) in methods {
        let line = format!("{} /x HTTP/2.0\r\n", name);
        let (rl, n) = RequestLine::parse(line.as_bytes()).unwrap().unwrap();
        assert_eq!(n, line.len());
        assert_eq!(rl.method(), m);
        assert_eq!(rl.get_method(), name);
        assert_eq!(rl.version(), Version::Http20);
    }
    let (rl, _) = RequestLine::parse(b"GET / HTTP/1.0\r\n").unwrap().unwrap();
    assert_eq!(rl.version(), Version::Http10);
}

#[test]
fn query_string_is_split_last_value_wins() {
    let (rl, n) = RequestLine::parse(b"GET /coffee?x=1&&=skip&flag&x=2&y=a=b HTTP/1.1\r\n")
        .unwrap()
        .unwrap();
    assert_eq!(n, 48);
    assert_eq!(rl.get_path(), "/coffee");
    let (path, query) = rl.into_parts();
    assert_eq!(path, "/coffee");
    let mut query = query;
    query.sort();
    assert_eq!(
        query,
        vec![
            ("flag".to_string(), "".to_string()),
            ("x".to_string(), "2".to_string()),
            ("y".to_string(), "a=b".to_string()),
        ]
    );
}

#[test]
fn dropped_query_segment_must_still_be_utf8() {
    assert!(matches!(
        RequestLine::parse(b"GET /a?=\xff HTTP/1.1\r\n"),
        Err(ParseError::MalformedRequestLine)
    ));
}
