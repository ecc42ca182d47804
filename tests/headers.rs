use http_server::headers::is_valid_key;
use http_server::{Headers, ParseError};

#[test]
fn test_valid_single_header() {
    let mut headers = Headers::new();
    let data = b"Host: localhost:8080\r\n\r\n";

    let result = headers.parse(data);
    assert!(result.is_ok());

    let (done, consumed) = result.unwrap();
    assert!(done);
    assert_eq!(consumed, data.len());

    assert!(headers.get("Host").is_some());
    assert_eq!(headers.get("Host").unwrap(), "localhost:8080");
}

#[test]
fn test_invalid_spacing_header() {
    let mut headers = Headers::new();
    let data = b"       Host : localhost:8080       \r\n\r\n";

    let result = headers.parse(data);
    assert!(result.is_err());
}

#[test]
fn test_invalid_header_field_name() {
    let mut headers = Headers::new();
    let data = b"H\xA9st: localhost:8080\r\n\r\n";

    let result = headers.parse(data);
    assert!(result.is_err());
}

#[test]
fn test_header_multiples_equals_field_names() {
    let mut headers = Headers::new();
    let data = b"Host: localhost:8080\r\nHost: localhost:8081\r\n\r\n";

    let result = headers.parse(data);
    assert!(result.is_ok());

    let (done, consumed) = result.unwrap();
    assert!(done);
    assert_eq!(consumed, data.len());

    assert!(headers.get("Host").is_some());
    assert_eq!(headers.get("Host").unwrap(), "localhost:8080, localhost:8081");
}

#[test]
fn set_twice_joins_values_and_ignores_case() {
    let mut headers = Headers::new();
    headers.set("Host", "a");
    headers.set("host", "b");
    assert_eq!(headers.get("HOST").unwrap(), "a, b");
    assert_eq!(headers.iter().len(), 1);
    assert_eq!(headers.iter()[0].0, "host");
    assert_eq!(headers.iter()[0].1, "a, b");
}

#[test]
fn spaces_around_key_are_an_invalid_key() {
    let mut headers = Headers::new();
    let result = headers.parse(b" Host : x\r\n");
    assert_eq!(result, Err(ParseError::InvalidHeaderKey));
}

#[test]
fn line_without_colon_is_malformed() {
    let mut headers = Headers::new();
    assert_eq!(headers.parse(b"Host localhost\r\n\r\n"), Err(ParseError::MalformedHeaderLine));
}

#[test]
fn value_that_is_not_utf8_is_malformed() {
    let mut headers = Headers::new();
    assert_eq!(headers.parse(b"Host: \xff\r\n\r\n"), Err(ParseError::MalformedHeaderLine));
}

#[test]
fn empty_key_is_invalid() {
    let mut headers = Headers::new();
    assert_eq!(headers.parse(b": x\r\n\r\n"), Err(ParseError::InvalidHeaderKey));
}

#[test]
fn partial_section_resumes_line_by_line() {
    let mut headers = Headers::new();
    let first = headers.parse(b"A: 1\r\nB: 2\r\nC:");
    assert_eq!(first, Ok((false, 12)));
    let second = headers.parse(b"C: 3\r\n\r\n");
    assert_eq!(second, Ok((true, 8)));
    assert_eq!(headers.get("a").unwrap(), "1");
    assert_eq!(headers.get("b").unwrap(), "2");
    assert_eq!(headers.get("c").unwrap(), "3");
}

#[test]
fn value_keeps_trailing_space_but_get_trims() {
    let mut headers = Headers::new();
    assert_eq!(headers.parse(b"X-Key:   v  \r\n\r\n"), Ok((true, 16)));
    assert_eq!(headers.iter()[0].1, "v  ");
    assert_eq!(headers.get("x-key").unwrap(), "v");
}

#[test]
fn get_usize_reads_numbers() {
    let mut headers = Headers::new();
    headers.set("Content-Length", " 42 ");
    headers.set("Other", "4x");
    assert_eq!(headers.get_usize("content-length"), Some(42));
    assert_eq!(headers.get_usize("other"), None);
    assert_eq!(headers.get_usize("missing"), None);
    assert!(headers.contains("CONTENT-LENGTH"));
    assert!(!headers.contains("missing"));
}

#[test]
fn token_characters_make_a_valid_key() {
    assert!(is_valid_key("X-Custom_Header.1~!#$%&'*+^`|"));
    assert!(!is_valid_key(""));
    assert!(!is_valid_key(" Host"));
    assert!(!is_valid_key("Ho st"));
    assert!(!is_valid_key("Hé"));
}

#[test]
fn non_ascii_names_fold_to_lower_case() {
    let mut headers = Headers::new();
    headers.set("X-Ärger", "1");
    assert_eq!(headers.get("x-ärger").unwrap(), "1");
    assert_eq!(headers.iter()[0].0, "x-ärger");
    assert!(headers.contains("X-ÄRGER"));
}

#[test]
fn replace_drops_the_old_value() {
    let mut headers = Headers::new();
    headers.set("Connection", "keep-alive");
    headers.replace("connection", "close");
    assert_eq!(headers.get("Connection").unwrap(), "close");
    headers.replace("New", "v");
    assert_eq!(headers.get("new").unwrap(), "v");
}

#[test]
fn get_usize_follows_from_str() {
    let mut headers = Headers::new();
    headers.set("a", "+42");
    headers.set("b", "007");
    headers.set("c", "+");
    headers.set("d", "18446744073709551616");
    headers.set("e", "-1");
    headers.set("f", "");
    assert_eq!(headers.get_usize("a"), Some(42));
    assert_eq!(headers.get_usize("b"), Some(7));
    assert_eq!(headers.get_usize("c"), None);
    assert_eq!(headers.get_usize("d"), "18446744073709551616".parse::<usize>().ok());
    assert_eq!(headers.get_usize("e"), None);
    assert_eq!(headers.get_usize("f"), None);
}
