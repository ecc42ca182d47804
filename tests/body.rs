use http_server::body::parse;

#[test]
fn test_standard_body() {
    let mut body: Vec<u8> = Vec::new();
    let data = b"Hello, World!";
    let content_length = data.len();

    let result = parse(&mut body, data, content_length);
    assert!(result.is_ok());

    let (done, consumed) = result.unwrap();
    assert!(done);
    assert_eq!(consumed, content_length);

    assert_eq!(body, data);
}

#[test]
fn test_body_shorter_than_reported_content_length() {
    let mut body: Vec<u8> = Vec::new();
    let data = b"Hello, World!";
    let content_length = data.len() * 2;

    let result = parse(&mut body, data, content_length);
    assert!(result.is_ok());

    let (done, consumed) = result.unwrap();
    assert!(!done);
    assert_eq!(consumed, data.len());

    assert_eq!(body, data);
}

#[test]
fn extra_bytes_are_not_read() {
    let mut body: Vec<u8> = b"He".to_vec();
    let result = parse(&mut body, b"llo trailing", 5);
    assert_eq!(result, Ok((true, 3)));
    assert_eq!(body, b"Hello".to_vec());
}

#[test]
fn zero_length_is_done_at_once() {
    let mut body: Vec<u8> = Vec::new();
    assert_eq!(parse(&mut body, b"abc", 0), Ok((true, 0)));
    assert!(body.is_empty());
}
