use http_server::{Method, ParseError, ParseState, Request};

const MESSAGE: &[u8] =
    b"GET / HTTP/1.1\r\nHost: localhost:8080\r\nUser-Agent: curl/7.81.0\r\nAccept: */*\r\n\r\n";

fn split(data: &[u8], num_bytes_per_read: usize) -> Vec<Vec<u8>> {
    data.chunks(num_bytes_per_read).map(|c| c.to_vec()).collect()
}

fn check_curl_request(request: &Request) {
    assert_eq!(request.get_method(), "GET");
    assert_eq!(request.get_path(), "/");
    assert_eq!(request.get_version(), "HTTP/1.1");

    assert!(request.get_headers().get("Host").is_some());
    assert_eq!(request.get_headers().get("Host").unwrap(), "localhost:8080");

    assert!(request.get_headers().get("User-Agent").is_some());
    assert_eq!(request.get_headers().get("User-Agent").unwrap(), "curl/7.81.0");

    assert!(request.get_headers().get("Accept").is_some());
    assert_eq!(request.get_headers().get("Accept").unwrap(), "*/*");
}

#[test]
fn test_good_get_request_receiving_under_size_buffer() {
    let request_result = Request::from_chunks(&split(MESSAGE, 8));

    assert!(request_result.is_ok());

    let request = request_result.unwrap();
    check_curl_request(&request);
}

#[test]
fn test_good_get_request_receiving_over_size_buffer() {
    let request_result = Request::from_chunks(&split(MESSAGE, 1024));

    assert!(request_result.is_ok());

    let request = request_result.unwrap();
    check_curl_request(&request);
}

#[test]
fn every_chunk_size_gives_the_same_request() {
    let data = b"POST /items?id=7 HTTP/1.1\r\nContent-Length: 11\r\nX-A: 1\r\n\r\nhello world";
    let whole = Request::from_chunks(&vec![data.to_vec()]).unwrap();
    for size in 1..=data.len() {
        let r = Request::from_chunks(&split(data, size)).unwrap();
        assert_eq!(r.method(), whole.method());
        assert_eq!(r.get_path(), whole.get_path());
        assert_eq!(r.get_query(), whole.get_query());
        assert_eq!(r.get_version(), whole.get_version());
        assert_eq!(r.get_headers().iter(), whole.get_headers().iter());
        assert_eq!(r.get_body(), whole.get_body());
    }
    assert_eq!(whole.get_body(), &b"hello world".to_vec());
    assert_eq!(whole.get_query(), &[("id".to_string(), "7".to_string())][..]);
}

#[test]
fn coffee_request_parses_and_counts_bytes() {
    let data = b"GET /coffee?x=1 HTTP/1.1\r\nHost: h\r\n\r\n";
    let mut request = Request::new();
    let n = request.parse(&data[..]).unwrap();
    assert_eq!(n, data.len());
    assert!(request.done());
    assert_eq!(request.method(), Some(Method::Get));
    assert_eq!(request.get_path(), "/coffee");
    assert_eq!(request.get_query(), &[("x".to_string(), "1".to_string())][..]);
    assert_eq!(request.get_version(), "HTTP/1.1");
    assert!(request.get_body().is_empty());

    let mut staged = Request::new();
    assert_eq!(staged.parse(&data[..26]), Ok(26));
    assert_eq!(staged.state(), ParseState::Headers);
    assert_eq!(staged.parse(&data[26..]), Ok(11));
    assert!(staged.done());
}

#[test]
fn short_body_waits_in_body_state() {
    let data = b"POST / HTTP/1.1\r\nContent-Length: 10\r\n\r\nabcd";
    let mut request = Request::new();
    let n = request.parse(&data[..]).unwrap();
    assert_eq!(n, data.len());
    assert_eq!(request.state(), ParseState::Body);
    assert!(!request.done());
    assert_eq!(request.get_body(), &b"abcd".to_vec());
}

#[test]
fn bytes_after_the_body_are_left() {
    let data = b"POST / HTTP/1.1\r\nContent-Length: 3\r\n\r\nabcEXTRA";
    let mut request = Request::new();
    let n = request.parse(&data[..]).unwrap();
    assert_eq!(n, data.len() - 5);
    assert!(request.done());
    assert_eq!(request.get_body(), &b"abc".to_vec());
}

#[test]
fn feed_keeps_what_was_not_taken() {
    let mut request = Request::new();
    let mut pending: Vec<u8> = Vec::new();
    assert_eq!(request.feed(&mut pending, b"GET / HT"), Ok(false));
    assert_eq!(pending, b"GET / HT".to_vec());
    assert_eq!(request.feed(&mut pending, b"TP/1.1\r\nHo"), Ok(false));
    assert_eq!(pending, b"Ho".to_vec());
    assert_eq!(request.feed(&mut pending, b"st: x\r\n\r\n"), Ok(true));
    assert!(pending.is_empty());
    assert_eq!(request.get_headers().get("host").unwrap(), "x");
}

#[test]
fn unparseable_length_means_no_body() {
    let data = b"POST / HTTP/1.1\r\nContent-Length: ten\r\n\r\nabc";
    let request = Request::from_chunks(&vec![data.to_vec()]).unwrap();
    assert!(request.get_body().is_empty());
}

#[test]
fn missing_bytes_are_a_truncated_message() {
    let data = b"GET / HTTP/1.1\r\nHost: x\r\n";
    assert!(matches!(
        Request::from_chunks(&split(data, 4)),
        Err(ParseError::TruncatedMessage)
    ));
    assert!(matches!(Request::from_chunks(&Vec::new()), Err(ParseError::TruncatedMessage)));
}

#[test]
fn errors_stop_the_parser() {
    let mut request = Request::new();
    assert_eq!(request.parse(b"BREW / HTTP/1.1\r\n"), Err(ParseError::UnsupportedMethod));
    assert!(matches!(
        Request::from_chunks(&vec![b"GET / HTTP/1.1\r\nBad Line\r\n\r\n".to_vec()]),
        Err(ParseError::MalformedHeaderLine)
    ));
}

#[test]
fn fresh_request_is_empty() {
    let request = Request::new();
    assert_eq!(request.state(), ParseState::Init);
    assert_eq!(request.get_method(), "");
    assert_eq!(request.get_version(), "");
    assert_eq!(request.get_path(), "");
}
