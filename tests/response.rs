use http_server::responses::json_response;
use http_server::{
    write_status_line, BadRequestError, HttpError, HttpErrorResponse, HttpResponse, HttpResult,
    NotFoundError, NotImplementedError, OkResponse, OkResult, Response, StatusCode,
};

#[test]
fn status_codes_and_reasons() {
    assert_eq!(StatusCode::Success.code(), 200);
    assert_eq!(StatusCode::Success.as_str(), "OK");
    assert_eq!(StatusCode::BadRequest.code(), 400);
    assert_eq!(StatusCode::BadRequest.as_str(), "Bad Request");
    assert_eq!(StatusCode::NotFound.code(), 404);
    assert_eq!(StatusCode::NotFound.as_str(), "Not Found");
    assert_eq!(StatusCode::InternalServerError.code(), 500);
    assert_eq!(StatusCode::InternalServerError.as_str(), "Internal Server Error");
    assert_eq!(StatusCode::NotImplemented.code(), 501);
    assert_eq!(StatusCode::NotImplemented.as_str(), "Not Implemented");
}

#[test]
fn status_line_is_written() {
    let mut out = b"x".to_vec();
    write_status_line(&mut out, StatusCode::NotFound);
    assert_eq!(out, b"xHTTP/1.1 404 Not Found\r\n".to_vec());
}

#[test]
fn error_document_is_json() {
    let doc = HttpErrorResponse::new("bad \"thing\"", StatusCode::BadRequest).to_json();
    assert_eq!(
        String::from_utf8(doc).unwrap(),
        "{\"error\":\"bad \\\"thing\\\"\",\"message\":\"Bad Request\",\"status_code\":400}"
    );
    let e = NotImplementedError::new();
    assert_eq!(
        String::from_utf8(json_response(&e).to_json()).unwrap(),
        "{\"error\":\"Not Implemented\",\"message\":\"Not Implemented\",\"status_code\":501}"
    );
}

#[test]
fn errors_carry_message_and_status() {
    let e = BadRequestError::new();
    assert_eq!(HttpError::message(&e), "Bad Request");
    assert_eq!(HttpError::status_code(&e), StatusCode::BadRequest);
    let e = BadRequestError::with_message("nope");
    assert_eq!(HttpError::message(&e), "nope");
    assert_eq!(
        String::from_utf8(e.into_response()).unwrap(),
        "{\"error\":\"nope\",\"message\":\"Bad Request\",\"status_code\":400}"
    );
    let e = NotFoundError::new();
    assert_eq!(HttpError::message(&e), "Not Found");
    assert_eq!(HttpResponse::status_code(&e), StatusCode::NotFound);
    let e = NotImplementedError::with_message("later");
    assert_eq!(HttpError::message(&e), "later");
    assert_eq!(HttpResponse::status_code(&e), StatusCode::NotImplemented);
}

#[test]
fn ok_results_carry_their_bytes() {
    let ok = OkResponse::new();
    assert!(ok.into_response().is_empty());
    assert_eq!(HttpResponse::status_code(&ok), StatusCode::Success);
    let ok = OkResponse::with_data(b"\"hi\"".to_vec());
    assert_eq!(ok.into_response(), b"\"hi\"".to_vec());
    let r = OkResult::with_data(b"1".to_vec());
    assert_eq!(HttpResult::into_response(&r), b"1".to_vec());
    assert_eq!(HttpResult::status_code(&r), StatusCode::Success);
}

#[test]
fn default_headers_and_wire_form() {
    let mut response = Response::new();
    response.set_result(&OkResponse::with_data(b"{}".to_vec()));
    response.set_default_headers();
    let h = response.get_headers();
    assert_eq!(h.get("content-length").unwrap(), "2");
    assert_eq!(h.get("connection").unwrap(), "close");
    assert_eq!(h.get("content-type").unwrap(), "application/json; charset=utf-8");
    let mut out = Vec::new();
    response.write_response(&mut out);
    assert_eq!(
        String::from_utf8(out).unwrap(),
        "HTTP/1.1 200 OK\r\ncontent-length: 2\r\nconnection: close\r\ncontent-type: application/json; charset=utf-8\r\n\r\n{}"
    );
}

#[test]
fn handler_content_type_is_kept() {
    let mut response = Response::new();
    response.set_header("Content-Type", "text/plain");
    response.set_body(b"hello, world".to_vec());
    response.set_status_code(StatusCode::NotImplemented);
    response.set_default_headers();
    assert_eq!(response.status_code(), StatusCode::NotImplemented);
    assert_eq!(response.get_headers().get("Content-Type").unwrap(), "text/plain");
    assert_eq!(response.get_headers().get("Content-Length").unwrap(), "12");
    assert_eq!(response.get_body(), &b"hello, world".to_vec());
}

#[test]
fn json_body_sets_content_type() {
    let mut response = Response::new();
    response.set_json_body(b"[1]".to_vec());
    assert_eq!(
        response.get_headers().get("content-type").unwrap(),
        "application/json; charset=utf-8"
    );
    assert_eq!(response.get_body(), &b"[1]".to_vec());
}

#[test]
fn default_headers_replace_earlier_values() {
    let mut response = Response::new();
    response.set_header("Content-Length", "7");
    response.set_header("Connection", "keep-alive");
    response.set_body(b"abc".to_vec());
    response.set_default_headers();
    assert_eq!(response.get_headers().get("content-length").unwrap(), "3");
    assert_eq!(response.get_headers().get("connection").unwrap(), "close");
}

#[test]
fn control_characters_are_escaped() {
    let doc = HttpErrorResponse::new("a\u{1}b\nc\\", StatusCode::BadRequest).to_json();
    assert_eq!(
        String::from_utf8(doc).unwrap(),
        "{\"error\":\"a\\u0001b\\nc\\\\\",\"message\":\"Bad Request\",\"status_code\":400}"
    );
}

#[test]
fn json_body_replaces_content_type() {
    let mut response = Response::new();
    response.set_header("Content-Type", "text/plain");
    response.set_json_body(b"1".to_vec());
    assert_eq!(
        response.get_headers().get("content-type").unwrap(),
        "application/json; charset=utf-8"
    );
}
