//! What a handler hands back: a success with its body, or an HTTP error
//! that is sent as a small JSON document.

use vstd::prelude::*;
use vstd::utf8::encode_utf8;

use crate::status::{reason_phrase, status_number, StatusCode};
use crate::text::{decimal_text, usize_text};

verus! {

/// A lower-case hexadecimal digit.
pub open spec fn hex_digit(d: nat) -> char {
    if d < 10 {
        ((d + 48) as u32) as char
    } else {
        ((d + 87) as u32) as char
    }
}

/// How one character stands inside a JSON string: `"` and `\` behind a
/// backslash, the control characters with a short form as `\b \t \n \f
/// \r`, the other control characters as `\u00` and two hex digits, every
/// other character as itself.
pub open spec fn json_escape_char(c: char) -> Seq<char> {
    let u = c as u32;
    if c == '"' {
        seq!['\\', '"']
    } else if c == '\\' {
        seq!['\\', '\\']
    } else if u == 8 {
        seq!['\\', 'b']
    } else if u == 9 {
        seq!['\\', 't']
    } else if u == 10 {
        seq!['\\', 'n']
    } else if u == 12 {
        seq!['\\', 'f']
    } else if u == 13 {
        seq!['\\', 'r']
    } else if u < 0x20 {
        seq!['\\', 'u', '0', '0', hex_digit((u / 16) as nat), hex_digit((u % 16) as nat)]
    } else {
        seq![c]
    }
}

/// The characters of a text, each escaped for a JSON string.
pub open spec fn json_escape(s: Seq<char>) -> Seq<char>
    decreases s.len(),
{
    if s.len() == 0 {
        Seq::empty()
    } else {
        json_escape(s.drop_last()) + json_escape_char(s.last())
    }
}

/// The JSON string literal for a text: quoted and escaped.
pub open spec fn json_string_of(s: Seq<char>) -> Seq<char> {
    seq!['"'] + json_escape(s) + seq!['"']
}

/// Relies on `serde_json::to_string` on a `str`: the text in quotes, with
/// the escapes of serde_json's table. Writing into memory cannot fail, so the
/// error arm is never taken.
#[verifier::external_body]
fn json_string(s: &str) -> (r: String)
    ensures
        r@ == json_string_of(s@),
{
    serde_json::to_string(s).unwrap_or_default()
}

/// The JSON document sent for an error: an object with the fields `error`,
/// `message` and `status_code`, in that order, without spaces.
pub open spec fn error_document(error: Seq<char>, message: Seq<char>, code: u16) -> Seq<char> {
    "{\"error\":"@ + json_string_of(error) + ",\"message\":"@ + json_string_of(message)
        + ",\"status_code\":"@ + decimal_text(code as nat) + "}"@
}

/// An HTTP error: a status and a message for the client.
pub trait HttpError {
    spec fn error_message(&self) -> Seq<char>;

    spec fn error_status(&self) -> StatusCode;

    fn message(&self) -> (r: &str)
        ensures
            r@ == self.error_message(),
    ;

    fn status_code(&self) -> (r: StatusCode)
        ensures
            r == self.error_status(),
    ;
}

/// What a handler produces: a status and the body bytes.
pub trait HttpResponse {
    spec fn response_status(&self) -> StatusCode;

    spec fn response_body(&self) -> Seq<u8>;

    fn into_response(&self) -> (r: Vec<u8>)
        ensures
            r@ == self.response_body(),
    ;

    fn status_code(&self) -> (r: StatusCode)
        ensures
            r == self.response_status(),
    ;
}

/// A handler's result, seen through its status and its body bytes.
pub trait HttpResult {
    spec fn result_status(&self) -> StatusCode;

    spec fn result_body(&self) -> Seq<u8>;

    fn into_response(&self) -> (r: Vec<u8>)
        ensures
            r@ == self.result_body(),
    ;

    fn status_code(&self) -> (r: StatusCode)
        ensures
            r == self.result_status(),
    ;
}

/// The body of an error response, before it is written out.
pub struct HttpErrorResponse {
    error: String,
    message: String,
    status_code: u16,
}

impl HttpErrorResponse {
    pub closed spec fn document(&self) -> Seq<char> {
        error_document(self.error@, self.message@, self.status_code)
    }

    /// The document for `error` with status `status_code`; its message is
    /// the status's reason phrase.
    pub fn new(error: &str, status_code: StatusCode) -> (r: HttpErrorResponse)
        ensures
            r.document() == error_document(
                error@,
                reason_phrase(status_code),
                status_number(status_code),
            ),
    {
        HttpErrorResponse {
            error: error.to_owned(),
            message: status_code.as_str().to_owned(),
            status_code: status_code.code(),
        }
    }

    /// The document as UTF-8 bytes.
    pub fn to_json(&self) -> (r: Vec<u8>)
        ensures
            r@ == encode_utf8(self.document()),
    {
        let mut out = String::new();
        out.append("{\"error\":");
        out.append(json_string(self.error.as_str()).as_str());
        out.append(",\"message\":");
        out.append(json_string(self.message.as_str()).as_str());
        out.append(",\"status_code\":");
        out.append(usize_text(self.status_code as usize).as_str());
        out.append("}");
        assert(out@ =~= self.document());
        let b = out.as_str().as_bytes();
        vstd::slice::slice_to_vec(b)
    }
}

/// The document that describes an error.
pub fn json_response<E: HttpError>(error: &E) -> (r: HttpErrorResponse)
    ensures
        r.document() == error_document(
            error.error_message(),
            reason_phrase(error.error_status()),
            status_number(error.error_status()),
        ),
{
    HttpErrorResponse::new(error.message(), error.status_code())
}

/// The bytes sent for an error.
pub open spec fn error_body(message: Seq<char>, status: StatusCode) -> Seq<u8> {
    encode_utf8(error_document(message, reason_phrase(status), status_number(status)))
}

fn error_response_bytes(message: &str, status: StatusCode) -> (r: Vec<u8>)
    ensures
        r@ == error_body(message@, status),
{
    HttpErrorResponse::new(message, status).to_json()
}

/// A 400 Bad Request error.
pub struct BadRequestError {
    message: String,
}

/// A 404 Not Found error.
pub struct NotFoundError {
    message: String,
}

/// A 501 Not Implemented error.
pub struct NotImplementedError {
    message: String,
}

impl BadRequestError {
    /// With the reason phrase as its message.
    pub fn new() -> (r: BadRequestError)
        ensures
            r.error_message() == reason_phrase(StatusCode::BadRequest),
    {
        BadRequestError { message: StatusCode::BadRequest.as_str().to_owned() }
    }

    pub fn with_message(message: &str) -> (r: BadRequestError)
        ensures
            r.error_message() == message@,
    {
        BadRequestError { message: message.to_owned() }
    }
}

impl NotFoundError {
    /// With the reason phrase as its message.
    pub fn new() -> (r: NotFoundError)
        ensures
            r.error_message() == reason_phrase(StatusCode::NotFound),
    {
        NotFoundError { message: StatusCode::NotFound.as_str().to_owned() }
    }

    pub fn with_message(message: &str) -> (r: NotFoundError)
        ensures
            r.error_message() == message@,
    {
        NotFoundError { message: message.to_owned() }
    }
}

impl NotImplementedError {
    /// With the reason phrase as its message.
    pub fn new() -> (r: NotImplementedError)
        ensures
            r.error_message() == reason_phrase(StatusCode::NotImplemented),
    {
        NotImplementedError { message: StatusCode::NotImplemented.as_str().to_owned() }
    }

    pub fn with_message(message: &str) -> (r: NotImplementedError)
        ensures
            r.error_message() == message@,
    {
        NotImplementedError { message: message.to_owned() }
    }
}

impl HttpError for BadRequestError {
    closed spec fn error_message(&self) -> Seq<char> {
        self.message@
    }

    open spec fn error_status(&self) -> StatusCode {
        StatusCode::BadRequest
    }

    fn message(&self) -> (r: &str) {
        self.message.as_str()
    }

    fn status_code(&self) -> (r: StatusCode) {
        StatusCode::BadRequest
    }
}

impl HttpError for NotFoundError {
    closed spec fn error_message(&self) -> Seq<char> {
        self.message@
    }

    open spec fn error_status(&self) -> StatusCode {
        StatusCode::NotFound
    }

    fn message(&self) -> (r: &str) {
        self.message.as_str()
    }

    fn status_code(&self) -> (r: StatusCode) {
        StatusCode::NotFound
    }
}

impl HttpError for NotImplementedError {
    closed spec fn error_message(&self) -> Seq<char> {
        self.message@
    }

    open spec fn error_status(&self) -> StatusCode {
        StatusCode::NotImplemented
    }

    fn message(&self) -> (r: &str) {
        self.message.as_str()
    }

    fn status_code(&self) -> (r: StatusCode) {
        StatusCode::NotImplemented
    }
}

impl HttpResponse for BadRequestError {
    open spec fn response_status(&self) -> StatusCode {
        StatusCode::BadRequest
    }

    open spec fn response_body(&self) -> Seq<u8> {
        error_body(self.error_message(), StatusCode::BadRequest)
    }

    fn into_response(&self) -> (r: Vec<u8>) {
        error_response_bytes(self.message.as_str(), StatusCode::BadRequest)
    }

    fn status_code(&self) -> (r: StatusCode) {
        StatusCode::BadRequest
    }
}

impl HttpResponse for NotFoundError {
    open spec fn response_status(&self) -> StatusCode {
        StatusCode::NotFound
    }

    open spec fn response_body(&self) -> Seq<u8> {
        error_body(self.error_message(), StatusCode::NotFound)
    }

    fn into_response(&self) -> (r: Vec<u8>) {
        error_response_bytes(self.message.as_str(), StatusCode::NotFound)
    }

    fn status_code(&self) -> (r: StatusCode) {
        StatusCode::NotFound
    }
}

impl HttpResponse for NotImplementedError {
    open spec fn response_status(&self) -> StatusCode {
        StatusCode::NotImplemented
    }

    open spec fn response_body(&self) -> Seq<u8> {
        error_body(self.error_message(), StatusCode::NotImplemented)
    }

    fn into_response(&self) -> (r: Vec<u8>) {
        error_response_bytes(self.message.as_str(), StatusCode::NotImplemented)
    }

    fn status_code(&self) -> (r: StatusCode) {
        StatusCode::NotImplemented
    }
}

/// A 200 OK response with a body given as bytes.
pub struct OkResponse {
    data: Vec<u8>,
}

impl OkResponse {
    /// With an empty body.
    pub fn new() -> (r: OkResponse)
        ensures
            r.response_body() == Seq::<u8>::empty(),
    {
        OkResponse { data: Vec::new() }
    }

    /// With `data` as its body.
    pub fn with_data(data: Vec<u8>) -> (r: OkResponse)
        ensures
            r.response_body() == data@,
    {
        OkResponse { data }
    }
}

impl HttpResponse for OkResponse {
    open spec fn response_status(&self) -> StatusCode {
        StatusCode::Success
    }

    closed spec fn response_body(&self) -> Seq<u8> {
        self.data@
    }

    fn into_response(&self) -> (r: Vec<u8>) {
        self.data.clone()
    }

    fn status_code(&self) -> (r: StatusCode) {
        StatusCode::Success
    }
}

/// A successful result whose body is given as bytes.
pub struct OkResult {
    data: Vec<u8>,
}

impl OkResult {
    /// With `data` as its body.
    pub fn with_data(data: Vec<u8>) -> (r: OkResult)
        ensures
            r.result_body() == data@,
    {
        OkResult { data }
    }
}

impl HttpResult for OkResult {
    open spec fn result_status(&self) -> StatusCode {
        StatusCode::Success
    }

    closed spec fn result_body(&self) -> Seq<u8> {
        self.data@
    }

    fn into_response(&self) -> (r: Vec<u8>) {
        self.data.clone()
    }

    fn status_code(&self) -> (r: StatusCode) {
        StatusCode::Success
    }
}

} // verus!
