//! A small HTTP/1.1 server engine: an incremental request parser that is
//! indifferent to how the transport splits the bytes, a case-insensitive
//! header collection, exact-match routing and response serialisation.

pub mod body;
pub mod error;
pub mod headers;
pub mod method;
pub mod request;
pub mod request_line;
pub mod response;
pub mod responses;
pub mod router;
pub mod scan;
pub mod status;
pub mod table;
pub mod text;

pub use error::ParseError;
pub use headers::Headers;
pub use method::{Method, Version};
pub use request::{ParseState, Request};
pub use request_line::RequestLine;
pub use response::{write_status_line, Response};
pub use responses::{
    BadRequestError, HttpError, HttpErrorResponse, HttpResponse, HttpResult, NotFoundError,
    NotImplementedError, OkResponse, OkResult,
};
pub use router::{Router, Server};
pub use status::StatusCode;
