//! Response status codes.

use vstd::prelude::*;

verus! {

/// The status codes that the server produces.
#[derive(Clone, Copy, Debug, PartialEq, Eq, Structural)]
pub enum StatusCode {
    Success,
    BadRequest,
    NotFound,
    InternalServerError,
    NotImplemented,
}

pub open spec fn status_number(c: StatusCode) -> u16 {
    match c {
        StatusCode::Success => 200,
        StatusCode::BadRequest => 400,
        StatusCode::NotFound => 404,
        StatusCode::InternalServerError => 500,
        StatusCode::NotImplemented => 501,
    }
}

pub open spec fn reason_phrase(c: StatusCode) -> Seq<char> {
    match c {
        StatusCode::Success => seq!['O', 'K'],
        StatusCode::BadRequest => seq!['B', 'a', 'd', ' ', 'R', 'e', 'q', 'u', 'e', 's', 't'],
        StatusCode::NotFound => seq!['N', 'o', 't', ' ', 'F', 'o', 'u', 'n', 'd'],
        StatusCode::InternalServerError => seq![
            'I', 'n', 't', 'e', 'r', 'n', 'a', 'l', ' ', 'S', 'e', 'r', 'v', 'e', 'r', ' ', 'E',
            'r', 'r', 'o', 'r'
        ],
        StatusCode::NotImplemented => seq![
            'N', 'o', 't', ' ', 'I', 'm', 'p', 'l', 'e', 'm', 'e', 'n', 't', 'e', 'd'
        ],
    }
}

impl StatusCode {
    /// The standard reason phrase for the status code.
    pub fn as_str(&self) -> (r: &'static str)
        ensures
            r@ == reason_phrase(*self),
    {
        let s = match self {
            StatusCode::Success => "OK",
            StatusCode::BadRequest => "Bad Request",
            StatusCode::NotFound => "Not Found",
            StatusCode::InternalServerError => "Internal Server Error",
            StatusCode::NotImplemented => "Not Implemented",
        };
        proof {
            reveal_strlit("OK");
            reveal_strlit("Bad Request");
            reveal_strlit("Not Found");
            reveal_strlit("Internal Server Error");
            reveal_strlit("Not Implemented");
            assert(s@ =~= reason_phrase(*self));
        }
        s
    }

    /// The numeric code.
    pub fn code(&self) -> (r: u16)
        ensures
            r == status_number(*self),
    {
        match self {
            StatusCode::Success => 200,
            StatusCode::BadRequest => 400,
            StatusCode::NotFound => 404,
            StatusCode::InternalServerError => 500,
            StatusCode::NotImplemented => 501,
        }
    }
}

} // verus!
