//! Request methods and protocol versions.

use vstd::prelude::*;
use vstd::utf8::{is_ascii_chars, is_ascii_chars_encode_utf8};

verus! {

/// The methods that a request line may name.
#[derive(Clone, Copy, Debug, PartialEq, Eq, Structural)]
pub enum Method {
    Get,
    Post,
    Put,
    Delete,
    Head,
    Options,
    Patch,
    Trace,
    Connect,
}

/// The protocol versions that a request line may name.
#[derive(Clone, Copy, Debug, PartialEq, Eq, Structural)]
pub enum Version {
    Http10,
    Http11,
    Http20,
}

pub open spec fn method_name(m: Method) -> Seq<char> {
    match m {
        Method::Get => seq!['G', 'E', 'T'],
        Method::Post => seq!['P', 'O', 'S', 'T'],
        Method::Put => seq!['P', 'U', 'T'],
        Method::Delete => seq!['D', 'E', 'L', 'E', 'T', 'E'],
        Method::Head => seq!['H', 'E', 'A', 'D'],
        Method::Options => seq!['O', 'P', 'T', 'I', 'O', 'N', 'S'],
        Method::Patch => seq!['P', 'A', 'T', 'C', 'H'],
        Method::Trace => seq!['T', 'R', 'A', 'C', 'E'],
        Method::Connect => seq!['C', 'O', 'N', 'N', 'E', 'C', 'T'],
    }
}

pub open spec fn version_name(v: Version) -> Seq<char> {
    match v {
        Version::Http10 => seq!['H', 'T', 'T', 'P', '/', '1', '.', '0'],
        Version::Http11 => seq!['H', 'T', 'T', 'P', '/', '1', '.', '1'],
        Version::Http20 => seq!['H', 'T', 'T', 'P', '/', '2', '.', '0'],
    }
}

/// The bytes of an ASCII text.
pub open spec fn ascii_bytes(s: Seq<char>) -> Seq<u8> {
    s.map_values(|c: char| c as u8)
}

/// The method whose name the bytes spell, if any.
pub open spec fn method_from(b: Seq<u8>) -> Option<Method> {
    if b == ascii_bytes(method_name(Method::Get)) {
        Some(Method::Get)
    } else if b == ascii_bytes(method_name(Method::Post)) {
        Some(Method::Post)
    } else if b == ascii_bytes(method_name(Method::Put)) {
        Some(Method::Put)
    } else if b == ascii_bytes(method_name(Method::Delete)) {
        Some(Method::Delete)
    } else if b == ascii_bytes(method_name(Method::Head)) {
        Some(Method::Head)
    } else if b == ascii_bytes(method_name(Method::Options)) {
        Some(Method::Options)
    } else if b == ascii_bytes(method_name(Method::Patch)) {
        Some(Method::Patch)
    } else if b == ascii_bytes(method_name(Method::Trace)) {
        Some(Method::Trace)
    } else if b == ascii_bytes(method_name(Method::Connect)) {
        Some(Method::Connect)
    } else {
        None
    }
}

/// The version whose name the bytes spell, if any.
pub open spec fn version_from(b: Seq<u8>) -> Option<Version> {
    if b == ascii_bytes(version_name(Version::Http10)) {
        Some(Version::Http10)
    } else if b == ascii_bytes(version_name(Version::Http11)) {
        Some(Version::Http11)
    } else if b == ascii_bytes(version_name(Version::Http20)) {
        Some(Version::Http20)
    } else {
        None
    }
}

impl Method {
    /// The method's name as it stands on the wire.
    pub fn as_str(&self) -> (r: &'static str)
        ensures
            r@ == method_name(*self),
            is_ascii_chars(r@),
    {
        let s = match self {
            Method::Get => "GET",
            Method::Post => "POST",
            Method::Put => "PUT",
            Method::Delete => "DELETE",
            Method::Head => "HEAD",
            Method::Options => "OPTIONS",
            Method::Patch => "PATCH",
            Method::Trace => "TRACE",
            Method::Connect => "CONNECT",
        };
        proof {
            reveal_strlit("GET");
            reveal_strlit("POST");
            reveal_strlit("PUT");
            reveal_strlit("DELETE");
            reveal_strlit("HEAD");
            reveal_strlit("OPTIONS");
            reveal_strlit("PATCH");
            reveal_strlit("TRACE");
            reveal_strlit("CONNECT");
            assert(s@ =~= method_name(*self));
        }
        s
    }

    /// The method that `b` names, if it names one.
    pub fn from_bytes(b: &[u8]) -> (r: Option<Method>)
        ensures
            r == method_from(b@),
    {
        if eq_ascii(b, Method::Get.as_str()) {
            Some(Method::Get)
        } else if eq_ascii(b, Method::Post.as_str()) {
            Some(Method::Post)
        } else if eq_ascii(b, Method::Put.as_str()) {
            Some(Method::Put)
        } else if eq_ascii(b, Method::Delete.as_str()) {
            Some(Method::Delete)
        } else if eq_ascii(b, Method::Head.as_str()) {
            Some(Method::Head)
        } else if eq_ascii(b, Method::Options.as_str()) {
            Some(Method::Options)
        } else if eq_ascii(b, Method::Patch.as_str()) {
            Some(Method::Patch)
        } else if eq_ascii(b, Method::Trace.as_str()) {
            Some(Method::Trace)
        } else if eq_ascii(b, Method::Connect.as_str()) {
            Some(Method::Connect)
        } else {
            None
        }
    }
}

impl Version {
    /// The version's name as it stands on the wire.
    pub fn as_str(&self) -> (r: &'static str)
        ensures
            r@ == version_name(*self),
            is_ascii_chars(r@),
    {
        let s = match self {
            Version::Http10 => "HTTP/1.0",
            Version::Http11 => "HTTP/1.1",
            Version::Http20 => "HTTP/2.0",
        };
        proof {
            reveal_strlit("HTTP/1.0");
            reveal_strlit("HTTP/1.1");
            reveal_strlit("HTTP/2.0");
            assert(s@ =~= version_name(*self));
        }
        s
    }

    /// The version that `b` names, if it names one.
    pub fn from_bytes(b: &[u8]) -> (r: Option<Version>)
        ensures
            r == version_from(b@),
    {
        if eq_ascii(b, Version::Http10.as_str()) {
            Some(Version::Http10)
        } else if eq_ascii(b, Version::Http11.as_str()) {
            Some(Version::Http11)
        } else if eq_ascii(b, Version::Http20.as_str()) {
            Some(Version::Http20)
        } else {
            None
        }
    }
}

/// Whether `b` spells the ASCII text `t`.
fn eq_ascii(b: &[u8], t: &str) -> (r: bool)
    requires
        is_ascii_chars(t@),
    ensures
        r == (b@ == ascii_bytes(t@)),
{
    let tb = t.as_bytes();
    proof {
        is_ascii_chars_encode_utf8(t@);
        assert(tb@ =~= ascii_bytes(t@));
    }
    if b.len() != tb.len() {
        return false;
    }
    let mut i: usize = 0;
    while i < b.len()
        invariant
            b@.len() == tb@.len(),
            tb@ == ascii_bytes(t@),
            i <= b@.len(),
            forall|j: int| 0 <= j < i ==> b@[j] == tb@[j],
        decreases b@.len() - i,
    {
        if b[i] != tb[i] {
            assert(b@[i as int] != tb@[i as int]);
            return false;
        }
        i = i + 1;
    }
    assert(b@ =~= tb@);
    true
}

} // verus!
