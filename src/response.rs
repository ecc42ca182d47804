//! The response and its wire form.

use vstd::prelude::*;
use vstd::utf8::encode_utf8;

use crate::headers::{header_set, Headers};
use crate::responses::HttpResponse;
use crate::status::{reason_phrase, status_number, StatusCode};
use crate::text::{lower_of, decimal_text, usize_text};

verus! {

/// The content type a response gets where its handler set none.
pub const CONTENT_TYPE_JSON: &'static str = "application/json; charset=utf-8";

/// `HTTP/1.1 <code> <reason>\r\n`.
pub open spec fn status_line_text(c: StatusCode) -> Seq<char> {
    "HTTP/1.1 "@ + decimal_text(status_number(c) as nat) + " "@ + reason_phrase(c) + "\r\n"@
}

/// One `<name>: <value>\r\n` line per entry, in order.
pub open spec fn header_lines(e: Seq<(String, String)>) -> Seq<char>
    decreases e.len(),
{
    if e.len() == 0 {
        Seq::empty()
    } else {
        header_lines(e.drop_last()) + e.last().0@ + ": "@ + e.last().1@ + "\r\n"@
    }
}

/// A response on the wire: status line, header lines, an empty line, body.
pub open spec fn wire(c: StatusCode, e: Seq<(String, String)>, body: Seq<u8>) -> Seq<u8> {
    encode_utf8(status_line_text(c) + header_lines(e) + "\r\n"@) + body
}

/// The headers that every response gets before it is sent: `Content-Length`
/// set to its body length and `Connection` set to `close`, whatever they held
/// before, and a JSON content type where none was set.
pub open spec fn with_default_headers(h: Map<Seq<char>, Seq<char>>, body_len: nat) -> Map<
    Seq<char>,
    Seq<char>,
> {
    let h1 = h.insert(lower_of("Content-Length"@), decimal_text(body_len));
    let h2 = h1.insert(lower_of("Connection"@), "close"@);
    if h2.contains_key(lower_of("Content-Type"@)) {
        h2
    } else {
        h2.insert(lower_of("Content-Type"@), CONTENT_TYPE_JSON@)
    }
}

/// Appends the bytes of `b` to `out`.
fn append_bytes(out: &mut Vec<u8>, b: &[u8])
    ensures
        final(out)@ == old(out)@ + b@,
{
    let ghost start = out@;
    let mut i: usize = 0;
    while i < b.len()
        invariant
            i <= b@.len(),
            out@ == start + b@.subrange(0, i as int),
        decreases b@.len() - i,
    {
        out.push(b[i]);
        assert(b@.subrange(0, i + 1) =~= b@.subrange(0, i as int).push(b@[i as int]));
        i = i + 1;
    }
    assert(b@.subrange(0, b@.len() as int) =~= b@);
}

/// The status line for `status_code`.
fn status_line(status_code: StatusCode) -> (r: String)
    ensures
        r@ == status_line_text(status_code),
{
    let mut s = String::new();
    s.append("HTTP/1.1 ");
    s.append(usize_text(status_code.code() as usize).as_str());
    s.append(" ");
    s.append(status_code.as_str());
    s.append("\r\n");
    assert(s@ =~= status_line_text(status_code));
    s
}

/// Writes the status line for `status_code` to `out`.
pub fn write_status_line(out: &mut Vec<u8>, status_code: StatusCode)
    ensures
        final(out)@ == old(out)@ + encode_utf8(status_line_text(status_code)),
{
    let line = status_line(status_code);
    append_bytes(out, line.as_str().as_bytes());
}

/// A response under construction.
pub struct Response {
    body: Vec<u8>,
    headers: Headers,
    status_code: StatusCode,
}

impl Response {
    pub closed spec fn wf(&self) -> bool {
        self.headers.wf()
    }

    pub closed spec fn spec_status(&self) -> StatusCode {
        self.status_code
    }

    pub closed spec fn spec_body(&self) -> Seq<u8> {
        self.body@
    }

    pub closed spec fn spec_headers(&self) -> Map<Seq<char>, Seq<char>> {
        self.headers@
    }

    pub closed spec fn spec_entries(&self) -> Seq<(String, String)> {
        self.headers.entries()
    }

    /// A 200 response with no headers and an empty body.
    pub fn new() -> (r: Response)
        ensures
            r.wf(),
            r.spec_status() == StatusCode::Success,
            r.spec_body() == Seq::<u8>::empty(),
            r.spec_headers() == Map::<Seq<char>, Seq<char>>::empty(),
    {
        Response { body: Vec::new(), headers: Headers::new(), status_code: StatusCode::Success }
    }

    pub fn set_status_code(&mut self, status_code: StatusCode)
        ensures
            final(self).spec_status() == status_code,
            final(self).spec_body() == old(self).spec_body(),
            final(self).spec_headers() == old(self).spec_headers(),
            final(self).spec_entries() == old(self).spec_entries(),
            final(self).wf() == old(self).wf(),
    {
        self.status_code = status_code;
    }

    pub fn set_body(&mut self, body: Vec<u8>)
        ensures
            final(self).spec_body() == body@,
            final(self).spec_status() == old(self).spec_status(),
            final(self).spec_headers() == old(self).spec_headers(),
            final(self).spec_entries() == old(self).spec_entries(),
            final(self).wf() == old(self).wf(),
    {
        self.body = body;
    }

    /// Sets a header, as `Headers::set` does.
    pub fn set_header(&mut self, key: &str, value: &str)
        requires
            old(self).wf(),
        ensures
            final(self).wf(),
            final(self).spec_headers() == header_set(old(self).spec_headers(), key@, value@),
            final(self).spec_body() == old(self).spec_body(),
            final(self).spec_status() == old(self).spec_status(),
    {
        self.headers.set(key, value);
    }

    /// Takes a JSON document, already encoded, as the body, and sets the
    /// content type to JSON.
    pub fn set_json_body(&mut self, json: Vec<u8>)
        requires
            old(self).wf(),
        ensures
            final(self).wf(),
            final(self).spec_body() == json@,
            final(self).spec_headers() == old(self).spec_headers().insert(
                lower_of("Content-Type"@),
                CONTENT_TYPE_JSON@,
            ),
            final(self).spec_status() == old(self).spec_status(),
    {
        self.headers.replace("Content-Type", CONTENT_TYPE_JSON);
        self.body = json;
    }

    /// Takes the status and the body of a handler's result.
    pub fn set_result<R: HttpResponse>(&mut self, result: &R)
        ensures
            final(self).spec_status() == result.response_status(),
            final(self).spec_body() == result.response_body(),
            final(self).spec_headers() == old(self).spec_headers(),
            final(self).spec_entries() == old(self).spec_entries(),
            final(self).wf() == old(self).wf(),
    {
        self.status_code = result.status_code();
        self.body = result.into_response();
    }

    /// Sets the headers every response carries: `Content-Length` from the
    /// body and `Connection: close`, replacing earlier values, and a JSON
    /// `Content-Type` where none was set.
    pub fn set_default_headers(&mut self)
        requires
            old(self).wf(),
        ensures
            final(self).wf(),
            final(self).spec_headers() == with_default_headers(
                old(self).spec_headers(),
                old(self).spec_body().len(),
            ),
            final(self).spec_body() == old(self).spec_body(),
            final(self).spec_status() == old(self).spec_status(),
    {
        let length = usize_text(self.body.len());
        self.headers.replace("Content-Length", length.as_str());
        self.headers.replace("Connection", "close");
        if !self.headers.contains("Content-Type") {
            self.headers.replace("Content-Type", CONTENT_TYPE_JSON);
        }
    }

    pub fn status_code(&self) -> (r: StatusCode)
        ensures
            r == self.spec_status(),
    {
        self.status_code
    }

    pub fn get_headers(&self) -> (r: &Headers)
        requires
            self.wf(),
        ensures
            r.wf(),
            r@ == self.spec_headers(),
            r.entries() == self.spec_entries(),
    {
        &self.headers
    }

    pub fn get_body(&self) -> (r: &Vec<u8>)
        ensures
            r@ == self.spec_body(),
    {
        &self.body
    }

    /// Writes the response to `out`: status line, one line per header, an
    /// empty line, then the body.
    pub fn write_response(&self, out: &mut Vec<u8>)
        requires
            self.wf(),
        ensures
            final(out)@ == old(out)@ + wire(self.spec_status(), self.spec_entries(), self.spec_body()),
    {
        let mut head = status_line(self.status_code);
        let entries = self.headers.iter();
        let mut i: usize = 0;
        while i < entries.len()
            invariant
                i <= entries@.len(),
                entries@ == self.spec_entries(),
                head@ == status_line_text(self.status_code) + header_lines(
                    entries@.subrange(0, i as int),
                ),
            decreases entries@.len() - i,
        {
            let (k, v) = &entries[i];
            head.append(k.as_str());
            head.append(": ");
            head.append(v.as_str());
            head.append("\r\n");
            let ghost sub = entries@.subrange(0, i + 1);
            assert(sub.drop_last() =~= entries@.subrange(0, i as int));
            assert(head@ =~= status_line_text(self.status_code) + header_lines(sub));
            i = i + 1;
        }
        assert(entries@.subrange(0, entries@.len() as int) =~= entries@);
        head.append("\r\n");
        append_bytes(out, head.as_str().as_bytes());
        append_bytes(out, self.body.as_slice());
        assert(out@ =~= old(out)@ + wire(self.status_code, entries@, self.body@));
    }
}

} // verus!
