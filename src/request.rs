//! The request state machine: it takes bytes as they arrive, however the
//! transport splits them, and builds one request.

use vstd::prelude::*;
use vstd::slice::slice_subrange;

use crate::body;
use crate::body::body_take;
use crate::error::ParseError;
use crate::headers::{
    header_get, header_line_spec, header_section, header_set, lemma_header_section_len, Headers,
};
use crate::method::{method_name, version_name, Method, Version};
use crate::request_line::{request_line_prefix, RequestLine};
use crate::scan::{has_line, is_line_end, lemma_line_end_extend, line_end};
use crate::table::{keys_unique, table_map};
use crate::text::{lower_of, decimal_usize};

verus! {

/// Where the parser stands. It only moves forward:
/// `Init → RequestLine → Headers → (Body →) Done`.
#[derive(Clone, Copy, Debug, PartialEq, Eq, Structural)]
pub enum ParseState {
    Init,
    RequestLine,
    Headers,
    Body,
    Done,
}

pub open spec fn rank(s: ParseState) -> nat {
    match s {
        ParseState::Init => 0,
        ParseState::RequestLine => 1,
        ParseState::Headers => 2,
        ParseState::Body => 3,
        ParseState::Done => 4,
    }
}

/// The name of the header that gives the body's length, folded.
pub open spec fn content_length_name() -> Seq<char> {
    seq!['c', 'o', 'n', 't', 'e', 'n', 't', '-', 'l', 'e', 'n', 'g', 't', 'h']
}

/// The declared body length: the `Content-Length` value read as a number.
pub open spec fn content_length(h: Map<Seq<char>, Seq<char>>) -> Option<usize> {
    match header_get(h, content_length_name()) {
        Some(v) => decimal_usize(v),
        None => None,
    }
}

/// The name of the header that gives the body's length.
fn content_length_key() -> (r: &'static str)
    ensures
        r@ == content_length_name(),
{
    let k = "content-length";
    proof {
        reveal_strlit("content-length");
        assert(k@ =~= content_length_name());
    }
    k
}

/// A body is expected when a `Content-Length` header is present.
pub open spec fn expects_body(h: Map<Seq<char>, Seq<char>>) -> bool {
    h.contains_key(lower_of(content_length_name()))
}

/// What a request holds, and where its parsing stands.
pub struct RequestView {
    pub state: ParseState,
    pub method: Option<Method>,
    pub path: Seq<char>,
    pub query: Map<Seq<char>, Seq<char>>,
    pub version: Option<Version>,
    pub headers: Map<Seq<char>, Seq<char>>,
    pub body: Seq<u8>,
}

/// A request before any byte has been read.
pub open spec fn initial_view() -> RequestView {
    RequestView {
        state: ParseState::Init,
        method: None,
        path: Seq::empty(),
        query: Map::empty(),
        version: None,
        headers: Map::empty(),
        body: Seq::empty(),
    }
}

/// One move of the parser over the unread bytes `b`.
pub enum Step {
    /// More bytes are needed (or the request is complete).
    Wait,
    /// The bytes are not a request.
    Fail(ParseError),
    /// The request moves to the new value, taking that many bytes.
    Advance(RequestView, nat),
}

/// The parser's single move: a whole request line, a whole header line, the
/// end of the header section, or a piece of the body.
#[verifier::opaque]
pub open spec fn step(s: RequestView, b: Seq<u8>) -> Step {
    match s.state {
        ParseState::Init => Step::Advance(RequestView { state: ParseState::RequestLine, ..s }, 0),
        ParseState::RequestLine => match request_line_prefix(b) {
            Ok(None) => Step::Wait,
            Err(e) => Step::Fail(e),
            Ok(Some((rl, n))) => Step::Advance(
                RequestView {
                    state: ParseState::Headers,
                    method: Some(rl.method),
                    path: rl.path,
                    query: rl.query,
                    version: Some(rl.version),
                    ..s
                },
                n,
            ),
        },
        ParseState::Headers => if !has_line(b) {
            Step::Wait
        } else if line_end(b) == 0 {
            Step::Advance(
                RequestView {
                    state: if expects_body(s.headers) {
                        ParseState::Body
                    } else {
                        ParseState::Done
                    },
                    ..s
                },
                2,
            )
        } else {
            match header_line_spec(b.subrange(0, line_end(b))) {
                Err(e) => Step::Fail(e),
                Ok((k, v)) => Step::Advance(
                    RequestView { headers: header_set(s.headers, k, v), ..s },
                    (line_end(b) + 2) as nat,
                ),
            }
        },
        ParseState::Body => match content_length(s.headers) {
            None => Step::Advance(RequestView { state: ParseState::Done, ..s }, 0),
            Some(len) => if s.body.len() >= len {
                Step::Advance(RequestView { state: ParseState::Done, ..s }, 0)
            } else if b.len() == 0 {
                Step::Wait
            } else {
                let take = body_take(s.body.len(), b.len(), len as nat);
                let body = s.body + b.subrange(0, take as int);
                Step::Advance(
                    RequestView {
                        state: if body.len() >= len {
                            ParseState::Done
                        } else {
                            ParseState::Body
                        },
                        body,
                        ..s
                    },
                    take,
                )
            },
        },
        ParseState::Done => Step::Wait,
    }
}

/// A move takes no more bytes than there are, and a move that takes none
/// goes to a later state.
pub open spec fn moves_forward(s: RequestView, b: Seq<u8>, t: RequestView, n: nat) -> bool {
    n <= b.len() && (n > 0 || rank(t.state) > rank(s.state))
}

/// The parser's moves over `b`, as far as they go: the request reached and
/// the bytes taken, or the failure.
pub open spec fn run(s: RequestView, b: Seq<u8>) -> Result<(RequestView, nat), ParseError>
    decreases b.len(), 4 - rank(s.state),
{
    match step(s, b) {
        Step::Wait => Ok((s, 0)),
        Step::Fail(e) => Err(e),
        Step::Advance(t, n) => if moves_forward(s, b, t, n) {
            match run(t, b.subrange(n as int, b.len() as int)) {
                Ok((u, m)) => Ok((u, n + m)),
                Err(e) => Err(e),
            }
        } else {
            Ok((s, 0))
        },
    }
}

/// `r` with `n` more bytes counted as taken.
pub open spec fn after(n: nat, r: Result<(RequestView, nat), ParseError>) -> Result<
    (RequestView, nat),
    ParseError,
> {
    match r {
        Ok((u, m)) => Ok((u, n + m)),
        Err(e) => Err(e),
    }
}

pub proof fn lemma_step_moves_forward(s: RequestView, b: Seq<u8>)
    ensures
        step(s, b) matches Step::Advance(t, n) ==> moves_forward(s, b, t, n),
{
    reveal(step);
    if has_line(b) {
        let i = line_end(b);
        assert(is_line_end(b, i));
    }
}

/// In the header state the moves go as the header section reads.
#[verifier::rlimit(40)]
pub proof fn lemma_run_headers(s: RequestView, b: Seq<u8>)
    requires
        s.state == ParseState::Headers,
    ensures
        run(s, b) == match header_section(s.headers, b) {
            Err(e) => Err(e),
            Ok((m, d, n)) => if d {
                after(
                    n,
                    run(
                        RequestView {
                            headers: m,
                            state: if expects_body(m) {
                                ParseState::Body
                            } else {
                                ParseState::Done
                            },
                            ..s
                        },
                        b.subrange(n as int, b.len() as int),
                    ),
                )
            } else {
                Ok((RequestView { headers: m, ..s }, n))
            },
        },
    decreases b.len(),
{
    reveal(step);
    lemma_step_moves_forward(s, b);
    if has_line(b) {
        let i = line_end(b);
        assert(is_line_end(b, i));
        if i != 0 {
            match header_line_spec(b.subrange(0, i)) {
                Err(e) => {},
                Ok((k, v)) => {
                    let s1 = RequestView { headers: header_set(s.headers, k, v), ..s };
                    let b1 = b.subrange(i + 2, b.len() as int);
                    lemma_run_headers(s1, b1);
                    lemma_header_section_len(s1.headers, b1);
                    match header_section(s1.headers, b1) {
                        Err(e) => {},
                        Ok((m, d, n)) => {
                            assert(b1.subrange(n as int, b1.len() as int) =~= b.subrange(
                                (n + i + 2) as int,
                                b.len() as int,
                            ));
                        },
                    }
                },
            }
        }
    } else {
        assert(RequestView { headers: s.headers, ..s } == s);
    }
}

/// In the body state, with body bytes still missing, the parser takes what
/// it lacks from `b`, or all of `b` where that is less.
pub proof fn lemma_run_body(s: RequestView, b: Seq<u8>, len: usize)
    requires
        s.state == ParseState::Body,
        content_length(s.headers) == Some(len),
        s.body.len() < len,
    ensures
        ({
            let take = body_take(s.body.len(), b.len(), len as nat);
            let body = s.body + b.subrange(0, take as int);
            run(s, b) == Ok::<(RequestView, nat), ParseError>(
                (
                    RequestView {
                        state: if body.len() >= len {
                            ParseState::Done
                        } else {
                            ParseState::Body
                        },
                        body,
                        ..s
                    },
                    take,
                ),
            )
        }),
{
    reveal(step);
    lemma_step_moves_forward(s, b);
    if b.len() == 0 {
        assert(s.body + b.subrange(0, 0) =~= s.body);
        assert(RequestView { state: ParseState::Body, body: s.body, ..s } == s);
    } else {
        let take = body_take(s.body.len(), b.len(), len as nat);
        if let Step::Advance(t, n) = step(s, b) {
            let rest = b.subrange(n as int, b.len() as int);
            lemma_step_moves_forward(t, rest);
            if t.state == ParseState::Body {
                assert(rest.len() == 0);
            }
            assert(run(t, rest) == Ok::<(RequestView, nat), ParseError>((t, 0)));
        }
    }
}

/// The parser never takes more bytes than there are.
pub proof fn lemma_run_len(s: RequestView, b: Seq<u8>)
    ensures
        run(s, b) matches Ok((_, n)) ==> n <= b.len(),
    decreases b.len(), 4 - rank(s.state),
{
    lemma_step_moves_forward(s, b);
    if let Step::Advance(t, n) = step(s, b) {
        if moves_forward(s, b, t, n) {
            lemma_run_len(t, b.subrange(n as int, b.len() as int));
        }
    }
}

/// In the body state, `a` is shorter than what the body still lacks.
pub open spec fn body_short(s: RequestView, a: Seq<u8>) -> bool {
    s.state == ParseState::Body && match content_length(s.headers) {
        Some(len) => s.body.len() < len && a.len() < len - s.body.len(),
        None => false,
    }
}

/// Fewer bytes than the body still lacks are all taken: the request stays
/// in the body state and its body holds exactly the bytes received.
pub proof fn lemma_short_body_waits(s: RequestView, b: Seq<u8>, len: usize)
    requires
        s.state == ParseState::Body,
        content_length(s.headers) == Some(len),
        s.body.len() + b.len() < len,
    ensures
        run(s, b) == Ok::<(RequestView, nat), ParseError>(
            (RequestView { body: s.body + b, ..s }, b.len()),
        ),
{
    lemma_run_body(s, b, len);
    assert(b.subrange(0, b.len() as int) =~= b);
}

/// A fresh request fed a request line and a header section that declares a
/// length, then fewer body bytes than that length: it takes every byte, stays
/// in the body state, and its body is the bytes after the header section.
pub proof fn lemma_fresh_short_body(head: Seq<u8>, b: Seq<u8>, t: RequestView, len: usize)
    requires
        run(initial_view(), head) == Ok::<(RequestView, nat), ParseError>((t, head.len())),
        t.state == ParseState::Body,
        t.body.len() == 0,
        content_length(t.headers) == Some(len),
        b.len() < len,
    ensures
        run(initial_view(), head + b) == Ok::<(RequestView, nat), ParseError>(
            (RequestView { body: b, ..t }, head.len() + b.len()),
        ),
{
    assert(t.body + b =~= b);
    lemma_run_concat(initial_view(), head, b);
    assert((head + b).subrange(head.len() as int, (head + b).len() as int) =~= b);
    lemma_short_body_waits(t, b, len);
}

/// Once the parser has moved over some bytes, more bytes after them do not
/// change that move (a body still short of its length aside).
pub proof fn lemma_step_extend(s: RequestView, a: Seq<u8>, c: Seq<u8>)
    requires
        !(step(s, a) is Wait),
        !body_short(s, a),
    ensures
        step(s, a + c) == step(s, a),
{
    reveal(step);
    match s.state {
        ParseState::RequestLine => {
            lemma_line_end_extend(a, c);
        },
        ParseState::Headers => {
            lemma_line_end_extend(a, c);
        },
        ParseState::Body => {
            if let Some(len) = content_length(s.headers) {
                if s.body.len() < len {
                    let take = body_take(s.body.len(), a.len(), len as nat);
                    assert((a + c).subrange(0, take as int) =~= a.subrange(0, take as int));
                }
            }
        },
        _ => {},
    }
}

/// Running over `a + c` is running over `a`, then over what `a` left with
/// `c` after it: the parser never looks back, and never past the bytes it
/// needs.
pub proof fn lemma_run_concat(s: RequestView, a: Seq<u8>, c: Seq<u8>)
    ensures
        run(s, a + c) == match run(s, a) {
            Err(e) => Err(e),
            Ok((t, n)) => after(n, run(t, (a + c).subrange(n as int, (a + c).len() as int))),
        },
    decreases a.len(), 4 - rank(s.state),
{
    let ac = a + c;
    lemma_step_moves_forward(s, a);
    lemma_step_moves_forward(s, ac);
    match step(s, a) {
        Step::Wait => {
            assert(ac.subrange(0, ac.len() as int) =~= ac);
        },
        Step::Fail(e) => {
            assert(!body_short(s, a)) by {
                reveal(step);
            }
            lemma_step_extend(s, a, c);
        },
        Step::Advance(t, n) => {
            if body_short(s, a) {
                let len = content_length(s.headers).unwrap();
                lemma_run_body(s, a, len);
                lemma_run_body(s, ac, len);
                let ta = RequestView { body: s.body + a, ..s };
                assert(s.body + a.subrange(0, a.len() as int) =~= s.body + a);
                let cc = ac.subrange(a.len() as int, ac.len() as int);
                assert(cc =~= c);
                lemma_run_body(ta, cc, len);
                let tk = body_take(ta.body.len(), cc.len(), len as nat);
                let tk2 = body_take(s.body.len(), ac.len(), len as nat);
                assert(tk2 == a.len() + tk);
                assert(s.body + ac.subrange(0, tk2 as int) =~= ta.body + cc.subrange(0, tk as int));
            } else {
                lemma_step_extend(s, a, c);
                let a1 = a.subrange(n as int, a.len() as int);
                lemma_run_concat(t, a1, c);
                lemma_run_len(t, a1);
                assert(ac.subrange(n as int, ac.len() as int) =~= a1 + c);
                match run(t, a1) {
                    Err(e) => {},
                    Ok((u, m)) => {
                        assert((a1 + c).subrange(m as int, (a1 + c).len() as int) =~= ac.subrange(
                            (n + m) as int,
                            ac.len() as int,
                        ));
                    },
                }
            }
        },
    }
}

/// What a reader does with one more chunk: it appends the chunk to the
/// bytes not taken so far and runs the parser over them. Gives the request
/// and the bytes still not taken.
pub open spec fn feed_spec(s: RequestView, pending: Seq<u8>, chunk: Seq<u8>) -> Result<
    (RequestView, Seq<u8>),
    ParseError,
> {
    let buf = pending + chunk;
    match run(s, buf) {
        Ok((t, n)) => Ok((t, buf.subrange(n as int, buf.len() as int))),
        Err(e) => Err(e),
    }
}

/// Feeding the chunks one after another.
pub open spec fn feed_chunks(s: RequestView, pending: Seq<u8>, chunks: Seq<Seq<u8>>) -> Result<
    (RequestView, Seq<u8>),
    ParseError,
>
    decreases chunks.len(),
{
    if chunks.len() == 0 {
        Ok((s, pending))
    } else {
        match feed_spec(s, pending, chunks[0]) {
            Ok((t, p)) => feed_chunks(t, p, chunks.drop_first()),
            Err(e) => Err(e),
        }
    }
}

/// Feeding chunks is running the parser once over all their bytes.
pub proof fn lemma_feed_chunks(s: RequestView, pending: Seq<u8>, chunks: Seq<Seq<u8>>)
    requires
        chunks.len() > 0,
    ensures
        feed_chunks(s, pending, chunks) == feed_spec(s, pending, chunks.flatten()),
    decreases chunks.len(),
{
    let c0 = chunks[0];
    let rest = chunks.drop_first();
    assert(chunks.flatten() == c0 + rest.flatten());
    if rest.len() == 0 {
        assert(rest.flatten() =~= Seq::<u8>::empty());
        assert(c0 + rest.flatten() =~= c0);
        if let Ok((t, p1)) = feed_spec(s, pending, c0) {
            assert(feed_chunks(t, p1, rest) == Ok::<(RequestView, Seq<u8>), ParseError>((t, p1)));
        }
    } else {
        let a = pending + c0;
        let f = rest.flatten();
        lemma_run_concat(s, a, f);
        assert(pending + chunks.flatten() =~= a + f);
        match run(s, a) {
            Err(e) => {},
            Ok((t, n)) => {
                lemma_run_len(s, a);
                let p1 = a.subrange(n as int, a.len() as int);
                lemma_feed_chunks(t, p1, rest);
                lemma_run_len(t, p1 + f);
                assert((a + f).subrange(n as int, (a + f).len() as int) =~= p1 + f);
                match run(t, p1 + f) {
                    Err(e) => {},
                    Ok((u, m)) => {
                        assert((p1 + f).subrange(m as int, (p1 + f).len() as int) =~= (a
                            + f).subrange((n + m) as int, (a + f).len() as int));
                    },
                }
            },
        }
    }
}

/// However the bytes of a message are split into chunks, feeding the chunks
/// in order to a fresh request gives the same request, the same failure, and
/// the same bytes left over, as feeding the whole message at once.
pub proof fn lemma_chunking_irrelevant(chunks: Seq<Seq<u8>>)
    requires
        chunks.len() > 0,
    ensures
        feed_chunks(initial_view(), Seq::empty(), chunks) == feed_chunks(
            initial_view(),
            Seq::empty(),
            seq![chunks.flatten()],
        ),
{
    lemma_feed_chunks(initial_view(), Seq::empty(), chunks);
    lemma_feed_chunks(initial_view(), Seq::empty(), seq![chunks.flatten()]);
    assert(seq![chunks.flatten()].flatten() == chunks.flatten() + seq![chunks.flatten()].drop_first().flatten());
    assert(seq![chunks.flatten()].drop_first().flatten() =~= Seq::<u8>::empty());
    assert(chunks.flatten() + Seq::<u8>::empty() =~= chunks.flatten());
}

/// A complete request stays as it is, whatever more is fed to it.
pub proof fn lemma_feed_done(s: RequestView, pending: Seq<u8>, chunks: Seq<Seq<u8>>)
    requires
        s.state == ParseState::Done,
    ensures
        feed_chunks(s, pending, chunks) matches Ok((t, _)) && t == s,
    decreases chunks.len(),
{
    if chunks.len() > 0 {
        assert(step(s, pending + chunks[0]) is Wait) by {
            reveal(step);
        }
        let buf = pending + chunks[0];
        lemma_feed_done(s, buf.subrange(0, buf.len() as int), chunks.drop_first());
    }
}

/// The bytes of each chunk.
pub open spec fn chunks_view(chunks: Seq<Vec<u8>>) -> Seq<Seq<u8>> {
    chunks.map_values(|c: Vec<u8>| c@)
}

/// A request, built by the parser as bytes arrive.
pub struct Request {
    state: ParseState,
    method: Option<Method>,
    path: String,
    query: Vec<(String, String)>,
    version: Option<Version>,
    headers: Headers,
    body: Vec<u8>,
}

impl View for Request {
    type V = RequestView;

    closed spec fn view(&self) -> RequestView {
        RequestView {
            state: self.state,
            method: self.method,
            path: self.path@,
            query: table_map(self.query@),
            version: self.version,
            headers: self.headers@,
            body: self.body@,
        }
    }
}

impl Request {
    pub closed spec fn wf(&self) -> bool {
        self.headers.wf() && keys_unique(self.query@)
    }

    /// An empty request, waiting for its first byte.
    pub fn new() -> (r: Request)
        ensures
            r.wf(),
            r@ == initial_view(),
    {
        let r = Request {
            state: ParseState::Init,
            method: None,
            path: String::new(),
            query: Vec::new(),
            version: None,
            headers: Headers::new(),
            body: Vec::new(),
        };
        assert(table_map(r.query@) =~= Map::<Seq<char>, Seq<char>>::empty());
        r
    }

    pub fn get_headers(&self) -> (r: &Headers)
        requires
            self.wf(),
        ensures
            r.wf(),
            r@ == self@.headers,
    {
        &self.headers
    }

    /// Whether the whole request has been read.
    pub fn done(&self) -> (r: bool)
        ensures
            r == (self@.state == ParseState::Done),
    {
        self.state == ParseState::Done
    }

    pub fn state(&self) -> (r: ParseState)
        ensures
            r == self@.state,
    {
        self.state
    }

    /// The method's name; empty before the request line is read.
    pub fn get_method(&self) -> (r: &str)
        ensures
            r@ == match self@.method {
                Some(m) => method_name(m),
                None => Seq::<char>::empty(),
            },
    {
        match self.method {
            Some(m) => m.as_str(),
            None => {
                proof {
                    reveal_strlit("");
                }
                ""
            },
        }
    }

    pub fn method(&self) -> (r: Option<Method>)
        ensures
            r == self@.method,
    {
        self.method
    }

    /// The path, without the query string.
    pub fn get_path(&self) -> (r: &str)
        ensures
            r@ == self@.path,
    {
        self.path.as_str()
    }

    /// The version's name; empty before the request line is read.
    pub fn get_version(&self) -> (r: &str)
        ensures
            r@ == match self@.version {
                Some(v) => version_name(v),
                None => Seq::<char>::empty(),
            },
    {
        match self.version {
            Some(v) => v.as_str(),
            None => {
                proof {
                    reveal_strlit("");
                }
                ""
            },
        }
    }

    /// The query parameters, one entry per key.
    pub fn get_query(&self) -> (r: &[(String, String)])
        requires
            self.wf(),
        ensures
            keys_unique(r@),
            table_map(r@) == self@.query,
    {
        self.query.as_slice()
    }

    pub fn get_body(&self) -> (r: &Vec<u8>)
        ensures
            r@ == self@.body,
    {
        &self.body
    }

    /// Advances the parser over `buffer` as far as it goes, and gives the
    /// number of bytes taken from its front: the caller drops those and
    /// hands the rest back, with more, on the next call.
    pub fn parse(&mut self, buffer: &[u8]) -> (r: Result<usize, ParseError>)
        requires
            old(self).wf(),
        ensures
            final(self).wf(),
            match run(old(self)@, buffer@) {
                Ok((t, n)) => r == Ok::<usize, ParseError>(n as usize) && final(self)@ == t,
                Err(e) => r == Err::<usize, ParseError>(e),
            },
    {
        let n = buffer.len();
        let mut read: usize = 0;
        assert(buffer@.subrange(0, n as int) =~= buffer@);
        loop
            invariant
                self.wf(),
                read <= n,
                n == buffer@.len(),
                run(old(self)@, buffer@) == after(
                    read as nat,
                    run(self@, buffer@.subrange(read as int, n as int)),
                ),
            decreases n - read, 4 - rank(self@.state),
        {
            let rest = slice_subrange(buffer, read, n);
            match self.advance(rest) {
                Err(e) => return Err(e),
                Ok(None) => return Ok(read),
                Ok(Some(k)) => {
                    proof {
                        assert(rest@.subrange(k as int, rest@.len() as int) =~= buffer@.subrange(
                            read + k,
                            n as int,
                        ));
                    }
                    read = read + k;
                },
            }
        }
    }

    /// One pass of the parser over `rest`: `None` where it stops there,
    /// otherwise the bytes taken by a move that goes forward.
    fn advance(&mut self, rest: &[u8]) -> (r: Result<Option<usize>, ParseError>)
        requires
            old(self).wf(),
        ensures
            final(self).wf(),
            match r {
                Err(e) => run(old(self)@, rest@) == Err::<(RequestView, nat), ParseError>(e),
                Ok(None) => run(old(self)@, rest@) == Ok::<(RequestView, nat), ParseError>(
                    (final(self)@, 0),
                ),
                Ok(Some(k)) => moves_forward(old(self)@, rest@, final(self)@, k as nat) && run(
                    old(self)@,
                    rest@,
                ) == after(k as nat, run(final(self)@, rest@.subrange(k as int, rest@.len() as int))),
            },
    {
        proof {
            reveal(step);
        }
        let ghost s = self@;
        proof {
            lemma_step_moves_forward(s, rest@);
        }
        match self.state {
            ParseState::Init => {
                self.state = ParseState::RequestLine;
                assert(rest@.subrange(0, rest@.len() as int) =~= rest@);
                Ok(Some(0))
            },
            ParseState::RequestLine => self.advance_request_line(rest),
            ParseState::Headers => self.advance_headers(rest),
            ParseState::Body => self.advance_body(rest),
            ParseState::Done => Ok(None),
        }
    }

    fn advance_request_line(&mut self, rest: &[u8]) -> (r: Result<Option<usize>, ParseError>)
        requires
            old(self).wf(),
            old(self)@.state == ParseState::RequestLine,
        ensures
            final(self).wf(),
            match r {
                Err(e) => run(old(self)@, rest@) == Err::<(RequestView, nat), ParseError>(e),
                Ok(None) => run(old(self)@, rest@) == Ok::<(RequestView, nat), ParseError>(
                    (final(self)@, 0),
                ),
                Ok(Some(k)) => moves_forward(old(self)@, rest@, final(self)@, k as nat) && run(
                    old(self)@,
                    rest@,
                ) == after(k as nat, run(final(self)@, rest@.subrange(k as int, rest@.len() as int))),
            },
    {
        proof {
            reveal(step);
        }
        proof {
            lemma_step_moves_forward(self@, rest@);
        }
        match RequestLine::parse(rest) {
            Err(e) => Err(e),
            Ok(None) => Ok(None),
            Ok(Some((rl, consumed))) => {
                self.method = Some(rl.method());
                self.version = Some(rl.version());
                let (path, query) = rl.into_parts();
                self.path = path;
                self.query = query;
                self.state = ParseState::Headers;
                Ok(Some(consumed))
            },
        }
    }

    fn advance_headers(&mut self, rest: &[u8]) -> (r: Result<Option<usize>, ParseError>)
        requires
            old(self).wf(),
            old(self)@.state == ParseState::Headers,
        ensures
            final(self).wf(),
            match r {
                Err(e) => run(old(self)@, rest@) == Err::<(RequestView, nat), ParseError>(e),
                Ok(None) => run(old(self)@, rest@) == Ok::<(RequestView, nat), ParseError>(
                    (final(self)@, 0),
                ),
                Ok(Some(k)) => moves_forward(old(self)@, rest@, final(self)@, k as nat) && run(
                    old(self)@,
                    rest@,
                ) == after(k as nat, run(final(self)@, rest@.subrange(k as int, rest@.len() as int))),
            },
    {
        proof {
            reveal(step);
        }
        let ghost s = self@;
        let rest_len = rest.len();
        proof {
            lemma_run_headers(s, rest@);
            lemma_header_section_len(s.headers, rest@);
        }
        match self.headers.parse(rest) {
            Err(e) => Err(e),
            Ok((done, consumed)) => {
                assert(header_section(s.headers, rest@) == Ok::<
                    (Map<Seq<char>, Seq<char>>, bool, nat),
                    ParseError,
                >((self.headers@, done, consumed as nat)));
                assert(self@ == RequestView { headers: self.headers@, ..s });
                if !done {
                    assert(run(s, rest@) == Ok::<(RequestView, nat), ParseError>(
                        (self@, consumed as nat),
                    ));
                    if consumed == 0 {
                        assert(self@ == RequestView { headers: self.headers@, ..old(self)@ });
                        return Ok(None);
                    }
                    return Ok(Some(consumed));
                }
                if self.headers.contains(content_length_key()) {
                    self.state = ParseState::Body;
                } else {
                    self.state = ParseState::Done;
                }
                Ok(Some(consumed))
            },
        }
    }

    fn advance_body(&mut self, rest: &[u8]) -> (r: Result<Option<usize>, ParseError>)
        requires
            old(self).wf(),
            old(self)@.state == ParseState::Body,
        ensures
            final(self).wf(),
            match r {
                Err(e) => run(old(self)@, rest@) == Err::<(RequestView, nat), ParseError>(e),
                Ok(None) => run(old(self)@, rest@) == Ok::<(RequestView, nat), ParseError>(
                    (final(self)@, 0),
                ),
                Ok(Some(k)) => moves_forward(old(self)@, rest@, final(self)@, k as nat) && run(
                    old(self)@,
                    rest@,
                ) == after(k as nat, run(final(self)@, rest@.subrange(k as int, rest@.len() as int))),
            },
    {
        proof {
            reveal(step);
        }
        proof {
            lemma_step_moves_forward(self@, rest@);
        }
        match self.headers.get_usize(content_length_key()) {
            None => {
                self.state = ParseState::Done;
                assert(rest@.subrange(0, rest@.len() as int) =~= rest@);
                Ok(Some(0))
            },
            Some(len) => {
                let (done, consumed) = match body::parse(&mut self.body, rest, len) {
                    Ok(dc) => dc,
                    Err(e) => return Err(e),
                };
                if done {
                    self.state = ParseState::Done;
                } else if consumed == 0 {
                    return Ok(None);
                }
                Ok(Some(consumed))
            },
        }
    }

    /// Appends `chunk` to the bytes not yet taken (`pending`), runs the
    /// parser over them, and keeps in `pending` what it did not take. Gives
    /// whether the request is complete.
    pub fn feed(&mut self, pending: &mut Vec<u8>, chunk: &[u8]) -> (r: Result<bool, ParseError>)
        requires
            old(self).wf(),
        ensures
            final(self).wf(),
            match feed_spec(old(self)@, old(pending)@, chunk@) {
                Ok((t, p)) => r == Ok::<bool, ParseError>(t.state == ParseState::Done)
                    && final(self)@ == t && final(pending)@ == p,
                Err(e) => r == Err::<bool, ParseError>(e),
            },
    {
        let ghost start = pending@;
        let mut i: usize = 0;
        while i < chunk.len()
            invariant
                i <= chunk@.len(),
                pending@ == start + chunk@.subrange(0, i as int),
            decreases chunk@.len() - i,
        {
            pending.push(chunk[i]);
            assert(chunk@.subrange(0, i + 1) =~= chunk@.subrange(0, i as int).push(chunk@[i as int]));
            i = i + 1;
        }
        assert(chunk@.subrange(0, chunk@.len() as int) =~= chunk@);
        let n = match self.parse(pending.as_slice()) {
            Ok(n) => n,
            Err(e) => return Err(e),
        };
        proof {
            lemma_run_len(old(self)@, pending@);
        }
        let mut rest: Vec<u8> = Vec::new();
        let mut j: usize = n;
        while j < pending.len()
            invariant
                n <= j <= pending@.len(),
                rest@ == pending@.subrange(n as int, j as int),
            decreases pending@.len() - j,
        {
            rest.push(pending[j]);
            assert(pending@.subrange(n as int, j + 1) =~= pending@.subrange(n as int, j as int).push(
                pending@[j as int],
            ));
            j = j + 1;
        }
        *pending = rest;
        Ok(self.done())
    }

    /// Reads a request from a sequence of chunks, as a reader hands them
    /// over, stopping at the first chunk that completes it. Bytes after the
    /// end of the request are left alone. Fails with `TruncatedMessage` where
    /// the chunks end before the request does.
    pub fn from_chunks(chunks: &Vec<Vec<u8>>) -> (r: Result<Request, ParseError>)
        ensures
            match feed_chunks(initial_view(), Seq::empty(), chunks_view(chunks@)) {
                Err(e) => r is Err && r->Err_0 == e,
                Ok((t, _)) => if t.state == ParseState::Done {
                    r matches Ok(req) && req.wf() && req@ == t
                } else {
                    r is Err && r->Err_0 == ParseError::TruncatedMessage
                },
            },
    {
        let ghost all = chunks_view(chunks@);
        let mut request = Request::new();
        let mut pending: Vec<u8> = Vec::new();
        let mut i: usize = 0;
        assert(all.subrange(0, all.len() as int) =~= all);
        while i < chunks.len()
            invariant
                i <= chunks@.len(),
                all == chunks_view(chunks@),
                request.wf(),
                feed_chunks(initial_view(), Seq::empty(), all) == feed_chunks(
                    request@,
                    pending@,
                    all.subrange(i as int, all.len() as int),
                ),
            decreases chunks@.len() - i,
        {
            if request.done() {
                proof {
                    lemma_feed_done(request@, pending@, all.subrange(i as int, all.len() as int));
                }
                return Ok(request);
            }
            let ghost rest = all.subrange(i as int, all.len() as int);
            assert(rest[0] == chunks@[i as int]@);
            assert(rest.drop_first() =~= all.subrange(i + 1, all.len() as int));
            match request.feed(&mut pending, chunks[i].as_slice()) {
                Ok(_) => {},
                Err(e) => return Err(e),
            }
            i = i + 1;
        }
        assert(all.subrange(i as int, all.len() as int) =~= Seq::<Seq<u8>>::empty());
        if request.done() {
            Ok(request)
        } else {
            Err(ParseError::TruncatedMessage)
        }
    }
}

} // verus!
