//! The request line: `<METHOD> <target> <VERSION>\r\n`.

use vstd::prelude::*;
use vstd::slice::slice_subrange;
use vstd::utf8::{decode_utf8, valid_utf8};

use crate::error::ParseError;
use crate::method::{method_from, version_from, Method, Version};
use crate::scan::{find_byte, find_line_end, first_index, has_byte, has_line, line_end};
use crate::table::{keys_unique, table_map, table_put};
use crate::text::utf8_text;

verus! {

pub const SPACE: u8 = 32;

pub const QUESTION_MARK: u8 = 63;

pub const AMPERSAND: u8 = 38;

pub const EQUALS: u8 = 61;

/// One `key=value` segment of a query string: the key is what precedes the
/// first `=` (the whole segment if there is none), the value what follows
/// it. A segment with an empty key counts for nothing.
pub open spec fn param_pair(p: Seq<u8>) -> Seq<(Seq<u8>, Seq<u8>)> {
    let k = if has_byte(p, EQUALS) {
        p.subrange(0, first_index(p, EQUALS))
    } else {
        p
    };
    let v = if has_byte(p, EQUALS) {
        p.subrange(first_index(p, EQUALS) + 1, p.len() as int)
    } else {
        Seq::empty()
    };
    if k.len() == 0 {
        Seq::empty()
    } else {
        seq![(k, v)]
    }
}

/// The key/value pairs of a query string, in order, from its
/// `&`-separated segments.
pub open spec fn query_params(q: Seq<u8>) -> Seq<(Seq<u8>, Seq<u8>)>
    decreases q.len(),
{
    if has_byte(q, AMPERSAND) {
        let i = first_index(q, AMPERSAND);
        param_pair(q.subrange(0, i)) + query_params(q.subrange(i + 1, q.len() as int))
    } else {
        param_pair(q)
    }
}

/// Every key and value is UTF-8 text.
pub open spec fn params_utf8(ps: Seq<(Seq<u8>, Seq<u8>)>) -> bool {
    forall|i: int| 0 <= i < ps.len() ==> valid_utf8(#[trigger] ps[i].0) && valid_utf8(ps[i].1)
}

/// The pairs as a map: a later pair under the same key wins.
pub open spec fn params_map(ps: Seq<(Seq<u8>, Seq<u8>)>) -> Map<Seq<char>, Seq<char>>
    decreases ps.len(),
{
    if ps.len() == 0 {
        Map::empty()
    } else {
        params_map(ps.drop_last()).insert(decode_utf8(ps.last().0), decode_utf8(ps.last().1))
    }
}

/// The request target split at its first `?` into path and query string.
pub open spec fn split_target(t: Seq<u8>) -> (Seq<u8>, Seq<u8>) {
    if has_byte(t, QUESTION_MARK) {
        let i = first_index(t, QUESTION_MARK);
        (t.subrange(0, i), t.subrange(i + 1, t.len() as int))
    } else {
        (t, Seq::empty())
    }
}

/// What a parsed request line holds.
pub struct RequestLineView {
    pub method: Method,
    pub path: Seq<char>,
    pub query: Map<Seq<char>, Seq<char>>,
    pub version: Version,
}

/// The meaning of one request line (without its `\r\n`): three fields
/// separated by single spaces, checked in order: method, target (UTF-8
/// text as a whole and in each piece kept), version.
pub open spec fn request_line_spec(line: Seq<u8>) -> Result<RequestLineView, ParseError> {
    if !has_byte(line, SPACE) {
        Err(ParseError::MalformedRequestLine)
    } else {
        let i = first_index(line, SPACE);
        let rest = line.subrange(i + 1, line.len() as int);
        if !has_byte(rest, SPACE) {
            Err(ParseError::MalformedRequestLine)
        } else {
            let j = first_index(rest, SPACE);
            let target = rest.subrange(0, j);
            let version = rest.subrange(j + 1, rest.len() as int);
            if has_byte(version, SPACE) {
                Err(ParseError::MalformedRequestLine)
            } else {
                match method_from(line.subrange(0, i)) {
                    None => Err(ParseError::UnsupportedMethod),
                    Some(m) => {
                        let (path, q) = split_target(target);
                        let ps = query_params(q);
                        if !valid_utf8(target) || !valid_utf8(path) || !params_utf8(ps) {
                            Err(ParseError::MalformedRequestLine)
                        } else {
                            match version_from(version) {
                                None => Err(ParseError::UnsupportedVersion),
                                Some(v) => Ok(
                                    RequestLineView {
                                        method: m,
                                        path: decode_utf8(path),
                                        query: params_map(ps),
                                        version: v,
                                    },
                                ),
                            }
                        }
                    },
                }
            }
        }
    }
}

/// What parsing the front of a buffer as a request line gives: nothing
/// until a whole line is there, then the line's meaning and the bytes it
/// takes, `\r\n` included.
pub open spec fn request_line_prefix(b: Seq<u8>) -> Result<Option<(RequestLineView, nat)>, ParseError> {
    if !has_line(b) {
        Ok(None)
    } else {
        match request_line_spec(b.subrange(0, line_end(b))) {
            Err(e) => Err(e),
            Ok(rl) => Ok(Some((rl, (line_end(b) + 2) as nat))),
        }
    }
}

/// A parsed request line.
pub struct RequestLine {
    method: Method,
    path: String,
    query: Vec<(String, String)>,
    version: Version,
}

impl View for RequestLine {
    type V = RequestLineView;

    closed spec fn view(&self) -> RequestLineView {
        RequestLineView {
            method: self.method,
            path: self.path@,
            query: table_map(self.query@),
            version: self.version,
        }
    }
}

impl RequestLine {
    /// The query pairs are held under distinct keys.
    pub closed spec fn wf(&self) -> bool {
        keys_unique(self.query@)
    }

    pub closed spec fn query_entries(&self) -> Seq<(String, String)> {
        self.query@
    }

    /// Parses the request line at the front of `data`. Gives `Ok(None)`
    /// while no `\r\n` has arrived, and otherwise the line with the number
    /// of bytes it took.
    pub fn parse(data: &[u8]) -> (r: Result<Option<(RequestLine, usize)>, ParseError>)
        ensures
            match r {
                Ok(Some((rl, n))) => rl.wf() && request_line_prefix(data@) == Ok::<
                    Option<(RequestLineView, nat)>,
                    ParseError,
                >(Some((rl@, n as nat))),
                Ok(None) => request_line_prefix(data@) == Ok::<
                    Option<(RequestLineView, nat)>,
                    ParseError,
                >(None),
                Err(e) => request_line_prefix(data@) == Err::<
                    Option<(RequestLineView, nat)>,
                    ParseError,
                >(e),
            },
    {
        let data_len = data.len();
        let end = match find_line_end(data) {
            None => return Ok(None),
            Some(end) => end,
        };
        let line = slice_subrange(data, 0, end);
        let i = match find_byte(line, SPACE) {
            None => return Err(ParseError::MalformedRequestLine),
            Some(i) => i,
        };
        let rest = slice_subrange(line, i + 1, line.len());
        let j = match find_byte(rest, SPACE) {
            None => return Err(ParseError::MalformedRequestLine),
            Some(j) => j,
        };
        let target = slice_subrange(rest, 0, j);
        let version_bytes = slice_subrange(rest, j + 1, rest.len());
        if find_byte(version_bytes, SPACE).is_some() {
            return Err(ParseError::MalformedRequestLine);
        }
        let method = match Method::from_bytes(slice_subrange(line, 0, i)) {
            None => return Err(ParseError::UnsupportedMethod),
            Some(m) => m,
        };
        if utf8_text(target).is_none() {
            return Err(ParseError::MalformedRequestLine);
        }
        let (path_bytes, query_bytes) = match find_byte(target, QUESTION_MARK) {
            Some(k) => (slice_subrange(target, 0, k), slice_subrange(target, k + 1, target.len())),
            None => (target, slice_subrange(target, target.len(), target.len())),
        };
        assert(query_bytes@ == split_target(target@).1);
        let path = match utf8_text(path_bytes) {
            None => return Err(ParseError::MalformedRequestLine),
            Some(p) => p.to_owned(),
        };
        let query = match parse_query(query_bytes) {
            None => return Err(ParseError::MalformedRequestLine),
            Some(q) => q,
        };
        let version = match Version::from_bytes(version_bytes) {
            None => return Err(ParseError::UnsupportedVersion),
            Some(v) => v,
        };
        let rl = RequestLine { method, path, query, version };
        Ok(Some((rl, end + 2)))
    }

    pub fn get_method(&self) -> (r: &str)
        ensures
            r@ == crate::method::method_name(self@.method),
    {
        self.method.as_str()
    }

    pub fn get_path(&self) -> (r: &str)
        ensures
            r@ == self@.path,
    {
        self.path.as_str()
    }

    pub fn get_version(&self) -> (r: &str)
        ensures
            r@ == crate::method::version_name(self@.version),
    {
        self.version.as_str()
    }

    pub fn method(&self) -> (r: Method)
        ensures
            r == self@.method,
    {
        self.method
    }

    pub fn version(&self) -> (r: Version)
        ensures
            r == self@.version,
    {
        self.version
    }

    /// Hands over the path and the query pairs.
    pub fn into_parts(self) -> (r: (String, Vec<(String, String)>))
        requires
            self.wf(),
        ensures
            r.0@ == self@.path,
            keys_unique(r.1@),
            table_map(r.1@) == self@.query,
    {
        (self.path, self.query)
    }
}

/// Reads one segment of a query string into the table.
fn put_param(p: &[u8], e: &mut Vec<(String, String)>) -> (ok: bool)
    requires
        keys_unique(old(e)@),
    ensures
        keys_unique(final(e)@),
        ok == params_utf8(param_pair(p@)),
        ok ==> table_map(final(e)@) == params_map_onto(table_map(old(e)@), param_pair(p@)),
{
    let n = p.len();
    let (k, v) = match find_byte(p, EQUALS) {
        Some(i) => (slice_subrange(p, 0, i), slice_subrange(p, i + 1, n)),
        None => (p, slice_subrange(p, n, n)),
    };
    assert(v@ =~= (if has_byte(p@, EQUALS) {
        p@.subrange(first_index(p@, EQUALS) + 1, p@.len() as int)
    } else {
        Seq::empty()
    }));
    assert(k@ =~= (if has_byte(p@, EQUALS) {
        p@.subrange(0, first_index(p@, EQUALS))
    } else {
        p@
    }));
    let ghost pp = param_pair(p@);
    if k.len() == 0 {
        assert(pp =~= Seq::<(Seq<u8>, Seq<u8>)>::empty());
        return true;
    }
    assert(pp[0] == (k@, v@));
    assert(pp.drop_last() =~= Seq::<(Seq<u8>, Seq<u8>)>::empty());
    let key = match utf8_text(k) {
        None => {
            assert(!valid_utf8(pp[0].0));
            return false;
        },
        Some(s) => s.to_owned(),
    };
    let value = match utf8_text(v) {
        None => {
            assert(!valid_utf8(pp[0].1) && pp[0].0 == k@);
            return false;
        },
        Some(s) => s.to_owned(),
    };
    let ghost m0 = table_map(e@);
    table_put(e, key, value);
    assert(pp.last() == (k@, v@));
    assert(params_map_onto(m0, pp.drop_last()) == m0);
    true
}

/// `m` with the pairs inserted in order.
pub open spec fn params_map_onto(m: Map<Seq<char>, Seq<char>>, ps: Seq<(Seq<u8>, Seq<u8>)>) -> Map<
    Seq<char>,
    Seq<char>,
>
    decreases ps.len(),
{
    if ps.len() == 0 {
        m
    } else {
        params_map_onto(m, ps.drop_last()).insert(decode_utf8(ps.last().0), decode_utf8(ps.last().1))
    }
}

proof fn lemma_params_map_onto_concat(
    m: Map<Seq<char>, Seq<char>>,
    a: Seq<(Seq<u8>, Seq<u8>)>,
    b: Seq<(Seq<u8>, Seq<u8>)>,
)
    ensures
        params_map_onto(m, a + b) == params_map_onto(params_map_onto(m, a), b),
    decreases b.len(),
{
    if b.len() == 0 {
        assert(a + b =~= a);
    } else {
        assert((a + b).drop_last() =~= a + b.drop_last());
        lemma_params_map_onto_concat(m, a, b.drop_last());
    }
}

proof fn lemma_params_map_empty(ps: Seq<(Seq<u8>, Seq<u8>)>)
    ensures
        params_map_onto(Map::empty(), ps) == params_map(ps),
    decreases ps.len(),
{
    if ps.len() > 0 {
        lemma_params_map_empty(ps.drop_last());
    }
}

proof fn lemma_params_utf8_concat(a: Seq<(Seq<u8>, Seq<u8>)>, b: Seq<(Seq<u8>, Seq<u8>)>)
    ensures
        params_utf8(a + b) == (params_utf8(a) && params_utf8(b)),
{
    if params_utf8(a) && params_utf8(b) {
        assert forall|i: int| 0 <= i < (a + b).len() implies valid_utf8(#[trigger] (a + b)[i].0)
            && valid_utf8((a + b)[i].1) by {
            if i < a.len() {
                assert((a + b)[i] == a[i]);
            } else {
                assert((a + b)[i] == b[i - a.len()]);
            }
        }
    }
    if params_utf8(a + b) {
        assert forall|i: int| 0 <= i < a.len() implies valid_utf8(#[trigger] a[i].0) && valid_utf8(
            a[i].1,
        ) by {
            assert((a + b)[i] == a[i]);
        }
        assert forall|i: int| 0 <= i < b.len() implies valid_utf8(#[trigger] b[i].0) && valid_utf8(
            b[i].1,
        ) by {
            assert((a + b)[a.len() + i] == b[i]);
            assert(valid_utf8((a + b)[a.len() + i].0));
        }
    }
}

/// Reads a query string into a table, last value winning; `None` where a
/// key or value is not UTF-8.
fn parse_query(q: &[u8]) -> (r: Option<Vec<(String, String)>>)
    ensures
        match r {
            Some(e) => params_utf8(query_params(q@)) && keys_unique(e@) && table_map(e@)
                == params_map(query_params(q@)),
            None => !params_utf8(query_params(q@)),
        },
{
    let mut e: Vec<(String, String)> = Vec::new();
    let mut start: usize = 0;
    let ghost mut done: Seq<(Seq<u8>, Seq<u8>)> = Seq::empty();
    assert(q@.subrange(0, q@.len() as int) =~= q@);
    assert(done + query_params(q@) =~= query_params(q@));
    loop
        invariant
            start <= q@.len(),
            keys_unique(e@),
            params_utf8(done),
            table_map(e@) == params_map_onto(Map::empty(), done),
            query_params(q@) == done + query_params(q@.subrange(start as int, q@.len() as int)),
        decreases q@.len() - start,
    {
        let rest = slice_subrange(q, start, q.len());
        match find_byte(rest, AMPERSAND) {
            Some(i) => {
                let seg = slice_subrange(rest, 0, i);
                let ghost tail = q@.subrange(start + i + 1, q@.len() as int);
                assert(rest@.subrange(i + 1, rest@.len() as int) =~= tail);
                assert(query_params(rest@) == param_pair(seg@) + query_params(tail));
                let ghost before = e@;
                let ok = put_param(seg, &mut e);
                proof {
                    lemma_params_utf8_concat(done, param_pair(seg@) + query_params(tail));
                    lemma_params_utf8_concat(param_pair(seg@), query_params(tail));
                }
                if !ok {
                    return None;
                }
                proof {
                    lemma_params_map_onto_concat(Map::empty(), done, param_pair(seg@));
                    lemma_params_utf8_concat(done, param_pair(seg@));
                    assert(done + (param_pair(seg@) + query_params(tail)) =~= (done + param_pair(
                        seg@,
                    )) + query_params(tail));
                    done = done + param_pair(seg@);
                }
                start = start + i + 1;
            },
            None => {
                let ghost before = e@;
                let ok = put_param(rest, &mut e);
                proof {
                    assert(query_params(rest@) == param_pair(rest@));
                    lemma_params_utf8_concat(done, param_pair(rest@));
                }
                if !ok {
                    return None;
                }
                proof {
                    lemma_params_map_onto_concat(Map::empty(), done, param_pair(rest@));
                    lemma_params_map_empty(query_params(q@));
                }
                return Some(e);
            },
        }
    }
}

} // verus!
