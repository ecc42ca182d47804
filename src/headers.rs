//! The header collection: names are matched without regard to case,
//! and a repeated name gathers its values, joined by `", "`.

use vstd::prelude::*;
use vstd::slice::slice_subrange;
use vstd::utf8::{decode_utf8, valid_utf8};

use crate::error::ParseError;
use crate::scan::{
    find_byte, find_line_end, first_index, has_byte, has_line, is_line_end, line_end,
};
use crate::table::{
    find_key, keys_unique, lemma_table_push, lemma_table_update, lemma_table_value, table_map,
};
use crate::text::{
    decimal_usize, lower_of, parse_usize, to_lower, trim, trim_chars,
    trim_start, trim_start_chars, utf8_text,
};

verus! {

pub const COLON: u8 = 58;

/// The characters that a header name may hold (the `tchar` class).
pub open spec fn is_tchar(c: char) -> bool {
    ||| 'a' <= c <= 'z'
    ||| 'A' <= c <= 'Z'
    ||| '0' <= c <= '9'
    ||| c == '!' ||| c == '#' ||| c == '$' ||| c == '%' ||| c == '&' ||| c == '\''
    ||| c == '*' ||| c == '+' ||| c == '-' ||| c == '.' ||| c == '^' ||| c == '_'
    ||| c == '`' ||| c == '|' ||| c == '~'
}

/// A valid header name: not empty, and token characters only (so no
/// space at either end).
pub open spec fn valid_key(s: Seq<char>) -> bool {
    s.len() > 0 && forall|i: int| 0 <= i < s.len() ==> is_tchar(#[trigger] s[i])
}

/// The collection after setting `k` to `v`: the name is folded to lower
/// case, and a value already there gets `", "` and `v` appended.
pub open spec fn header_set(m: Map<Seq<char>, Seq<char>>, k: Seq<char>, v: Seq<char>) -> Map<
    Seq<char>,
    Seq<char>,
> {
    let fk = lower_of(k);
    if m.contains_key(fk) {
        m.insert(fk, m[fk] + seq![',', ' '] + v)
    } else {
        m.insert(fk, v)
    }
}

/// The value under `k`, found without regard to case and trimmed of
/// white space.
pub open spec fn header_get(m: Map<Seq<char>, Seq<char>>, k: Seq<char>) -> Option<Seq<char>> {
    if m.contains_key(lower_of(k)) {
        Some(trim_chars(m[lower_of(k)]))
    } else {
        None
    }
}

/// Names with the same lower-case form are the same entry: setting and
/// getting through either has the same effect.
pub proof fn lemma_names_fold(m: Map<Seq<char>, Seq<char>>, k1: Seq<char>, k2: Seq<char>, v: Seq<char>)
    requires
        lower_of(k1) == lower_of(k2),
    ensures
        header_set(m, k1, v) == header_set(m, k2, v),
        header_get(m, k1) == header_get(m, k2),
{
}

/// Setting a new name to `a` and then (in any case form) to `b` leaves
/// `a, b` under it.
pub proof fn lemma_set_twice_joins(
    m: Map<Seq<char>, Seq<char>>,
    k1: Seq<char>,
    k2: Seq<char>,
    a: Seq<char>,
    b: Seq<char>,
)
    requires
        !m.contains_key(lower_of(k1)),
        lower_of(k1) == lower_of(k2),
    ensures
        header_set(header_set(m, k1, a), k2, b)[lower_of(k1)] == a + seq![',', ' '] + b,
        header_set(header_set(m, k1, a), k2, b).dom() == m.dom().insert(lower_of(k1)),
{
    assert(header_set(header_set(m, k1, a), k2, b).dom() =~= m.dom().insert(lower_of(k1)));
}

/// The meaning of one header line (without its `\r\n`): name and value
/// split at the first `:`, the value without its leading white space.
pub open spec fn header_line_spec(line: Seq<u8>) -> Result<(Seq<char>, Seq<char>), ParseError> {
    if !has_byte(line, COLON) {
        Err(ParseError::MalformedHeaderLine)
    } else {
        let i = first_index(line, COLON);
        let k = line.subrange(0, i);
        let v = line.subrange(i + 1, line.len() as int);
        if !valid_utf8(k) || !valid_key(decode_utf8(k)) {
            Err(ParseError::InvalidHeaderKey)
        } else if !valid_utf8(v) {
            Err(ParseError::MalformedHeaderLine)
        } else {
            Ok((decode_utf8(k), trim_start_chars(decode_utf8(v))))
        }
    }
}

/// Reading header lines from the front of `b` into `m`: stops at the first
/// incomplete line (not done), at the empty line that ends the section
/// (done, its `\r\n` taken), or at the first bad line. Gives the
/// collection, whether the section ended, and the bytes taken.
pub open spec fn header_section(m: Map<Seq<char>, Seq<char>>, b: Seq<u8>) -> Result<
    (Map<Seq<char>, Seq<char>>, bool, nat),
    ParseError,
>
    decreases b.len(),
{
    if !has_line(b) {
        Ok((m, false, 0))
    } else {
        let i = line_end(b);
        if i == 0 {
            Ok((m, true, 2))
        } else {
            match header_line_spec(b.subrange(0, i)) {
                Err(e) => Err(e),
                Ok((k, v)) => match header_section(
                    header_set(m, k, v),
                    b.subrange(i + 2, b.len() as int),
                ) {
                    Ok((m2, d, n)) => Ok((m2, d, (n + i + 2) as nat)),
                    Err(e) => Err(e),
                },
            }
        }
    }
}

/// The header section never takes more bytes than there are, and where it
/// stops short of the end of the section no complete line is left.
pub proof fn lemma_header_section_len(m: Map<Seq<char>, Seq<char>>, b: Seq<u8>)
    ensures
        header_section(m, b) matches Ok((_, d, n)) ==> n <= b.len() && (!d ==> !has_line(
            b.subrange(n as int, b.len() as int),
        )),
    decreases b.len(),
{
    if has_line(b) {
        let i = line_end(b);
        assert(is_line_end(b, i));
        if i != 0 {
            if let Ok((k, v)) = header_line_spec(b.subrange(0, i)) {
                let b1 = b.subrange(i + 2, b.len() as int);
                lemma_header_section_len(header_set(m, k, v), b1);
                if let Ok((_, _, n1)) = header_section(header_set(m, k, v), b1) {
                    assert(b1.subrange(n1 as int, b1.len() as int) =~= b.subrange(
                        (n1 + i + 2) as int,
                        b.len() as int,
                    ));
                }
            }
        }
    } else {
        assert(b.subrange(0, b.len() as int) =~= b);
    }
}

/// The text of the regular expression for header names.
pub const TOKEN_PATTERN: &'static str = "^[a-zA-Z0-9!#$%&'*+.^_`|~-]+$";

/// Relies on `regex::Regex::new` and `regex::Regex::is_match`: the token
/// pattern compiles, and matches exactly the non-empty texts made of
/// `tchar` characters.
#[verifier::external_body]
fn regex_is_match(pattern: &str, text: &str) -> (r: bool)
    requires
        pattern@ == TOKEN_PATTERN@,
    ensures
        r == valid_key(text@),
{
    match regex::Regex::new(pattern) {
        Ok(re) => re.is_match(text),
        Err(_) => false,
    }
}

/// Whether `key` may stand as a header name.
pub fn is_valid_key(key: &str) -> (r: bool)
    ensures
        r == valid_key(key@),
{
    !key.is_empty() && regex_is_match(TOKEN_PATTERN, key)
}

/// The request and response headers.
#[derive(Debug)]
pub struct Headers {
    data: Vec<(String, String)>,
}

impl View for Headers {
    type V = Map<Seq<char>, Seq<char>>;

    closed spec fn view(&self) -> Map<Seq<char>, Seq<char>> {
        table_map(self.data@)
    }
}

impl Headers {
    /// Each name is held once, in lower-case form.
    pub closed spec fn wf(&self) -> bool {
        &&& keys_unique(self.data@)
        &&& forall|k: Seq<char>| #[trigger]
            table_map(self.data@).contains_key(k) ==> exists|k0: Seq<char>| lower_of(k0) == k
    }

    /// The entries in the order their names were first set.
    pub closed spec fn entries(&self) -> Seq<(String, String)> {
        self.data@
    }

    pub fn new() -> (r: Headers)
        ensures
            r.wf(),
            r@ == Map::<Seq<char>, Seq<char>>::empty(),
    {
        let r = Headers { data: Vec::new() };
        assert(r@ =~= Map::<Seq<char>, Seq<char>>::empty());
        r
    }

    /// The entries, names in lower case, in the order they were first set.
    pub fn iter(&self) -> (r: &[(String, String)])
        requires
            self.wf(),
        ensures
            r@ == self.entries(),
            keys_unique(r@),
            table_map(r@) == self@,
    {
        self.data.as_slice()
    }

    /// The value under `key` (any case), trimmed of white space.
    pub fn get(&self, key: &str) -> (r: Option<String>)
        requires
            self.wf(),
        ensures
            match r {
                Some(v) => header_get(self@, key@) == Some(v@),
                None => header_get(self@, key@) is None,
            },
    {
        let k = to_lower(key);
        match find_key(&self.data, &k) {
            Some(i) => {
                proof {
                    lemma_table_value(self.data@, k@, i as int);
                }
                Some(trim(self.data[i].1.as_str()).to_owned())
            },
            None => None,
        }
    }

    /// The value under `key` read as a decimal number, as `usize::from_str`
    /// reads it after trimming.
    pub fn get_usize(&self, key: &str) -> (r: Option<usize>)
        requires
            self.wf(),
        ensures
            r == match header_get(self@, key@) {
                Some(v) => decimal_usize(v),
                None => None,
            },
    {
        let k = to_lower(key);
        match find_key(&self.data, &k) {
            Some(i) => {
                proof {
                    lemma_table_value(self.data@, k@, i as int);
                }
                parse_usize(trim(self.data[i].1.as_str()))
            },
            None => None,
        }
    }

    /// Sets `key` to `value`; a value already held under the name (any ASCII
    /// case) is kept, followed by `", "` and `value`.
    pub fn set(&mut self, key: &str, value: &str)
        requires
            old(self).wf(),
        ensures
            final(self).wf(),
            final(self)@ == header_set(old(self)@, key@, value@),
    {
        let k = to_lower(key);
        let ghost old_data = self.data@;
        match find_key(&self.data, &k) {
            Some(i) => {
                proof {
                    lemma_table_value(self.data@, k@, i as int);
                }
                let mut v = self.data[i].1.clone();
                let sep = ", ";
                proof {
                    reveal_strlit(", ");
                    assert(sep@ =~= seq![',', ' ']);
                }
                v.append(sep);
                v.append(value);
                proof {
                    lemma_table_update(self.data@, i as int, k, v);
                }
                self.data.set(i, (k, v));
            },
            None => {
                let v = value.to_owned();
                proof {
                    lemma_table_push(self.data@, k, v);
                }
                self.data.push((k, v));
            },
        }
        assert forall|q: Seq<char>| #[trigger]
            table_map(self.data@).contains_key(q) implies exists|k0: Seq<char>| lower_of(k0) == q by {
            if q != k@ {
                assert(table_map(old_data).contains_key(q));
            } else {
                assert(lower_of(key@) == q);
            }
        }
    }

    /// Sets `key` to `value`, dropping any value held under the name (any
    /// case).
    pub fn replace(&mut self, key: &str, value: &str)
        requires
            old(self).wf(),
        ensures
            final(self).wf(),
            final(self)@ == old(self)@.insert(lower_of(key@), value@),
    {
        let k = to_lower(key);
        let v = value.to_owned();
        let ghost old_data = self.data@;
        match find_key(&self.data, &k) {
            Some(i) => {
                proof {
                    lemma_table_update(self.data@, i as int, k, v);
                }
                self.data.set(i, (k, v));
            },
            None => {
                proof {
                    lemma_table_push(self.data@, k, v);
                }
                self.data.push((k, v));
            },
        }
        assert forall|q: Seq<char>| #[trigger]
            table_map(self.data@).contains_key(q) implies exists|k0: Seq<char>| lower_of(k0) == q by {
            if q != k@ {
                assert(table_map(old_data).contains_key(q));
            } else {
                assert(lower_of(key@) == q);
            }
        }
    }

    /// Whether a value is held under `key` (any case).
    pub fn contains(&self, key: &str) -> (r: bool)
        requires
            self.wf(),
        ensures
            r == self@.contains_key(lower_of(key@)),
    {
        let k = to_lower(key);
        find_key(&self.data, &k).is_some()
    }

    /// Reads header lines from the front of `data`, resuming where an
    /// earlier call stopped: gives whether the empty line that ends the
    /// section was reached, and the bytes taken.
    pub fn parse(&mut self, data: &[u8]) -> (r: Result<(bool, usize), ParseError>)
        requires
            old(self).wf(),
        ensures
            final(self).wf(),
            match header_section(old(self)@, data@) {
                Ok((m, d, n)) => r == Ok::<(bool, usize), ParseError>((d, n as usize))
                    && final(self)@ == m,
                Err(e) => r == Err::<(bool, usize), ParseError>(e),
            },
    {
        let n = data.len();
        let mut read: usize = 0;
        assert(data@.subrange(0, n as int) =~= data@);
        loop
            invariant
                self.wf(),
                read <= n,
                n == data@.len(),
                header_section(old(self)@, data@) == match header_section(
                    self@,
                    data@.subrange(read as int, n as int),
                ) {
                    Ok((m, d, k)) => Ok((m, d, (k + read) as nat)),
                    Err(e) => Err(e),
                },
            decreases n - read,
        {
            let rest = slice_subrange(data, read, n);
            let end = match find_line_end(rest) {
                None => return Ok((false, read)),
                Some(end) => end,
            };
            if end == 0 {
                return Ok((true, read + 2));
            }
            let line = slice_subrange(rest, 0, end);
            let (key, value) = match parse_header_line(line) {
                Ok(kv) => kv,
                Err(e) => return Err(e),
            };
            self.set(key.as_str(), value.as_str());
            proof {
                assert(rest@.subrange(end + 2, rest@.len() as int) =~= data@.subrange(
                    read + end + 2,
                    n as int,
                ));
            }
            read = read + end + 2;
        }
    }
}

/// Splits one header line into its name and value.
fn parse_header_line(line: &[u8]) -> (r: Result<(String, String), ParseError>)
    ensures
        match r {
            Ok((k, v)) => header_line_spec(line@) == Ok::<(Seq<char>, Seq<char>), ParseError>(
                (k@, v@),
            ),
            Err(e) => header_line_spec(line@) == Err::<(Seq<char>, Seq<char>), ParseError>(e),
        },
{
    let n = line.len();
    let i = match find_byte(line, COLON) {
        None => return Err(ParseError::MalformedHeaderLine),
        Some(i) => i,
    };
    let key = match utf8_text(slice_subrange(line, 0, i)) {
        None => return Err(ParseError::InvalidHeaderKey),
        Some(k) => k,
    };
    if !is_valid_key(key) {
        return Err(ParseError::InvalidHeaderKey);
    }
    let value = match utf8_text(slice_subrange(line, i + 1, n)) {
        None => return Err(ParseError::MalformedHeaderLine),
        Some(v) => v,
    };
    Ok((key.to_owned(), trim_start(value).to_owned()))
}

} // verus!
