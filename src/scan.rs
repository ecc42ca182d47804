//! Searching byte buffers: the end of a line and the first occurrence of a
//! separator byte.

use vstd::prelude::*;

verus! {

pub open spec fn crlf_at(b: Seq<u8>, i: int) -> bool {
    0 <= i && i + 1 < b.len() && b[i] == 13u8 && b[i + 1] == 10u8
}

/// `i` is where the first `\r\n` of `b` starts.
pub open spec fn is_line_end(b: Seq<u8>, i: int) -> bool {
    crlf_at(b, i) && forall|j: int| 0 <= j < i ==> !#[trigger] crlf_at(b, j)
}

/// `b` holds a complete line.
pub open spec fn has_line(b: Seq<u8>) -> bool {
    exists|i: int| is_line_end(b, i)
}

/// Length of the first line of `b`, without its `\r\n` (meaningful when
/// `has_line(b)`).
pub open spec fn line_end(b: Seq<u8>) -> int {
    choose|i: int| is_line_end(b, i)
}

/// `i` is the index of the first `x` in `s`.
pub open spec fn is_first_index(s: Seq<u8>, x: u8, i: int) -> bool {
    0 <= i < s.len() && s[i] == x && forall|j: int| 0 <= j < i ==> #[trigger] s[j] != x
}

pub open spec fn has_byte(s: Seq<u8>, x: u8) -> bool {
    exists|i: int| is_first_index(s, x, i)
}

/// Index of the first `x` in `s` (meaningful when `has_byte(s, x)`).
pub open spec fn first_index(s: Seq<u8>, x: u8) -> int {
    choose|i: int| is_first_index(s, x, i)
}

pub proof fn lemma_line_end_unique(b: Seq<u8>, i: int, j: int)
    requires
        is_line_end(b, i),
        is_line_end(b, j),
    ensures
        i == j,
{
    if i < j {
        assert(!crlf_at(b, i));
    } else if j < i {
        assert(!crlf_at(b, j));
    }
}

/// Once found, the line end is `line_end`.
pub proof fn lemma_line_end_is(b: Seq<u8>, i: int)
    requires
        is_line_end(b, i),
    ensures
        has_line(b),
        line_end(b) == i,
{
    lemma_line_end_unique(b, i, line_end(b));
}

/// More bytes after a complete line leave that line where it was.
pub proof fn lemma_line_end_extend(a: Seq<u8>, c: Seq<u8>)
    requires
        has_line(a),
    ensures
        has_line(a + c),
        line_end(a + c) == line_end(a),
        (a + c).subrange(0, line_end(a)) == a.subrange(0, line_end(a)),
{
    let i = line_end(a);
    let ac = a + c;
    assert(crlf_at(ac, i));
    assert forall|j: int| 0 <= j < i implies !#[trigger] crlf_at(ac, j) by {
        assert(!crlf_at(a, j));
    }
    lemma_line_end_is(ac, i);
    assert(ac.subrange(0, i) =~= a.subrange(0, i));
}

pub proof fn lemma_first_index_is(s: Seq<u8>, x: u8, i: int)
    requires
        is_first_index(s, x, i),
    ensures
        has_byte(s, x),
        first_index(s, x) == i,
{
    let k = first_index(s, x);
    if k < i {
        assert(s[k] != x);
    } else if i < k {
        assert(s[i] != x);
    }
}

/// The start of the first `\r\n` in `b`, if there is one.
pub fn find_line_end(b: &[u8]) -> (r: Option<usize>)
    ensures
        match r {
            Some(i) => is_line_end(b@, i as int) && has_line(b@) && line_end(b@) == i as int,
            None => !has_line(b@),
        },
{
    let n = b.len();
    if n < 2 {
        assert(forall|i: int| !#[trigger] crlf_at(b@, i));
        return None;
    }
    let mut i: usize = 0;
    while i + 1 < n
        invariant
            n == b@.len(),
            n >= 2,
            i + 1 <= n,
            forall|j: int| 0 <= j < i ==> !#[trigger] crlf_at(b@, j),
        decreases n - i,
    {
        if b[i] == 13u8 && b[i + 1] == 10u8 {
            proof {
                lemma_line_end_is(b@, i as int);
            }
            return Some(i);
        }
        i = i + 1;
    }
    assert forall|k: int| !is_line_end(b@, k) by {
        if is_line_end(b@, k) {
            assert(crlf_at(b@, k));
        }
    }
    None
}

/// The index of the first `x` in `s`, if there is one.
pub fn find_byte(s: &[u8], x: u8) -> (r: Option<usize>)
    ensures
        match r {
            Some(i) => is_first_index(s@, x, i as int) && has_byte(s@, x) && first_index(s@, x)
                == i as int,
            None => !has_byte(s@, x) && forall|j: int| 0 <= j < s@.len() ==> s@[j] != x,
        },
{
    let mut i: usize = 0;
    while i < s.len()
        invariant
            i <= s@.len(),
            forall|j: int| 0 <= j < i ==> #[trigger] s@[j] != x,
        decreases s@.len() - i,
    {
        if s[i] == x {
            proof {
                lemma_first_index_is(s@, x, i as int);
            }
            return Some(i);
        }
        i = i + 1;
    }
    None
}

} // verus!
