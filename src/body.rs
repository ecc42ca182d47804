//! The body accumulator: copies bytes until the declared length is reached.

use vstd::prelude::*;

use crate::error::ParseError;

verus! {

/// How many of `avail` bytes a body that holds `have` of `length` bytes takes.
pub open spec fn body_take(have: nat, avail: nat, length: nat) -> nat {
    if have >= length {
        0
    } else if length - have <= avail {
        (length - have) as nat
    } else {
        avail
    }
}

/// Appends to `body` as many bytes from the front of `data` as it still
/// lacks of `content_length`, and no more. Gives whether the body is
/// complete and how many bytes it took.
pub fn parse(body: &mut Vec<u8>, data: &[u8], content_length: usize) -> (r: Result<
    (bool, usize),
    ParseError,
>)
    ensures
        ({
            let take = body_take(old(body)@.len(), data@.len(), content_length as nat);
            &&& final(body)@ == old(body)@ + data@.subrange(0, take as int)
            &&& r == Ok::<(bool, usize), ParseError>(
                (final(body)@.len() >= content_length, take as usize),
            )
        }),
{
    if body.len() >= content_length {
        assert(data@.subrange(0, 0) =~= Seq::<u8>::empty());
        assert(body@ + Seq::<u8>::empty() =~= body@);
        return Ok((true, 0));
    }
    let remaining = content_length - body.len();
    let read = if remaining <= data.len() {
        remaining
    } else {
        data.len()
    };
    let mut i: usize = 0;
    let ghost start = body@;
    while i < read
        invariant
            read <= data@.len(),
            i <= read,
            body@ == start + data@.subrange(0, i as int),
        decreases read - i,
    {
        body.push(data[i]);
        assert(data@.subrange(0, i + 1) =~= data@.subrange(0, i as int).push(data@[i as int]));
        i = i + 1;
    }
    let done = body.len() >= content_length;
    Ok((done, read))
}

} // verus!
