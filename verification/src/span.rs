//! The NUL-delimited span of a buffer that holds a given offset.

use vstd::prelude::*;

verus! {

/// The message for a buffer without a NUL byte before the offset.
pub const BEGINNING_NOT_FOUND: &'static str =
    "Failed to find the beginning of the string that contains the pattern";

/// The message for a buffer without a NUL byte at or after the offset.
pub const END_NOT_FOUND: &'static str =
    "Failed to find the end of the string that contains the pattern";

/// A NUL byte stands in `buffer` before `offset`.
pub open spec fn nul_before(buffer: Seq<u8>, offset: int) -> bool {
    exists|k: int| 0 <= k < buffer.len() && k < offset && buffer[k] == 0
}

/// A NUL byte stands in `buffer` at `offset` or after it.
pub open spec fn nul_from(buffer: Seq<u8>, offset: int) -> bool {
    exists|k: int| 0 <= k < buffer.len() && offset <= k && buffer[k] == 0
}

/// `[begin, end)` is the span of `buffer` around `offset`: it reaches from
/// just after the nearest NUL byte before `offset` to the nearest NUL byte at
/// or after `offset`, and so holds no NUL byte itself.
pub open spec fn is_span(buffer: Seq<u8>, offset: int, begin: int, end: int) -> bool {
    &&& 0 < begin <= offset <= end < buffer.len()
    &&& buffer[begin - 1] == 0
    &&& buffer[end] == 0
    &&& forall|k: int| begin <= k < end ==> buffer[k] != 0
}

/// The span of `buffer` around `offset`, where there is one.
pub open spec fn span_of(buffer: Seq<u8>, offset: int) -> (int, int) {
    choose|span: (int, int)| is_span(buffer, offset, span.0, span.1)
}

/// A buffer has at most one span around an offset.
pub proof fn lemma_span_unique(buffer: Seq<u8>, offset: int, begin: int, end: int)
    requires
        is_span(buffer, offset, begin, end),
    ensures
        span_of(buffer, offset) == (begin, end),
{
    let other = span_of(buffer, offset);
    assert(is_span(buffer, offset, (begin, end).0, (begin, end).1));
    assert(is_span(buffer, offset, other.0, other.1));
    if other.0 < begin {
        assert(buffer[begin - 1] != 0);
    }
    if begin < other.0 {
        assert(buffer[other.0 - 1] != 0);
    }
    if other.1 < end {
        assert(buffer[other.1] != 0);
    }
    if end < other.1 {
        assert(buffer[end] != 0);
    }
}

/// A span around `offset` has a NUL byte before `offset` and one at or after
/// it.
pub proof fn lemma_span_has_bounds(buffer: Seq<u8>, offset: int, begin: int, end: int)
    requires
        is_span(buffer, offset, begin, end),
    ensures
        nul_before(buffer, offset),
        nul_from(buffer, offset),
{
    assert(buffer[begin - 1] == 0);
    assert(buffer[end] == 0);
}

/// Looks backward from `offset` for the nearest NUL byte, and returns the
/// position just after it.
pub fn span_begin(buffer: &[u8], offset: usize) -> (begin: Option<usize>)
    requires
        offset <= buffer@.len(),
    ensures
        match begin {
            Some(begin) => {
                &&& 0 < begin <= offset
                &&& buffer@[begin - 1] == 0
                &&& forall|k: int| begin <= k < offset ==> buffer@[k] != 0
            },
            None => !nul_before(buffer@, offset as int),
        },
{
    let mut begin: usize = offset;
    while begin > 0
        invariant
            begin <= offset <= buffer@.len(),
            forall|k: int| begin <= k < offset ==> buffer@[k] != 0,
        decreases begin,
    {
        if buffer[begin - 1] == 0 {
            return Some(begin);
        }
        begin -= 1;
    }
    None
}

/// Looks forward from `offset` for the nearest NUL byte, and returns its
/// position.
pub fn span_end(buffer: &[u8], offset: usize) -> (end: Option<usize>)
    ensures
        match end {
            Some(end) => {
                &&& offset <= end < buffer@.len()
                &&& buffer@[end as int] == 0
                &&& forall|k: int| offset <= k < end ==> buffer@[k] != 0
            },
            None => !nul_from(buffer@, offset as int),
        },
{
    let len = buffer.len();
    let mut end: usize = offset;
    while end < len
        invariant
            len == buffer@.len(),
            offset <= end,
            forall|k: int| offset <= k < end ==> buffer@[k] != 0,
        decreases len - end,
    {
        if buffer[end] == 0 {
            return Some(end);
        }
        end += 1;
    }
    None
}

/// Finds the span of `buffer` around `offset`.
///
/// The beginning is looked for first: where no NUL byte stands before
/// `offset` the search fails with `BEGINNING_NOT_FOUND`, whatever follows.
/// Where one does and none stands at or after `offset`, it fails with
/// `END_NOT_FOUND`.
pub fn find_span(buffer: &[u8], offset: usize) -> (r: Result<(usize, usize), &'static str>)
    requires
        offset <= buffer@.len(),
    ensures
        !nul_before(buffer@, offset as int) ==> r == Err::<(usize, usize), &'static str>(
            BEGINNING_NOT_FOUND,
        ),
        nul_before(buffer@, offset as int) && !nul_from(buffer@, offset as int) ==> r == Err::<
            (usize, usize),
            &'static str,
        >(END_NOT_FOUND),
        nul_before(buffer@, offset as int) && nul_from(buffer@, offset as int) ==> (r matches Ok(
            span,
        ) && is_span(buffer@, offset as int, span.0 as int, span.1 as int)),
{
    let begin = match span_begin(buffer, offset) {
        Some(begin) => begin,
        None => {
            return Err(BEGINNING_NOT_FOUND);
        },
    };
    assert(buffer@[begin - 1] == 0);
    let end = match span_end(buffer, offset) {
        Some(end) => end,
        None => {
            return Err(END_NOT_FOUND);
        },
    };
    assert(buffer@[end as int] == 0);
    Ok((begin, end))
}

} // verus!
