//! Sliding a compiled pattern over a buffer.
//!
//! The scan is the plain one: every start offset in increasing order, every
//! element of the pattern at each. Its cost grows with the product of the
//! two lengths; patterns are short, and nothing faster is attempted.
//!
//! The first match wins. A signature need not be unique in a buffer, so the
//! first hit may be another occurrence than the one meant: a caller that
//! must be sure asks `find_all_matches` and goes on only if it returns
//! exactly one offset.
//!
//! The empty pattern matches nowhere: not in the test of one offset, not in
//! the scan. Its window has length zero and would fit at every offset,
//! which says nothing about the buffer.

use vstd::prelude::*;

verus! {

/// Whether a pattern element accepts a byte: `Some(b)` accepts `b` alone,
/// `None` accepts every byte.
pub open spec fn accepts(element: Option<u8>, byte: u8) -> bool {
    match element {
        Some(exact) => exact == byte,
        None => true,
    }
}

/// Whether the window of `buffer` that starts at `offset` and is as long as
/// `pattern` lies inside the buffer and is accepted element by element.
pub open spec fn window_matches(buffer: Seq<u8>, offset: int, pattern: Seq<Option<u8>>) -> bool {
    &&& 0 <= offset
    &&& offset + pattern.len() <= buffer.len()
    &&& forall|k: int|
        0 <= k < pattern.len() ==> accepts(#[trigger] pattern[k], buffer[offset + k])
}

/// Whether the pattern matches at `offset`, in the sense of the scan: the
/// pattern has at least one element and its window at `offset` matches.
pub open spec fn matches_at(buffer: Seq<u8>, pattern: Seq<Option<u8>>, offset: int) -> bool {
    pattern.len() > 0 && window_matches(buffer, offset, pattern)
}

/// Whether `offset` is the lowest offset at which the pattern matches.
pub open spec fn is_first_match(buffer: Seq<u8>, pattern: Seq<Option<u8>>, offset: int) -> bool {
    &&& matches_at(buffer, pattern, offset)
    &&& forall|j: int| 0 <= j < offset ==> !matches_at(buffer, pattern, j)
}

/// Whether the pattern matches nowhere in the buffer.
pub open spec fn no_match(buffer: Seq<u8>, pattern: Seq<Option<u8>>) -> bool {
    forall|j: int| !matches_at(buffer, pattern, j)
}

/// The lowest offset at which the pattern matches, if there is one.
pub open spec fn first_match(buffer: Seq<u8>, pattern: Seq<Option<u8>>) -> Option<int> {
    if no_match(buffer, pattern) {
        None
    } else {
        Some(choose|offset: int| is_first_match(buffer, pattern, offset))
    }
}

/// Tests one offset: whether `pattern` has at least one element, fits into
/// `buffer` at `offset`, and each of its elements accepts the byte under it.
/// The empty pattern gives `false` at every offset, and so does an offset at
/// which the window does not fit.
pub fn matches_pattern(buffer: &[u8], offset: usize, pattern: &[Option<u8>]) -> (matched: bool)
    ensures
        matched == matches_at(buffer@, pattern@, offset as int),
{
    let m = pattern.len();
    if m == 0 || m > buffer.len() || offset > buffer.len() - m {
        return false;
    }
    let mut k: usize = 0;
    while k < m
        invariant
            m == pattern@.len(),
            offset + m <= buffer@.len() <= usize::MAX,
            k <= m,
            forall|t: int| 0 <= t < k ==> accepts(#[trigger] pattern@[t], buffer@[offset + t]),
        decreases m - k,
    {
        match pattern[k] {
            Some(exact) => {
                if buffer[offset + k] != exact {
                    return false;
                }
            },
            None => {},
        }
        k = k + 1;
    }
    true
}

/// Finds the lowest offset at which `pattern` matches in `buffer`.
///
/// Returns `None` when there is no such offset: the pattern is empty, it is
/// longer than the buffer, or no window is accepted.
pub fn find_first_match(buffer: &[u8], pattern: &[Option<u8>]) -> (found: Option<usize>)
    ensures
        match found {
            Some(offset) => first_match(buffer@, pattern@) == Some(offset as int)
                && is_first_match(buffer@, pattern@, offset as int),
            None => first_match(buffer@, pattern@) is None && no_match(buffer@, pattern@),
        },
{
    let m = pattern.len();
    if m == 0 || m > buffer.len() {
        return None;
    }
    let last = buffer.len() - m;
    let mut offset: usize = 0;
    while offset <= last
        invariant
            m == pattern@.len(),
            m > 0,
            last + m == buffer@.len() <= usize::MAX,
            offset <= last + 1,
            forall|j: int| 0 <= j < offset ==> !matches_at(buffer@, pattern@, j),
        decreases last + 1 - offset,
    {
        if matches_pattern(buffer, offset, pattern) {
            proof {
                first_match_is_the_lowest(buffer@, pattern@, offset as int);
            }
            return Some(offset);
        }
        offset = offset + 1;
    }
    None
}

/// Finds every offset at which `pattern` matches in `buffer`, in
/// increasing order. The list is empty exactly when `find_first_match`
/// returns `None`, and otherwise begins with the offset that it returns.
pub fn find_all_matches(buffer: &[u8], pattern: &[Option<u8>]) -> (offsets: Vec<usize>)
    ensures
        forall|i: int|
            0 <= i < offsets@.len() ==> matches_at(buffer@, pattern@, #[trigger] offsets@[i] as int),
        forall|i: int, j: int| 0 <= i < j < offsets@.len() ==> offsets@[i] < offsets@[j],
        forall|at: int| #[trigger]
            matches_at(buffer@, pattern@, at) ==> exists|i: int|
                0 <= i < offsets@.len() && offsets@[i] == at,
        match first_match(buffer@, pattern@) {
            Some(first) => offsets@.len() > 0 && offsets@[0] == first,
            None => offsets@.len() == 0,
        },
{
    let mut offsets: Vec<usize> = Vec::new();
    let m = pattern.len();
    if m == 0 || m > buffer.len() {
        return offsets;
    }
    let last = buffer.len() - m;
    let mut offset: usize = 0;
    while offset <= last
        invariant
            m == pattern@.len(),
            m > 0,
            last + m == buffer@.len() <= usize::MAX,
            offset <= last + 1,
            forall|i: int|
                0 <= i < offsets@.len() ==> matches_at(
                    buffer@,
                    pattern@,
                    #[trigger] offsets@[i] as int,
                ),
            forall|i: int| 0 <= i < offsets@.len() ==> #[trigger] offsets@[i] < offset,
            forall|i: int, j: int| 0 <= i < j < offsets@.len() ==> offsets@[i] < offsets@[j],
            forall|at: int|
                0 <= at < offset && #[trigger] matches_at(buffer@, pattern@, at) ==> exists|i: int|
                    0 <= i < offsets@.len() && offsets@[i] == at,
        decreases last + 1 - offset,
    {
        if matches_pattern(buffer, offset, pattern) {
            let ghost before = offsets@;
            offsets.push(offset);
            proof {
                assert forall|at: int|
                    0 <= at < offset + 1 && #[trigger] matches_at(
                        buffer@,
                        pattern@,
                        at,
                    ) implies exists|i: int| 0 <= i < offsets@.len() && offsets@[i] == at by {
                    if at < offset {
                        let i = choose|i: int| 0 <= i < before.len() && before[i] == at;
                        assert(offsets@[i] == at);
                    } else {
                        assert(offsets@[before.len() as int] == at);
                    }
                }
            }
        }
        offset = offset + 1;
    }
    proof {
        match first_match(buffer@, pattern@) {
            Some(first) => {
                first_match_is_the_lowest(buffer@, pattern@, first);
                let i = choose|i: int| 0 <= i < offsets@.len() && offsets@[i] == first;
                if i > 0 {
                    assert(matches_at(buffer@, pattern@, offsets@[0] as int));
                    assert(offsets@[0] < offsets@[i]);
                }
            },
            None => {
                if offsets@.len() > 0 {
                    assert(matches_at(buffer@, pattern@, offsets@[0] as int));
                }
            },
        }
    }
    offsets
}

/// `first_match` names an offset exactly when that offset is the lowest
/// match, so there is at most one such offset.
pub proof fn first_match_is_the_lowest(buffer: Seq<u8>, pattern: Seq<Option<u8>>, offset: int)
    ensures
        first_match(buffer, pattern) == Some(offset) <==> is_first_match(buffer, pattern, offset),
{
    if is_first_match(buffer, pattern, offset) {
        assert(matches_at(buffer, pattern, offset));
        let chosen = choose|o: int| is_first_match(buffer, pattern, o);
        assert(is_first_match(buffer, pattern, chosen));
        assert(chosen == offset) by {
            if chosen < offset {
                assert(!matches_at(buffer, pattern, chosen));
            }
            if offset < chosen {
                assert(!matches_at(buffer, pattern, offset));
            }
        }
    }
    if first_match(buffer, pattern) == Some(offset) {
        let j = choose|j: int| matches_at(buffer, pattern, j);
        assert(matches_at(buffer, pattern, j));
        lowest_match_exists(buffer, pattern, j);
    }
}

/// Where the pattern matches at some offset, it has a lowest match, at or
/// below that offset.
pub proof fn lowest_match_exists(buffer: Seq<u8>, pattern: Seq<Option<u8>>, offset: int)
    requires
        matches_at(buffer, pattern, offset),
    ensures
        exists|low: int| 0 <= low <= offset && is_first_match(buffer, pattern, low),
    decreases offset,
{
    if exists|j: int| 0 <= j < offset && matches_at(buffer, pattern, j) {
        let j = choose|j: int| 0 <= j < offset && matches_at(buffer, pattern, j);
        lowest_match_exists(buffer, pattern, j);
    } else {
        assert(is_first_match(buffer, pattern, offset));
    }
}

/// A pattern of one or more wildcards and nothing else matches first at
/// offset 0 in every buffer that is at least as long as the pattern.
pub proof fn wildcards_match_at_the_start(buffer: Seq<u8>, pattern: Seq<Option<u8>>)
    requires
        pattern.len() > 0,
        forall|k: int| 0 <= k < pattern.len() ==> pattern[k] is None,
        buffer.len() >= pattern.len(),
    ensures
        first_match(buffer, pattern) == Some(0int),
{
    assert(is_first_match(buffer, pattern, 0));
    first_match_is_the_lowest(buffer, pattern, 0);
}

/// The bytes that a pattern without wildcards spells out.
pub open spec fn literal_bytes(pattern: Seq<Option<u8>>) -> Seq<u8>
    recommends
        forall|k: int| 0 <= k < pattern.len() ==> pattern[k] is Some,
{
    Seq::new(pattern.len(), |k: int| pattern[k]->Some_0)
}

/// Whether `needle` stands in `buffer` at `offset`, byte for byte.
pub open spec fn occurs_at(buffer: Seq<u8>, needle: Seq<u8>, offset: int) -> bool {
    &&& 0 <= offset
    &&& offset + needle.len() <= buffer.len()
    &&& buffer.subrange(offset, offset + needle.len()) == needle
}

/// A window matches a pattern without wildcards exactly where the bytes
/// that the pattern spells out stand in the buffer.
pub proof fn exact_window_is_an_occurrence(
    buffer: Seq<u8>,
    pattern: Seq<Option<u8>>,
    offset: int,
)
    requires
        forall|k: int| 0 <= k < pattern.len() ==> pattern[k] is Some,
    ensures
        window_matches(buffer, offset, pattern) <==> occurs_at(
            buffer,
            literal_bytes(pattern),
            offset,
        ),
{
    let needle = literal_bytes(pattern);
    if window_matches(buffer, offset, pattern) {
        assert forall|k: int| 0 <= k < needle.len() implies buffer.subrange(
            offset,
            offset + needle.len(),
        )[k] == needle[k] by {
            assert(accepts(pattern[k], buffer[offset + k]));
        }
        assert(buffer.subrange(offset, offset + needle.len()) =~= needle);
    }
    if occurs_at(buffer, needle, offset) {
        let window = buffer.subrange(offset, offset + needle.len());
        assert forall|k: int| 0 <= k < pattern.len() implies accepts(
            #[trigger] pattern[k],
            buffer[offset + k],
        ) by {
            assert(window[k] == needle[k]);
        }
    }
}

/// With a pattern of one or more exact bytes and no wildcard, the scan is a
/// search for a run of bytes: the first match is the lowest offset at which
/// those bytes stand in the buffer, and there is none exactly when they
/// stand nowhere in it.
pub proof fn exact_pattern_is_substring_search(buffer: Seq<u8>, pattern: Seq<Option<u8>>)
    requires
        pattern.len() > 0,
        forall|k: int| 0 <= k < pattern.len() ==> pattern[k] is Some,
    ensures
        match first_match(buffer, pattern) {
            Some(offset) => {
                &&& occurs_at(buffer, literal_bytes(pattern), offset)
                &&& forall|j: int|
                    0 <= j < offset ==> !occurs_at(buffer, literal_bytes(pattern), j)
            },
            None => forall|j: int| !occurs_at(buffer, literal_bytes(pattern), j),
        },
{
    let needle = literal_bytes(pattern);
    assert forall|j: int|
        matches_at(buffer, pattern, j) <==> #[trigger] occurs_at(buffer, needle, j) by {
        exact_window_is_an_occurrence(buffer, pattern, j);
    }
    match first_match(buffer, pattern) {
        Some(offset) => {
            first_match_is_the_lowest(buffer, pattern, offset);
        },
        None => {},
    }
}

} // verus!
