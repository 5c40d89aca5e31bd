//! Overwriting one byte at a fixed distance from the first match.
//!
//! The patch works on a buffer in memory. Reading the buffer from a file
//! and writing it back is left to the caller; `locate_patch` alone is the
//! dry run, which changes nothing.
//!
//! Patching twice is not the same as patching once. Where the overwritten
//! byte lies inside the matched window, the second run may find the
//! pattern elsewhere or not at all.

use crate::error::PatchError;
use crate::scanner::{
    accepts, find_first_match, first_match, first_match_is_the_lowest, is_first_match, matches_at,
    window_matches,
};
use crate::signature::{compile_outcome, pattern_to_bytes};
use vstd::prelude::*;

verus! {

/// Where the byte to overwrite lies: `delta` bytes past the first match.
/// Fails with `PatternNotFound` where the pattern matches nowhere, and with
/// `OffsetOutOfBounds` where that position is not inside the buffer.
pub open spec fn patch_outcome(buffer: Seq<u8>, pattern: Seq<Option<u8>>, delta: int) -> Result<
    int,
    PatchError,
> {
    match first_match(buffer, pattern) {
        None => Err(PatchError::PatternNotFound),
        Some(start) => if start + delta < buffer.len() {
            Ok(start + delta)
        } else {
            Err(PatchError::OffsetOutOfBounds)
        },
    }
}

/// The buffer after the patch: one byte replaced where `patch_outcome`
/// names an offset, the buffer as it was where it names an error.
pub open spec fn patched(
    buffer: Seq<u8>,
    pattern: Seq<Option<u8>>,
    delta: int,
    patch_byte: u8,
) -> Seq<u8> {
    match patch_outcome(buffer, pattern, delta) {
        Ok(offset) => buffer.update(offset, patch_byte),
        Err(_) => buffer,
    }
}

/// The outcome of a patch that starts from the text of a signature: the
/// compiler's error where it refuses the signature, else the outcome for
/// the compiled pattern.
pub open spec fn patch_outcome_for(signature: Seq<char>, buffer: Seq<u8>, delta: int) -> Result<
    int,
    PatchError,
> {
    match compile_outcome(signature) {
        Ok(pattern) => patch_outcome(buffer, pattern, delta),
        Err(e) => Err(e),
    }
}

/// The buffer after a patch that starts from the text of a signature.
pub open spec fn patched_for(
    signature: Seq<char>,
    buffer: Seq<u8>,
    delta: int,
    patch_byte: u8,
) -> Seq<u8> {
    match compile_outcome(signature) {
        Ok(pattern) => patched(buffer, pattern, delta, patch_byte),
        Err(_) => buffer,
    }
}

/// Whether an executable result says what `outcome` says.
pub open spec fn reports(result: Result<usize, PatchError>, outcome: Result<int, PatchError>) -> bool {
    match result {
        Ok(offset) => outcome == Ok::<int, PatchError>(offset as int),
        Err(e) => outcome == Err::<int, PatchError>(e),
    }
}

/// Computes the offset of the byte that a patch would overwrite, without
/// touching the buffer.
pub fn locate_patch(buffer: &[u8], pattern: &[Option<u8>], delta: usize) -> (r: Result<
    usize,
    PatchError,
>)
    ensures
        reports(r, patch_outcome(buffer@, pattern@, delta as int)),
{
    match find_first_match(buffer, pattern) {
        None => Err(PatchError::PatternNotFound),
        Some(start) => {
            if delta < buffer.len() - start {
                Ok(start + delta)
            } else {
                Err(PatchError::OffsetOutOfBounds)
            }
        },
    }
}

/// Overwrites with `patch_byte` the byte that lies `delta` bytes past the
/// first match of `pattern`. On an error the buffer is left as it was.
pub fn apply_patch(buffer: &mut Vec<u8>, pattern: &[Option<u8>], delta: usize, patch_byte: u8) -> (r:
    Result<usize, PatchError>)
    ensures
        reports(r, patch_outcome(old(buffer)@, pattern@, delta as int)),
        final(buffer)@ == patched(old(buffer)@, pattern@, delta as int, patch_byte),
{
    match locate_patch(buffer.as_slice(), pattern, delta) {
        Ok(offset) => {
            buffer.set(offset, patch_byte);
            Ok(offset)
        },
        Err(e) => Err(e),
    }
}

/// Compiles `signature` and patches `buffer` with the result: the byte
/// that lies `delta` bytes past the first match becomes `patch_byte`.
/// Returns the offset of that byte. On an error, a refused signature among
/// them, the buffer is left as it was.
pub fn patch(buffer: &mut Vec<u8>, signature: &str, delta: usize, patch_byte: u8) -> (r: Result<
    usize,
    PatchError,
>)
    ensures
        reports(r, patch_outcome_for(signature@, old(buffer)@, delta as int)),
        final(buffer)@ == patched_for(signature@, old(buffer)@, delta as int, patch_byte),
{
    match pattern_to_bytes(signature) {
        Ok(pattern) => apply_patch(buffer, pattern.as_slice(), delta, patch_byte),
        Err(e) => Err(e),
    }
}

/// A patch keeps the length of the buffer and every byte of it but the one
/// at the offset that it reports, which then holds `patch_byte`.
pub proof fn patch_changes_one_byte(
    buffer: Seq<u8>,
    pattern: Seq<Option<u8>>,
    delta: int,
    patch_byte: u8,
)
    requires
        0 <= delta,
    ensures
        patched(buffer, pattern, delta, patch_byte).len() == buffer.len(),
        forall|i: int|
            0 <= i < buffer.len() && patch_outcome(buffer, pattern, delta) != Ok::<
                int,
                PatchError,
            >(i) ==> patched(buffer, pattern, delta, patch_byte)[i] == buffer[i],
        patch_outcome(buffer, pattern, delta) matches Ok(offset) ==> 0 <= offset < buffer.len()
            && patched(buffer, pattern, delta, patch_byte)[offset] == patch_byte,
        patch_outcome(buffer, pattern, delta) is Err ==> patched(
            buffer,
            pattern,
            delta,
            patch_byte,
        ) == buffer,
{
    if let Some(start) = first_match(buffer, pattern) {
        first_match_is_the_lowest(buffer, pattern, start);
    }
}

/// The same, for a patch that starts from the text of a signature.
pub proof fn patch_for_changes_one_byte(
    signature: Seq<char>,
    buffer: Seq<u8>,
    delta: int,
    patch_byte: u8,
)
    requires
        0 <= delta,
    ensures
        patched_for(signature, buffer, delta, patch_byte).len() == buffer.len(),
        forall|i: int|
            0 <= i < buffer.len() && patch_outcome_for(signature, buffer, delta) != Ok::<
                int,
                PatchError,
            >(i) ==> patched_for(signature, buffer, delta, patch_byte)[i] == buffer[i],
        patch_outcome_for(signature, buffer, delta) matches Ok(offset) ==> 0 <= offset
            < buffer.len() && patched_for(signature, buffer, delta, patch_byte)[offset]
            == patch_byte,
        patch_outcome_for(signature, buffer, delta) is Err ==> patched_for(
            signature,
            buffer,
            delta,
            patch_byte,
        ) == buffer,
{
    if let Ok(pattern) = compile_outcome(signature) {
        patch_changes_one_byte(buffer, pattern, delta, patch_byte);
    }
}

/// Where the byte to overwrite would lie at or past the end of the
/// buffer, the patch is refused with `OffsetOutOfBounds` and nothing is
/// written.
pub proof fn patch_past_the_end_is_refused(
    buffer: Seq<u8>,
    pattern: Seq<Option<u8>>,
    delta: int,
    patch_byte: u8,
    start: int,
)
    requires
        is_first_match(buffer, pattern, start),
        start + delta >= buffer.len(),
    ensures
        patch_outcome(buffer, pattern, delta) == Err::<int, PatchError>(
            PatchError::OffsetOutOfBounds,
        ),
        patched(buffer, pattern, delta, patch_byte) == buffer,
{
    first_match_is_the_lowest(buffer, pattern, start);
}

/// Where the overwritten byte lies past the matched window, a second patch
/// finds the same match and writes the same byte again: it reports the
/// same offset and leaves the patched buffer as it is.
pub proof fn repatch_past_the_window_is_stable(
    buffer: Seq<u8>,
    pattern: Seq<Option<u8>>,
    delta: int,
    patch_byte: u8,
)
    requires
        delta >= pattern.len(),
        patch_outcome(buffer, pattern, delta) is Ok,
    ensures
        patch_outcome(patched(buffer, pattern, delta, patch_byte), pattern, delta)
            == patch_outcome(buffer, pattern, delta),
        patched(patched(buffer, pattern, delta, patch_byte), pattern, delta, patch_byte)
            == patched(buffer, pattern, delta, patch_byte),
{
    let start = first_match(buffer, pattern)->Some_0;
    first_match_is_the_lowest(buffer, pattern, start);
    let offset = start + delta;
    let after = buffer.update(offset, patch_byte);
    assert(after == patched(buffer, pattern, delta, patch_byte));
    assert(window_matches(after, start, pattern)) by {
        assert forall|k: int| 0 <= k < pattern.len() implies accepts(
            #[trigger] pattern[k],
            after[start + k],
        ) by {
            assert(after[start + k] == buffer[start + k]);
        }
    }
    assert forall|j: int| 0 <= j < start implies !matches_at(after, pattern, j) by {
        if window_matches(after, j, pattern) {
            assert forall|k: int| 0 <= k < pattern.len() implies accepts(
                #[trigger] pattern[k],
                buffer[j + k],
            ) by {
                assert(after[j + k] == buffer[j + k]);
            }
            assert(matches_at(buffer, pattern, j));
        }
    }
    assert(is_first_match(after, pattern, start));
    first_match_is_the_lowest(after, pattern, start);
    assert(after.update(offset, patch_byte) =~= after);
}

} // verus!
