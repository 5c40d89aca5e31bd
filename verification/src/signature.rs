//! The signature language and its compiler.

use crate::error::PatchError;
use vstd::prelude::*;

verus! {

/// Whether `c` is one of `0-9`, `a-f`, `A-F`.
pub open spec fn is_hex_digit(c: char) -> bool {
    ('0' <= c && c <= '9') || ('a' <= c && c <= 'f') || ('A' <= c && c <= 'F')
}

/// The number, from 0 to 15, that the hexadecimal digit `c` stands for.
pub open spec fn hex_value(c: char) -> int
    recommends
        is_hex_digit(c),
{
    if '0' <= c && c <= '9' {
        c as int - '0' as int
    } else if 'a' <= c && c <= 'f' {
        c as int - 'a' as int + 10
    } else {
        c as int - 'A' as int + 10
    }
}

/// Reads one hexadecimal digit.
pub fn hex_digit(c: char) -> (r: Option<u8>)
    ensures
        r is Some <==> is_hex_digit(c),
        r matches Some(v) ==> v as int == hex_value(c),
{
    if '0' <= c && c <= '9' {
        Some((c as u32 - '0' as u32) as u8)
    } else if 'a' <= c && c <= 'f' {
        Some((c as u32 - 'a' as u32 + 10) as u8)
    } else if 'A' <= c && c <= 'F' {
        Some((c as u32 - 'A' as u32 + 10) as u8)
    } else {
        None
    }
}

/// Whether a literal byte token opens at index `i`: a backslash followed by
/// `x`.
pub open spec fn escape_opens_at(sig: Seq<char>, i: int) -> bool {
    0 <= i && i + 1 < sig.len() && sig[i] == '\\' && sig[i + 1] == 'x'
}

/// Whether the token that opens at `i` is complete: two hexadecimal digits
/// follow the `\x`.
pub open spec fn escape_is_complete(sig: Seq<char>, i: int) -> bool {
    i + 3 < sig.len() && is_hex_digit(sig[i + 2]) && is_hex_digit(sig[i + 3])
}

/// The byte written by the complete token that opens at `i`.
pub open spec fn escape_byte(sig: Seq<char>, i: int) -> u8
    recommends
        escape_opens_at(sig, i),
        escape_is_complete(sig, i),
{
    (16 * hex_value(sig[i + 2]) + hex_value(sig[i + 3])) as u8
}

/// What the characters of `sig` from index `i` on compile to, read left to
/// right: the pattern elements in order, or the index of the backslash of
/// the first incomplete `\x` token.
///
/// A complete token takes four characters and gives `Some` of its byte; `.`
/// gives `None`; any other character, a backslash that `x` does not follow
/// among them, gives nothing.
pub open spec fn compile_from(sig: Seq<char>, i: int) -> Result<Seq<Option<u8>>, int>
    decreases sig.len() - i,
{
    if i < 0 || i >= sig.len() {
        Ok(Seq::empty())
    } else if escape_opens_at(sig, i) {
        if escape_is_complete(sig, i) {
            match compile_from(sig, i + 4) {
                Ok(rest) => Ok(seq![Some(escape_byte(sig, i))] + rest),
                Err(at) => Err(at),
            }
        } else {
            Err(i)
        }
    } else if sig[i] == '.' {
        match compile_from(sig, i + 1) {
            Ok(rest) => Ok(seq![None] + rest),
            Err(at) => Err(at),
        }
    } else {
        compile_from(sig, i + 1)
    }
}

/// What the whole signature compiles to.
pub open spec fn compiled(sig: Seq<char>) -> Result<Seq<Option<u8>>, int> {
    compile_from(sig, 0)
}

/// The outcome of compiling `sig`, with a failure written as the error that
/// names its position.
pub open spec fn compile_outcome(sig: Seq<char>) -> Result<Seq<Option<u8>>, PatchError> {
    match compiled(sig) {
        Ok(pattern) => Ok(pattern),
        Err(at) => Err(PatchError::MalformedSignature { position: at as usize }),
    }
}

/// The characters of `s`, in order.
fn chars_of(s: &str) -> (chars: Vec<char>)
    ensures
        chars@ == s@,
{
    let mut chars: Vec<char> = Vec::new();
    for c in it: s.chars()
        invariant
            it.seq() == s@,
            chars@ == s@.take(it.index() as int),
    {
        chars.push(c);
    }
    chars
}

/// Compiles a signature.
///
/// Succeeds exactly on the signatures in which two hexadecimal digits follow
/// every `\x`, and then returns the elements in the order of their tokens.
/// Otherwise reports the first incomplete token. The empty signature, and
/// one made of separators only, compile to the empty pattern.
pub fn pattern_to_bytes(pattern: &str) -> (r: Result<Vec<Option<u8>>, PatchError>)
    ensures
        match r {
            Ok(elements) => compile_outcome(pattern@) == Ok::<Seq<Option<u8>>, PatchError>(
                elements@,
            ),
            Err(e) => compile_outcome(pattern@) == Err::<Seq<Option<u8>>, PatchError>(e),
        },
        r matches Err(e) ==> e matches PatchError::MalformedSignature { position } && {
            &&& compiled(pattern@) == Err::<Seq<Option<u8>>, int>(position as int)
            &&& escape_opens_at(pattern@, position as int)
            &&& !escape_is_complete(pattern@, position as int)
        },
{
    let chars = chars_of(pattern);
    let n = chars.len();
    let mut elements: Vec<Option<u8>> = Vec::new();
    let mut i: usize = 0;
    while i < n
        invariant
            n == chars@.len(),
            chars@ == pattern@,
            i <= n,
            compiled(chars@) == match compile_from(chars@, i as int) {
                Ok(rest) => Ok::<Seq<Option<u8>>, int>(elements@ + rest),
                Err(at) => Err(at),
            },
        decreases n - i,
    {
        let c = chars[i];
        if c == '\\' && n - i >= 2 && chars[i + 1] == 'x' {
            if n - i < 4 {
                return Err(PatchError::MalformedSignature { position: i });
            }
            match (hex_digit(chars[i + 2]), hex_digit(chars[i + 3])) {
                (Some(high), Some(low)) => {
                    let ghost before = elements@;
                    elements.push(Some(high * 16 + low));
                    proof {
                        let rest = compile_from(chars@, i + 4);
                        if let Ok(tail) = rest {
                            assert(before + (seq![Some(escape_byte(chars@, i as int))] + tail)
                                =~= elements@ + tail);
                        }
                    }
                    i = i + 4;
                },
                _ => {
                    return Err(PatchError::MalformedSignature { position: i });
                },
            }
        } else if c == '.' {
            let ghost before = elements@;
            elements.push(None);
            proof {
                if let Ok(tail) = compile_from(chars@, i + 1) {
                    assert(before + (seq![None::<u8>] + tail) =~= elements@ + tail);
                }
            }
            i = i + 1;
        } else {
            i = i + 1;
        }
    }
    proof {
        assert(elements@ + Seq::<Option<u8>>::empty() =~= elements@);
    }
    Ok(elements)
}

/// Compiling depends on the text of the signature and on nothing else:
/// signatures with the same characters compile to the same elements, or are
/// refused with the same error.
pub proof fn compile_is_deterministic(first: Seq<char>, second: Seq<char>)
    requires
        first.len() == second.len(),
        forall|i: int| 0 <= i < first.len() ==> first[i] == second[i],
    ensures
        compiled(first) == compiled(second),
        compile_outcome(first) == compile_outcome(second),
{
    assert(first =~= second);
}

/// A failure names a position inside the signature at which `\x` stands
/// without two hexadecimal digits behind it.
pub proof fn failure_names_an_incomplete_escape(sig: Seq<char>, i: int)
    requires
        0 <= i,
        compile_from(sig, i) is Err,
    ensures
        i <= compile_from(sig, i)->Err_0 < sig.len(),
        escape_opens_at(sig, compile_from(sig, i)->Err_0),
        !escape_is_complete(sig, compile_from(sig, i)->Err_0),
    decreases sig.len() - i,
{
    if i < sig.len() {
        if escape_opens_at(sig, i) {
            if escape_is_complete(sig, i) {
                failure_names_an_incomplete_escape(sig, i + 4);
            }
        } else {
            failure_names_an_incomplete_escape(sig, i + 1);
        }
    }
}

} // verus!
