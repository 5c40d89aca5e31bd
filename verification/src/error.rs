//! The ways in which a patch run can end without success.

use vstd::prelude::*;

verus! {

/// Why a patch run stopped. Every error ends the run; nothing is retried.
///
/// The library itself reports `MalformedSignature`, `PatternNotFound` and
/// `OffsetOutOfBounds`. The other kinds belong to the caller that reads and
/// writes the target file.
#[derive(Debug, Clone, Copy, PartialEq, Eq, Structural)]
pub enum PatchError {
    /// The target path does not exist or cannot be reached.
    FileNotFound,
    /// The target exists but its contents could not be read.
    ReadFailed,
    /// The signature holds `\x` that is not followed by two hexadecimal
    /// digits. `position` is the index, counted in characters, of the
    /// backslash of the first such escape.
    MalformedSignature { position: usize },
    /// No window of the buffer is accepted by the pattern.
    PatternNotFound,
    /// The first match lies so close to the end of the buffer that the byte
    /// to overwrite would be outside it.
    OffsetOutOfBounds,
    /// The target could not be opened for writing.
    WritePermissionDenied,
    /// Writing the patched contents back failed.
    WriteFailed,
}

/// The exit status that stands for each kind of error: never 0, which
/// stands for success, and a different number for each kind.
pub open spec fn exit_code_of(e: PatchError) -> int {
    match e {
        PatchError::FileNotFound => 1,
        PatchError::ReadFailed => 2,
        PatchError::MalformedSignature { .. } => 3,
        PatchError::PatternNotFound => 4,
        PatchError::OffsetOutOfBounds => 5,
        PatchError::WritePermissionDenied => 6,
        PatchError::WriteFailed => 7,
    }
}

/// Whether two errors are of the same kind, whatever position they name.
pub open spec fn same_kind(a: PatchError, b: PatchError) -> bool {
    match (a, b) {
        (PatchError::FileNotFound, PatchError::FileNotFound) => true,
        (PatchError::ReadFailed, PatchError::ReadFailed) => true,
        (PatchError::MalformedSignature { .. }, PatchError::MalformedSignature { .. }) => true,
        (PatchError::PatternNotFound, PatchError::PatternNotFound) => true,
        (PatchError::OffsetOutOfBounds, PatchError::OffsetOutOfBounds) => true,
        (PatchError::WritePermissionDenied, PatchError::WritePermissionDenied) => true,
        (PatchError::WriteFailed, PatchError::WriteFailed) => true,
        _ => false,
    }
}

impl PatchError {
    /// The exit status with which a program reports this error.
    pub fn exit_code(&self) -> (code: u8)
        ensures
            code as int == exit_code_of(*self),
            code != 0,
    {
        match self {
            PatchError::FileNotFound => 1,
            PatchError::ReadFailed => 2,
            PatchError::MalformedSignature { .. } => 3,
            PatchError::PatternNotFound => 4,
            PatchError::OffsetOutOfBounds => 5,
            PatchError::WritePermissionDenied => 6,
            PatchError::WriteFailed => 7,
        }
    }
}

/// Two errors have the same exit status exactly when they are of the same
/// kind.
pub proof fn exit_codes_tell_kinds_apart(a: PatchError, b: PatchError)
    ensures
        exit_code_of(a) == exit_code_of(b) <==> same_kind(a, b),
        1 <= exit_code_of(a) <= 7,
{
}

} // verus!
