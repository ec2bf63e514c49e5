//! The error taxonomy shared by every stage of the pipeline.

use vstd::prelude::*;

verus! {

/// Why a stage rejected its input.
#[derive(Clone, Copy, Debug, PartialEq, Eq, Structural)]
pub enum CursorError {
    /// Bad magic, version or type: the input is not of the claimed format.
    Format,
    /// A declared offset or size reaches past the end of the buffer.
    Truncated,
    /// An embedded image payload could not be decoded.
    Decode,
    /// Metadata is inconsistent: a missing file, a zero size, an invalid
    /// identifier, or a length that does not fit the target format.
    Validation,
    /// A filesystem operation failed.
    Io,
    /// A mapping or manifest document is malformed.
    Config,
    /// A well-formed container held no usable image.
    Empty,
}

impl CursorError {
    /// A short human-readable description of the error class.
    pub fn message(&self) -> (s: &'static str)
        ensures
            s@ == self.spec_message(),
    {
        match self {
            CursorError::Format => "input is not in the expected format",
            CursorError::Truncated => "declared data extends beyond the end of the buffer",
            CursorError::Decode => "embedded image could not be decoded",
            CursorError::Validation => "metadata failed validation",
            CursorError::Io => "filesystem operation failed",
            CursorError::Config => "configuration document is malformed",
            CursorError::Empty => "no valid cursor images found",
        }
    }

    /// The text that [`CursorError::message`] returns.
    pub open spec fn spec_message(&self) -> Seq<char> {
        match self {
            CursorError::Format => "input is not in the expected format"@,
            CursorError::Truncated => "declared data extends beyond the end of the buffer"@,
            CursorError::Decode => "embedded image could not be decoded"@,
            CursorError::Validation => "metadata failed validation"@,
            CursorError::Io => "filesystem operation failed"@,
            CursorError::Config => "configuration document is malformed"@,
            CursorError::Empty => "no valid cursor images found"@,
        }
    }
}

} // verus!
