//! The ways in which the frame codec and the container codec can fail.

use vstd::prelude::*;

verus! {

/// Every failure is an ordinary value handed back to the caller.
#[derive(Debug, Clone, Copy, PartialEq, Eq, Structural)]
pub enum PinkError {
    /// The seed is not exactly nine bytes long.
    SeedLength,
    /// The caller's buffer cannot hold the frame.
    BufferTooSmall,
    /// The input is shorter than the header and the cover together.
    FrameTooSmall,
    /// The declared payload length cannot be addressed on this machine.
    PayloadLengthOverflow,
    /// The declared payload length exceeds the bytes that are there.
    TruncatedFrame,
    /// The container is malformed or nothing follows it.
    InvalidFormat,
}

impl PinkError {
    /// The text shown to a user for this error.
    pub open spec fn message_spec(self) -> Seq<char> {
        match self {
            PinkError::SeedLength => "seed must be exactly 9 bytes"@,
            PinkError::BufferTooSmall => "buffer too small"@,
            PinkError::FrameTooSmall => "frame too small"@,
            PinkError::PayloadLengthOverflow => "payload length overflow"@,
            PinkError::TruncatedFrame => "truncated frame"@,
            PinkError::InvalidFormat => "invalid PNK format"@,
        }
    }

    /// Returns the text shown to a user for this error.
    pub fn message(&self) -> (msg: &'static str)
        ensures
            msg@ == self.message_spec(),
    {
        match self {
            PinkError::SeedLength => "seed must be exactly 9 bytes",
            PinkError::BufferTooSmall => "buffer too small",
            PinkError::FrameTooSmall => "frame too small",
            PinkError::PayloadLengthOverflow => "payload length overflow",
            PinkError::TruncatedFrame => "truncated frame",
            PinkError::InvalidFormat => "invalid PNK format",
        }
    }
}

} // verus!
