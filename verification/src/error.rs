//! The error taxonomy of the codec and relay.

use vstd::prelude::*;

verus! {

/// Everything that can go wrong while decoding a packet or answering a
/// question.  Transport failures are the caller's business: nothing in this
/// library touches a socket.
#[derive(Debug, Clone, Copy, PartialEq, Eq, Structural)]
pub enum DnsError {
    /// The buffer is too short, an offset points outside it, a label is not
    /// valid text, or a numeric field holds a value outside its table.
    FormatError,
    /// A compressed name followed more than the permitted number of pointers.
    CompressionLoopError,
    /// An answer was requested for a record type other than the address type.
    UnsupportedOperation,
}

impl DnsError {
    /// A short description, for callers that want to print the error.
    pub fn describe(&self) -> (r: &'static str)
        ensures
            r@ == match *self {
                DnsError::FormatError => "malformed message"@,
                DnsError::CompressionLoopError => "too many pointer jumps"@,
                DnsError::UnsupportedOperation => "unsupported record type"@,
            },
    {
        match *self {
            DnsError::FormatError => "malformed message",
            DnsError::CompressionLoopError => "too many pointer jumps",
            DnsError::UnsupportedOperation => "unsupported record type",
        }
    }
}

} // verus!
