use vstd::prelude::*;

verus! {

/// Errors reported by the library.
#[derive(Copy, Clone, Debug, PartialEq, Eq, Structural)]
pub enum SSDPError {
    /// A header value is malformed or outside its protocol range.
    InvalidHeader,
    /// The start line is not a request line or a status line of the protocol.
    InvalidStartLine,
    /// A header line has no name or no colon.
    InvalidHeaderLine,
    /// The input ends before the blank line that closes the header block.
    Truncated,
    /// The message decoded, but is not of the kind that was asked for.
    WrongMessageType,
    /// An interface address and a multicast address are of different IP families.
    AddressFamilyMismatch,
}

} // verus!
