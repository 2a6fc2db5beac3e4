use vstd::prelude::*;

verus! {

/// Everything that can make an encode, a decode or a resolution fail.
#[derive(Debug, Clone, Copy, PartialEq, Eq, Structural)]
pub enum DnsError {
    /// A label of a domain name is longer than 63 bytes.
    LabelTooLong,
    /// A fixed-size or declared-length read goes past the end of the buffer.
    UnexpectedEndOfBuffer,
    /// The buffer ends in the middle of an encoded name.
    TruncatedName,
    /// A compression pointer leads outside the buffer, or pointers chain too deep.
    InvalidCompressionPointer,
    /// A record's data cannot be read as what its type calls for.
    MalformedRecordData,
    /// A response holds neither an answer, a glue address, nor a delegation.
    NoResolutionPath,
    /// The resolution followed more referrals than it allows.
    TooManyReferrals,
    /// Sending a query or receiving its response failed.
    TransportError,
}

} // verus!
