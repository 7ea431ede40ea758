use vstd::prelude::*;

verus! {

/// Everything that can go wrong while encoding a query, decoding a response,
/// or walking delegations.
#[derive(Debug, Clone, Copy, PartialEq, Eq, Structural)]
pub enum DnsError {
    /// A name holds an empty label (`"a..b"`, a leading or trailing dot, `""`).
    EmptyLabel,
    /// A name holds a label longer than 63 bytes.
    LabelTooLong,
    /// A name holds a character outside ASCII.
    NonAsciiName,
    /// A response is truncated or malformed: a read past the usable length, a
    /// record that overruns the buffer, a bad label or pointer, or a name that
    /// is not ASCII.
    CorruptMessage,
    /// A response does not belong to the query it answers: another id, or
    /// another question.
    ResponseMismatch,
    /// A response holds no address answer, no glue address and no delegation.
    Unresolvable,
    /// The walk took more queries than the hop budget allows.
    HopLimitExceeded,
}

} // verus!
