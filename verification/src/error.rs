use vstd::prelude::*;

verus! {

/// Every externally observable failure of the codec, the framer and the
/// connection multiplexer, as a typed, inspectable value.
#[derive(Clone, Copy, Debug, PartialEq, Eq)]
pub enum Error {
    /// An address family discriminator whose declared attribute length does
    /// not match the family's fixed wire size.
    InvalidAddressLength,
    /// An address family discriminator this codec does not recognize.
    UnsupportedAddressType,
    /// A value variant (the E164 telephone number) that the codec does not
    /// yet implement; encoding or decoding it is refused, never aborted.
    UnsupportedValueType,
    /// Fewer bytes were available than the value being decoded needs.
    Truncated,
    /// A message whose declared length disagrees with the bytes present, or
    /// an attribute record that would read past the message boundary.
    InvalidMessageLength,
    /// A declared message length above the hard ceiling; a defensive cap
    /// against resource exhaustion by a malicious or corrupt peer.
    MessageTooLarge,
    /// A request was registered or sent while the connection was not running.
    NotConnected,
    /// A response arrived whose correlation id has no pending request; the
    /// response is dropped and the connection keeps running.
    UnmatchedResponse(u32),
    /// A matching response arrived but the caller's completion slot was gone.
    ResponseDropped,
    /// The single-use response accessor of a request handle was consumed a
    /// second time.
    ResponseAlreadyTaken,
}

impl Error {
    /// Whether the failure ends a connection's background read loop.
    /// Transport, framing and decode failures leave the byte stream
    /// unsynchronized, so the loop must stop and the connection is faulted;
    /// a correlation miss or an abandoned completion slot costs only the one
    /// response, and the loop keeps serving the others.
    pub fn is_fatal_to_connection(&self) -> (r: bool)
        ensures
            r == !(self is UnmatchedResponse || self is ResponseDropped),
    {
        match self {
            Error::UnmatchedResponse(_) => false,
            Error::ResponseDropped => false,
            _ => true,
        }
    }
}

} // verus!
