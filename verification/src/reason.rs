//! Why messages are rejected and peers are penalized.
use vstd::prelude::*;

verus! {

/// What is wrong with a message that cannot be decoded.
#[derive(Clone, Copy, PartialEq, Eq, Structural, Debug)]
pub enum ValidationError {
    /// The message has an invalid signature.
    InvalidSignature,
    /// The sequence number was empty, where one is expected.
    EmptySequenceNumber,
    /// The sequence number has the wrong length.
    InvalidSequenceNumber,
    /// The peer of the message is invalid.
    InvalidPeerId,
    /// There is a signature, where none is expected.
    SignaturePresent,
    /// There is a sequence number, where none is expected.
    SequenceNumberPresent,
    /// There is a source, where none is expected.
    MessageSourcePresent,
    /// The data of the message could not be transformed.
    TransformFailed,
}

/// Why a message is rejected.
#[derive(Clone, Copy, PartialEq, Eq, Structural, Debug)]
pub enum RejectReason {
    /// The message failed the configured validation during decoding.
    ValidationError(ValidationError),
    /// The message source is us.
    SelfOrigin,
    /// The peer that sent the message was blacklisted.
    BlackListedPeer,
    /// The source of the message was blacklisted.
    BlackListedSource,
    /// The validation was ignored.
    ValidationIgnored,
    /// The validation failed.
    ValidationFailed,
}

/// Why a score is worse than it could be.
#[derive(Clone, Copy, PartialEq, Eq, Structural, Debug)]
pub enum Penalty {
    /// The peer delivers too few messages in a mesh.
    MessageDeficit,
    /// The peer shares its address with too many others.
    IPColocation,
}

} // verus!
