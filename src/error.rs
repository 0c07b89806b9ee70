use vstd::prelude::*;

verus! {

/// Every failure the core reports.
#[derive(Debug, Clone, Copy, PartialEq, Eq, Structural)]
pub enum CoreError {
    MalformedFrame,
    FrameTooLarge,
    DecryptionFailed,
    CertificateInvalid,
    HandshakeAuthFailed,
    NoSession,
    DuplicateOrTooOld,
    TooManySkippedMessages,
    SignatureInvalid,
    TooOld,
    Timeout,
    Cancelled,
    PersistenceError,
}

/// Whether the failure requires tearing the connection down and reconnecting.
pub open spec fn spec_is_connection_fatal(e: CoreError) -> bool {
    matches!(e, CoreError::MalformedFrame | CoreError::FrameTooLarge | CoreError::DecryptionFailed
        | CoreError::CertificateInvalid | CoreError::HandshakeAuthFailed)
}

impl CoreError {
    pub fn is_connection_fatal(&self) -> (r: bool)
        ensures
            r == spec_is_connection_fatal(*self),
    {
        match self {
            CoreError::MalformedFrame | CoreError::FrameTooLarge | CoreError::DecryptionFailed
            | CoreError::CertificateInvalid | CoreError::HandshakeAuthFailed => true,
            _ => false,
        }
    }
}

} // verus!
