//! Error taxonomy of the library.

use vstd::prelude::*;

verus! {

/// Errors of the wire codec and framing.
#[derive(Clone, Copy, Debug, PartialEq, Eq, Structural)]
pub enum CodecError {
    /// A frame longer than the 10 MiB cap.
    FrameTooLarge,
    /// Bytes that do not decode as the expected type.
    Malformed,
}

/// Errors of the cryptographic layer.
#[derive(Clone, Copy, Debug, PartialEq, Eq, Structural)]
pub enum CryptoError {
    /// A key of the wrong length or shape.
    KeyFormat,
    /// Authenticated decryption failed.
    DecryptFailed,
    /// A signature that does not verify.
    SignatureInvalid,
}

/// Errors of the onion router.
#[derive(Clone, Copy, Debug, PartialEq, Eq, Structural)]
pub enum OnionError {
    /// An empty hop list.
    NoHops,
    /// The hop at this position carries no key-agreement public key.
    NoAgreementKey(usize),
    /// A layer that did not decrypt.
    DecryptFailed,
    /// A decrypted layer that does not decode.
    MalformedLayer,
    /// A packet identifier seen before.
    ReplayDetected,
    /// A payload over the size cap.
    PacketTooLarge,
    /// A response for a circuit no longer tracked.
    CircuitExpired,
    /// No response arrived from the next hop in time.
    ForwardTimeout,
}

} // verus!
