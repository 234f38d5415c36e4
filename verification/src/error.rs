//! What can go wrong.
use vstd::prelude::*;

verus! {

/// Why an operation failed.
#[derive(Debug, Clone, Copy, PartialEq, Eq, Structural)]
pub enum MeshError {
    /// A text is base64 in neither alphabet.
    BadBase64,
    /// A fingerprint does not have 64 bytes of text.
    FingerprintLength,
    /// A fingerprint holds something else than hexadecimal digits.
    BadHex,
    /// A fingerprint does not decode to a verifying key.
    BadVerifyingKey,
    /// A signature does not have 64 bytes.
    SignatureLength,
    /// The identity file is too short.
    IdentityLength,
    /// A derived key was asked for in a length that HKDF does not give.
    DerivedLength,
    /// A plaintext is too long to encrypt.
    Encrypt,
    /// A ciphertext does not decrypt.
    Decrypt,
    /// A private ratchet key does not have 32 bytes.
    DhPrivateLength,
    /// A public ratchet key does not have 32 bytes.
    DhPublicLength,
    /// The peer's ratchet key does not have 32 bytes.
    DhReceivedLength,
    /// A header key does not have 32 bytes.
    HeaderKeyLength,
    /// A stored message key does not have 32 bytes.
    MessageKeyLength,
    /// The bundle has no identity key.
    MissingIdentityKey,
    /// The bundle has no signature of the identity key.
    MissingIdentitySignature,
    /// The identity key is not signed by the peer.
    BadIdentitySignature,
    /// The bundle has no signed prekey.
    MissingSignedPrekey,
    /// The bundle has no signature of the signed prekey.
    MissingPrekeySignature,
    /// The signed prekey is not signed by the peer.
    BadPrekeySignature,
    /// A key in the bundle does not have 32 bytes, or a one-time prekey is not base64.
    BundleKeyLength,
    /// A prekey is not at hand.
    PrekeyMissing,
    /// A stored prekey does not have 32 bytes.
    PrekeyLength,
    /// There is no sending chain and no peer key to start one with.
    NoRatchetKey,
    /// There is no sending chain.
    NoSendingChain,
    /// The message counter is used up.
    CounterExhausted,
    /// A file is over the size limit.
    FileTooLarge,
    /// The header of a file is too long for its length to be written.
    HeaderTooLong,
    /// The key or the nonce in a file header is malformed.
    BadFileHeader,
    /// The operating system gave no randomness.
    NoRandomness,
    /// The clock stands before the epoch.
    NoClock,
    /// A reply is not JSON.
    BadReply,
    /// A reply lacks the challenge nonce.
    MissingNonce,
    /// A reply lacks the token.
    MissingToken,
}

impl MeshError {
    /// Whether an error of key agreement ends the processing of a whole inbox, not only of one
    /// message: the own prekeys are malformed, or the machine gives no randomness or no time.
    pub open spec fn spec_ends_poll(self) -> bool {
        ||| self == MeshError::PrekeyLength
        ||| self == MeshError::NoRandomness
        ||| self == MeshError::NoClock
    }

    /// A prekey of the wrong length, no randomness and no time end the processing of an inbox; a
    /// prekey that is missing or malformed otherwise, or anything wrong with the message, does not.
    pub proof fn law_ends_poll(self)
        ensures
            self.spec_ends_poll() <==> (self is PrekeyLength || self is NoRandomness
                || self is NoClock),
            self is PrekeyMissing || self is BadBase64 ==> !self.spec_ends_poll(),
            self is FingerprintLength || self is BadHex ==> !self.spec_ends_poll(),
    {
    }

    /// Tells an error of key agreement that ends the processing of a whole inbox from one that only
    /// skips the message.
    pub fn ends_poll(&self) -> (r: bool)
        ensures
            r == self.spec_ends_poll(),
    {
        match self {
            MeshError::PrekeyLength => true,
            MeshError::NoRandomness => true,
            MeshError::NoClock => true,
            _ => false,
        }
    }
}

} // verus!
