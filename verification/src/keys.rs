//! The key pair that identifies a log and signs its growth.

use vstd::prelude::*;

verus! {

/// The public half of a log's identity: the address under which the log is
/// known.
#[derive(Debug, Clone, Copy, PartialEq, Eq)]
pub struct PublicKey {
    bytes: [u8; 32],
}

/// The secret half of a log's identity, held by its single writer.
#[derive(Clone, Copy, PartialEq, Eq)]
pub struct SecretKey {
    bytes: [u8; 32],
}

/// A log's identity. It is fixed when a storage engine is built and never
/// changes afterwards; keeping it safe on disk is the caller's business.
pub struct KeyPair {
    /// The key the log is addressed by.
    pub public_key: PublicKey,
    /// The key the log's growth is signed with.
    pub secret_key: SecretKey,
}

impl View for PublicKey {
    type V = Seq<u8>;

    closed spec fn view(&self) -> Seq<u8> {
        self.bytes@
    }
}

impl View for SecretKey {
    type V = Seq<u8>;

    closed spec fn view(&self) -> Seq<u8> {
        self.bytes@
    }
}

impl PublicKey {
    /// The key made of the given bytes.
    pub fn from_bytes(bytes: [u8; 32]) -> (key: Self)
        ensures
            key@ == bytes@,
    {
        PublicKey { bytes }
    }

    /// The bytes of the key.
    pub fn to_bytes(&self) -> (bytes: [u8; 32])
        ensures
            bytes@ == self@,
    {
        self.bytes
    }
}

impl SecretKey {
    /// The key made of the given bytes.
    pub fn from_bytes(bytes: [u8; 32]) -> (key: Self)
        ensures
            key@ == bytes@,
    {
        SecretKey { bytes }
    }

    /// The bytes of the key.
    pub fn to_bytes(&self) -> (bytes: [u8; 32])
        ensures
            bytes@ == self@,
    {
        self.bytes
    }
}

/// `SigningKey::generate` of `ed25519_dalek`, fed by the operating system's
/// random number generator: a fresh Ed25519 key pair. Nothing is claimed of
/// the keys that come out. The generator panics where the operating system
/// hands out no random bytes.
#[verifier::external_body]
pub(crate) fn generate_key_pair() -> KeyPair {
    let signing = ed25519_dalek::SigningKey::generate(&mut rand_core::OsRng);
    KeyPair {
        public_key: PublicKey { bytes: signing.verifying_key().to_bytes() },
        secret_key: SecretKey { bytes: signing.to_bytes() },
    }
}

} // verus!
