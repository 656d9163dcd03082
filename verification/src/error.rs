//! Failures reported by the library.
use vstd::prelude::*;

verus! {

/// Every way an operation of this library can fail.
///
/// Malformed-input failures and verification failures use different variants,
/// so a caller can always tell them apart.
#[derive(Clone, Copy, Debug, PartialEq, Eq, Structural)]
pub enum Error {
    /// A vector of an encryption key has the wrong length: the length found,
    /// then the length expected.
    MalformedEncryptionKey(usize, usize),
    /// A vector of a decryption key has the wrong length: the length found,
    /// then the length expected.
    MalformedDecryptionKey(usize, usize),
    /// A vector of bases is too short for the chosen chunk size: the length
    /// found, then the length needed.
    VectorShorterThanExpected(usize, usize),
    /// The chunk bit size is not one of 1, 2, 4, 8, 16.
    InvalidChunkBitSize(u8),
    /// The number of chunks does not match the chunk size or the key.
    MessageNotInChunks,
    /// No value of the chunk at this index matches the ciphertext.
    CouldNotFindDiscreteLog(usize),
    /// A pairing identity that every well-formed ciphertext meets failed.
    InvalidCiphertextVerification,
    /// The claimed plaintext and transcript do not match the ciphertext.
    InvalidDecryptionVerification,
    /// The bytes are not the encoding of any value of the wanted type.
    SerializationError,
}

} // verus!
