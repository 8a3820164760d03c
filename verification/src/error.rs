use vstd::prelude::*;

verus! {

/// Why an operation on the key store failed.
#[derive(Debug, PartialEq, Eq)]
pub enum StoreError {
    /// No store file exists in the data directory.
    FileMissing,
    /// Reading, writing or renaming the store file failed.
    IoFailure { path: String, cause: String },
    /// The file is not a store file of the supported version, or is cut short.
    FormatInvalid,
    /// The authentication tag did not verify: wrong master key, or a tampered file.
    AuthFailure,
    /// The cipher refused to encrypt.
    CryptoFailure,
    /// The plaintext is complete but is not the canonical encoding of a store.
    SerializationFailure,
}

} // verus!
